//! The dispatch decision: which actions the consumer must perform for a
//! winning code, decided once from a configuration snapshot so that a
//! toggle flipped mid-dispatch cannot split the decision.

use vstd::prelude::*;

use crate::config::MAConfig;

verus! {

/// The contract between a watcher and the action consumer: the winning
/// code and a label naming the channel it came from.
pub struct DispatchResult {
    pub code: String,
    pub source_label: String,
}

/// The planned actions for one dispatch, each a best-effort step for
/// the surrounding process to perform in order: save the prior
/// clipboard contents, place the code on the clipboard (always owed),
/// then either hand the code to the confirmation surface or simulate
/// the paste and confirm keystrokes, and finally restore the saved
/// clipboard contents.
pub struct DispatchPlan {
    pub result: DispatchResult,
    /// Save the prior clipboard contents before the code replaces them.
    pub save_old_clipboard: bool,
    /// Hand the code to the confirmation surface instead of acting.
    pub hand_to_surface: bool,
    /// Simulate a paste keystroke.
    pub simulate_paste: bool,
    /// Simulate a confirm keystroke after the paste.
    pub simulate_submit: bool,
    /// Restore the saved clipboard contents after the paste has been
    /// consumed.
    pub restore_clipboard: bool,
}

/// What a correct plan for the given code, source label and
/// configuration snapshot looks like.
pub open spec fn plan_matches(
    p: DispatchPlan,
    code: Seq<char>,
    source_label: Seq<char>,
    config: MAConfig,
) -> bool {
    &&& p.result.code@ == code
    &&& p.result.source_label@ == source_label
    &&& p.save_old_clipboard == config.recover_clipboard
    &&& p.hand_to_surface == config.float_window
    &&& p.simulate_paste == (!config.float_window && config.auto_paste)
    &&& p.simulate_submit == (!config.float_window && config.auto_paste && config.auto_return)
    &&& p.restore_clipboard == (config.recover_clipboard && !config.float_window
        && config.auto_paste)
}

/// Plans the actions for one winning code from a configuration
/// snapshot: the clipboard write is always owed; the confirmation
/// surface, when enabled, replaces the keystroke simulation; the
/// confirm keystroke presupposes the paste; the saved clipboard is
/// restored only when a paste consumed it.
pub fn plan_dispatch(result: DispatchResult, config: &MAConfig) -> (p: DispatchPlan)
    ensures
        plan_matches(p, result.code@, result.source_label@, *config),
{
    DispatchPlan {
        save_old_clipboard: config.recover_clipboard,
        hand_to_surface: config.float_window,
        simulate_paste: !config.float_window && config.auto_paste,
        simulate_submit: !config.float_window && config.auto_paste && config.auto_return,
        restore_clipboard: config.recover_clipboard && !config.float_window && config.auto_paste,
        result,
    }
}

} // verus!
