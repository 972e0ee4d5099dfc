//! The decision core of the change watchers: debouncing by last-seen
//! modification timestamp, and the shared match step that turns one new
//! message into a dispatch plan or into nothing.

use vstd::prelude::*;

use crate::config::MAConfig;
use crate::dispatch::plan_matches;
use crate::dispatch::plan_dispatch;
use crate::dispatch::DispatchPlan;
use crate::dispatch::DispatchResult;
use crate::pipeline::check_captcha_or_other;
use crate::pipeline::get_real_captcha;
use crate::pipeline::spec_real_captcha;
use crate::pipeline::spec_trigger;

verus! {

/// The state of the message-store watcher: the modification timestamp
/// (in nanoseconds) it saw last.
pub struct WatchState {
    pub last_modified: u64,
}

impl WatchState {
    /// A watcher that has last seen the given modification timestamp.
    pub fn new(initial: u64) -> (w: Self)
        ensures
            w.last_modified == initial,
    {
        WatchState { last_modified: initial }
    }

    /// One poll tick: records the current modification timestamp and
    /// reports whether it changed since the last tick. Only a changed
    /// timestamp warrants fetching new content.
    pub fn observe(&mut self, now: u64) -> (changed: bool)
        ensures
            final(self).last_modified == now,
            changed == (old(self).last_modified != now),
    {
        let changed = self.last_modified != now;
        self.last_modified = now;
        changed
    }
}

/// A message warrants a dispatch exactly when it holds a trigger
/// keyword and the extraction yields a non-empty winning code.
pub open spec fn spec_should_dispatch(text: Seq<char>, flags: Seq<Seq<char>>) -> bool {
    spec_trigger(text, flags) && spec_real_captcha(text) != Seq::<char>::empty()
}

/// The shared match step of both watchers: on a newly fetched message,
/// decide the trigger, extract and score the candidates, and plan the
/// dispatch. Yields nothing when no keyword triggers or no code is
/// found — both are normal outcomes of a tick, not errors.
pub fn process_message(text: &str, config: &MAConfig, source_label: &str) -> (r: Option<
    DispatchPlan,
>)
    ensures
        (r is Some) == spec_should_dispatch(text@, config.flags.deep_view()),
        r matches Some(p) ==> plan_matches(p, spec_real_captcha(text@), source_label@, *config),
{
    if check_captcha_or_other(text, &config.flags) {
        let code = get_real_captcha(text);
        if code.as_str().unicode_len() > 0 {
            proof {
                assert(code@ != Seq::<char>::empty());
            }
            let result = DispatchResult { code, source_label: source_label.to_owned() };
            Some(plan_dispatch(result, config))
        } else {
            proof {
                assert(code@ =~= Seq::<char>::empty());
            }
            None
        }
    } else {
        None
    }
}

} // verus!
