//! The configuration value set the pipeline reads at decision time:
//! trigger keywords and feature toggles. The persisted form is owned by
//! the surrounding application; the library only consumes a snapshot.

use vstd::prelude::*;

verus! {

/// The built-in trigger keywords, used whenever the configured set is
/// absent or empty.
pub open spec fn spec_default_flags() -> Seq<Seq<char>> {
    seq!["验证码"@, "动态密码"@, "verification"@, "code"@, "인증"@, "代码"@]
}

/// The built-in trigger keyword set.
pub fn default_flags() -> (r: Vec<String>)
    ensures
        r.deep_view() == spec_default_flags(),
        r@.len() == 6,
{
    let mut v: Vec<String> = Vec::new();
    v.push("验证码".to_owned());
    v.push("动态密码".to_owned());
    v.push("verification".to_owned());
    v.push("code".to_owned());
    v.push("인증".to_owned());
    v.push("代码".to_owned());
    proof {
        assert(v.deep_view() =~= spec_default_flags());
    }
    v
}

/// The configuration snapshot: the trigger keywords and the feature
/// toggles that steer dispatching.
pub struct MAConfig {
    /// Simulate a paste keystroke once the code is on the clipboard.
    pub auto_paste: bool,
    /// After pasting, simulate a confirm keystroke as well.
    pub auto_return: bool,
    /// Keep the tray icon hidden permanently.
    pub hide_icon_forever: bool,
    /// Register the application to start at login.
    pub launch_at_login: bool,
    /// The trigger keywords, matched as literal substrings.
    pub flags: Vec<String>,
    /// Watch incoming mail in addition to the message store.
    pub listening_to_mail: bool,
    /// Hand codes to the confirmation surface instead of acting.
    pub float_window: bool,
    /// Save the prior clipboard contents and restore them after pasting.
    pub recover_clipboard: bool,
}

impl MAConfig {
    /// A usable configuration always holds at least one trigger keyword.
    pub open spec fn wf(&self) -> bool {
        self.flags@.len() > 0
    }

    /// Restores the built-in keyword set when the configured one is
    /// empty, leaving every other field alone.
    pub fn normalize(&mut self)
        ensures
            final(self).wf(),
            old(self).flags@.len() > 0 ==> final(self).flags == old(self).flags,
            old(self).flags@.len() == 0 ==> final(self).flags.deep_view() == spec_default_flags(),
            final(self).auto_paste == old(self).auto_paste,
            final(self).auto_return == old(self).auto_return,
            final(self).hide_icon_forever == old(self).hide_icon_forever,
            final(self).launch_at_login == old(self).launch_at_login,
            final(self).listening_to_mail == old(self).listening_to_mail,
            final(self).float_window == old(self).float_window,
            final(self).recover_clipboard == old(self).recover_clipboard,
    {
        if self.flags.len() == 0 {
            self.flags = default_flags();
        }
    }
}

impl Default for MAConfig {
    /// The built-in configuration: every toggle off, the built-in
    /// keyword set.
    fn default() -> (c: Self)
        ensures
            c.auto_paste == false,
            c.auto_return == false,
            c.hide_icon_forever == false,
            c.launch_at_login == false,
            c.listening_to_mail == false,
            c.float_window == false,
            c.recover_clipboard == false,
            c.flags.deep_view() == spec_default_flags(),
            c.wf(),
    {
        MAConfig {
            auto_paste: false,
            auto_return: false,
            hide_icon_forever: false,
            launch_at_login: false,
            flags: default_flags(),
            listening_to_mail: false,
            float_window: false,
            recover_clipboard: false,
        }
    }
}

} // verus!
