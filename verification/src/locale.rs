//! Maps the system locale onto one of the two interface languages the
//! application ships.

use vstd::prelude::*;

verus! {

/// The interface language for a locale identifier: Simplified Chinese
/// for any locale starting with "zh", English for everything else.
pub open spec fn spec_locale_language(loc: Seq<char>) -> Seq<char> {
    if loc.len() >= 2 && loc[0] == 'z' && loc[1] == 'h' {
        "zh-CN"@
    } else {
        "en"@
    }
}

/// Chooses the interface language for a locale identifier.
pub fn language_for_locale(loc: &str) -> (r: &'static str)
    ensures
        r@ == spec_locale_language(loc@),
{
    if loc.unicode_len() >= 2 && loc.get_char(0) == 'z' && loc.get_char(1) == 'h' {
        "zh-CN"
    } else {
        "en"
    }
}

/// Relies on sys_locale::get_locale: the locale the system reports, if
/// any. The result depends on the environment, so nothing further is
/// promised of it.
#[verifier::external_body]
fn system_locale() -> (r: Option<String>) {
    sys_locale::get_locale()
}

/// The interface language for the system the process runs on: "zh-CN"
/// when the system locale starts with "zh", "en" otherwise or when no
/// locale is reported.
pub fn get_sys_locale() -> (r: &'static str)
    ensures
        r@ == "zh-CN"@ || r@ == "en"@,
{
    match system_locale() {
        Some(loc) => language_for_locale(loc.as_str()),
        None => "en",
    }
}

} // verus!
