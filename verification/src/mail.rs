//! The mail variant of the change watcher: recognising a newly created
//! incoming-mail file by its path, unwrapping the stored mail format
//! (a decimal byte count, optional padding, a newline, the message,
//! then metadata), extracting the plain-text body, and running the
//! shared match step under a size ceiling.
//!
//! Nothing here may abort the watcher: every malformed input yields
//! `None` and the event is dropped.

use vstd::prelude::*;
use vstd::slice::slice_subrange;
use vstd::slice::slice_to_vec;

use crate::config::MAConfig;
use crate::dispatch::plan_matches;
use crate::dispatch::DispatchPlan;
use crate::pipeline::contains_seq;
use crate::pipeline::spec_real_captcha;
use crate::watch::process_message;
use crate::watch::spec_should_dispatch;

verus! {

/// Mail bodies above this many characters are skipped: codes appear in
/// short notifications, and skipping avoids scanning large bodies.
pub const MAIL_BODY_CEILING: usize = 500;

/// An ASCII decimal digit byte.
pub open spec fn is_digit_byte(b: u8) -> bool {
    48 <= b <= 57
}

/// ASCII whitespace other than the newline that ends the count line.
pub open spec fn is_pad_byte(b: u8) -> bool {
    b == 32 || b == 9 || b == 13 || b == 12
}

fn exec_is_digit_byte(b: u8) -> (r: bool)
    ensures
        r == is_digit_byte(b),
{
    48 <= b && b <= 57
}

fn exec_is_pad_byte(b: u8) -> (r: bool)
    ensures
        r == is_pad_byte(b),
{
    b == 32 || b == 9 || b == 13 || b == 12
}

/// Where the run of decimal digit bytes that starts at `i` ends.
pub open spec fn digit_end(bytes: Seq<u8>, i: int) -> int
    decreases bytes.len() - i,
    when 0 <= i <= bytes.len()
{
    if i == bytes.len() || !is_digit_byte(bytes[i]) {
        i
    } else {
        digit_end(bytes, i + 1)
    }
}

/// Where the run of padding bytes that starts at `i` ends.
pub open spec fn pad_end(bytes: Seq<u8>, i: int) -> int
    decreases bytes.len() - i,
    when 0 <= i <= bytes.len()
{
    if i == bytes.len() || !is_pad_byte(bytes[i]) {
        i
    } else {
        pad_end(bytes, i + 1)
    }
}

proof fn lemma_digit_end_is(bytes: Seq<u8>, i: int, j: int)
    requires
        0 <= i <= j <= bytes.len(),
        forall|k: int| i <= k < j ==> is_digit_byte(bytes[k]),
        j == bytes.len() || !is_digit_byte(bytes[j]),
    ensures
        digit_end(bytes, i) == j,
    decreases j - i,
{
    if i < j {
        assert(is_digit_byte(bytes[i]));
        lemma_digit_end_is(bytes, i + 1, j);
    }
}

proof fn lemma_pad_end_is(bytes: Seq<u8>, i: int, j: int)
    requires
        0 <= i <= j <= bytes.len(),
        forall|k: int| i <= k < j ==> is_pad_byte(bytes[k]),
        j == bytes.len() || !is_pad_byte(bytes[j]),
    ensures
        pad_end(bytes, i) == j,
    decreases j - i,
{
    if i < j {
        assert(is_pad_byte(bytes[i]));
        lemma_pad_end_is(bytes, i + 1, j);
    }
}

/// The value of a string of decimal digit bytes.
pub open spec fn decimal_value(digits: Seq<u8>) -> nat
    decreases digits.len(),
{
    if digits.len() == 0 {
        0
    } else {
        decimal_value(digits.drop_last()) * 10 + (digits.last() - 48) as nat
    }
}

proof fn lemma_decimal_value_grows(digits: Seq<u8>, k: int)
    requires
        0 <= k <= digits.len(),
    ensures
        decimal_value(digits.take(k)) <= decimal_value(digits),
    decreases digits.len() - k,
{
    if k == digits.len() {
        assert(digits.take(k) =~= digits);
    } else {
        assert(digits.take(k + 1).drop_last() =~= digits.take(k));
        assert(decimal_value(digits.take(k)) <= decimal_value(digits.take(k + 1)));
        lemma_decimal_value_grows(digits, k + 1);
    }
}

/// The message part of a stored mail file: the count line names how
/// many bytes the message holds; the message must be followed by at
/// least one byte of metadata.
pub open spec fn spec_emlx_message(bytes: Seq<u8>) -> Option<Seq<u8>> {
    let d = digit_end(bytes, 0);
    let p = pad_end(bytes, d);
    if d == 0 {
        None
    } else if p == bytes.len() || bytes[p] != 10 {
        None
    } else {
        let count = decimal_value(bytes.subrange(0, d));
        let start = p + 1;
        if count == 0 {
            None
        } else if bytes.len() - start <= count {
            None
        } else {
            Some(bytes.subrange(start, start + count as int))
        }
    }
}

/// Unwraps a stored mail file into its message bytes: reads the
/// decimal byte count, skips padding and the newline, and takes that
/// many bytes, provided the metadata part behind them is non-empty.
/// Yields nothing on any malformed input instead of failing.
pub fn emlx_message(raw: &Vec<u8>) -> (r: Option<Vec<u8>>)
    ensures
        (r is Some) == (spec_emlx_message(raw@) is Some),
        r matches Some(m) ==> spec_emlx_message(raw@) == Some(m@),
{
    let ghost s = raw@;
    let n = raw.len();
    let mut d: usize = 0;
    while d < n && exec_is_digit_byte(raw[d])
        invariant
            s == raw@,
            n == s.len(),
            0 <= d <= n,
            forall|k: int| 0 <= k < d ==> is_digit_byte(s[k]),
        decreases n - d,
    {
        d = d + 1;
    }
    proof {
        lemma_digit_end_is(s, 0, d as int);
    }
    let mut p: usize = d;
    while p < n && exec_is_pad_byte(raw[p])
        invariant
            s == raw@,
            n == s.len(),
            d <= p <= n,
            forall|k: int| d <= k < p ==> is_pad_byte(s[k]),
        decreases n - p,
    {
        p = p + 1;
    }
    proof {
        lemma_pad_end_is(s, d as int, p as int);
    }
    if d == 0 {
        return None;
    }
    if p == n || raw[p] != 10 {
        return None;
    }
    let ghost digits = s.subrange(0, d as int);
    let mut acc: usize = 0;
    let mut too_big = false;
    let mut k: usize = 0;
    while k < d && !too_big
        invariant
            s == raw@,
            n == s.len(),
            0 < d <= n,
            digits == s.subrange(0, d as int),
            0 <= k <= d,
            forall|l: int| 0 <= l < d ==> is_digit_byte(s[l]),
            !too_big ==> acc == decimal_value(digits.take(k as int)),
            too_big ==> decimal_value(digits) > usize::MAX,
        decreases d - k,
    {
        let dig = (raw[k] - 48) as usize;
        proof {
            assert(digits.take(k + 1).drop_last() =~= digits.take(k as int));
            assert(digits.take(k + 1).last() == s[k as int]);
            assert(decimal_value(digits.take(k + 1)) == decimal_value(digits.take(k as int)) * 10
                + (s[k as int] - 48) as nat);
        }
        if acc > (usize::MAX - dig) / 10 {
            proof {
                assert(acc * 10 + dig > usize::MAX) by (nonlinear_arith)
                    requires
                        acc > (usize::MAX - dig) / 10,
                        dig <= usize::MAX,
                ;
                lemma_decimal_value_grows(digits, k + 1);
            }
            too_big = true;
        } else {
            proof {
                assert(acc * 10 + dig <= usize::MAX) by (nonlinear_arith)
                    requires
                        acc <= (usize::MAX - dig) / 10,
                        dig <= usize::MAX,
                ;
            }
            acc = acc * 10 + dig;
        }
        k = k + 1;
    }
    if too_big {
        proof {
            assert(n - (p + 1) <= decimal_value(digits));
        }
        return None;
    }
    proof {
        assert(digits.take(d as int) =~= digits);
        assert(acc == decimal_value(digits));
    }
    if acc == 0 {
        return None;
    }
    let start = p + 1;
    if n - start <= acc {
        return None;
    }
    let piece = slice_subrange(raw.as_slice(), start, start + acc);
    Some(slice_to_vec(piece))
}

/// A filesystem path that names a newly arrived incoming-mail file:
/// it lies under the inbox and carries the stored-mail extension.
pub fn is_new_mail_path(path: &str) -> (r: bool)
    ensures
        r == (contains_seq(path@, ".emlx"@) && contains_seq(path@, "INBOX.mbox"@)),
{
    crate::pipeline::contains_substr(path, ".emlx") && crate::pipeline::contains_substr(
        path,
        "INBOX.mbox",
    )
}

/// The text with every occurrence of the pattern removed, scanning
/// left to right without overlap.
pub open spec fn remove_all(s: Seq<char>, pat: Seq<char>) -> Seq<char>
    decreases s.len(),
    when pat.len() > 0
{
    if s.len() < pat.len() {
        s
    } else if s.subrange(0, pat.len() as int) == pat {
        remove_all(s.skip(pat.len() as int), pat)
    } else {
        seq![s[0]] + remove_all(s.drop_first(), pat)
    }
}

/// Drops the temporary-file marker from a path: a freshly delivered
/// mail file is first observed under its temporary name.
pub fn strip_tmp_marker(path: &str) -> (r: String)
    ensures
        r@ == remove_all(path@, ".tmp"@),
{
    let ghost s = path@;
    let ghost pat = ".tmp"@;
    proof {
        reveal_strlit(".tmp");
        assert(pat.len() == 4);
    }
    let n = path.unicode_len();
    let mut out = String::new();
    proof {
        assert(s.skip(0) =~= s);
        assert(out@ + remove_all(s, pat) =~= remove_all(s, pat));
    }
    let mut i: usize = 0;
    while i < n
        invariant
            s == path@,
            pat == ".tmp"@,
            pat.len() == 4,
            n == s.len(),
            0 <= i <= n,
            remove_all(s, pat) == out@ + remove_all(s.skip(i as int), pat),
        decreases n - i,
    {
        let ghost rest = s.skip(i as int);
        let mut matched = false;
        if n - i >= 4 {
            matched = path.get_char(i) == '.' && path.get_char(i + 1) == 't' && path.get_char(
                i + 2,
            ) == 'm' && path.get_char(i + 3) == 'p';
            proof {
                if matched {
                    assert(rest.subrange(0, 4) =~= pat) by {
                        reveal_strlit(".tmp");
                        assert(rest.subrange(0, 4).len() == 4);
                        assert(rest.subrange(0, 4)[0] == s[i as int]);
                        assert(rest.subrange(0, 4)[1] == s[i + 1]);
                        assert(rest.subrange(0, 4)[2] == s[i + 2]);
                        assert(rest.subrange(0, 4)[3] == s[i + 3]);
                    }
                } else {
                    assert(rest.len() >= 4);
                    assert(rest.subrange(0, 4) != pat) by {
                        reveal_strlit(".tmp");
                        if rest.subrange(0, 4) == pat {
                            assert(s[i as int] == pat[0]);
                            assert(s[i + 1] == pat[1]);
                            assert(s[i + 2] == pat[2]);
                            assert(s[i + 3] == pat[3]);
                        }
                    }
                }
            }
        } else {
            proof {
                assert(rest.len() < 4);
            }
        }
        if matched {
            proof {
                assert(remove_all(rest, pat) == remove_all(rest.skip(4), pat));
                assert(rest.skip(4) =~= s.skip(i + 4));
            }
            i = i + 4;
        } else {
            let piece = path.substring_char(i, i + 1);
            proof {
                let tail = remove_all(rest.drop_first(), pat);
                if rest.len() < 4 {
                    assert(remove_all(rest, pat) == rest);
                    if rest.len() == 0 {
                    } else {
                        assert(rest.drop_first().len() < 4);
                        assert(remove_all(rest.drop_first(), pat) == rest.drop_first());
                        assert(rest =~= seq![rest[0]] + rest.drop_first());
                    }
                }
                assert(remove_all(rest, pat) == seq![rest[0]] + tail);
                assert(rest[0] == s[i as int]);
                assert(rest.drop_first() =~= s.skip(i + 1));
                assert(piece@ =~= seq![s[i as int]]);
                assert((out@ + piece@) + remove_all(s.skip(i + 1), pat) =~= out@ + (seq![
                    s[i as int],
                ] + remove_all(s.skip(i + 1), pat)));
            }
            out.append(piece);
            i = i + 1;
        }
    }
    proof {
        assert(s.skip(n as int) =~= Seq::<char>::empty());
        assert(s.skip(n as int).len() < pat.len());
        assert(remove_all(s.skip(n as int), pat) == s.skip(n as int));
        assert(out@ + Seq::<char>::empty() =~= out@);
    }
    out
}

/// The plain-text body that the mail-format library reads out of a
/// message in the mail interchange format; nothing when the message
/// cannot be parsed or has no text part. The result depends on the
/// message bytes alone.
pub uninterp spec fn mail_body_text(msg: Seq<u8>) -> Option<Seq<char>>;

/// Relies on mail_parser's MessageParser::parse and Message::body_text:
/// the plain-text body of a mail message, a function of the raw
/// message bytes alone; nothing when parsing fails or no text part
/// exists.
#[verifier::external_body]
fn parse_mail_text(msg: &Vec<u8>) -> (r: Option<String>)
    ensures
        (r is Some) == (mail_body_text(msg@) is Some),
        r matches Some(b) ==> mail_body_text(msg@) == Some(b@),
{
    mail_parser::MessageParser::default().parse(msg.as_slice()).and_then(
        |m| m.body_text(0).map(|b| b.to_string()),
    )
}

/// The match step for one extracted mail body: bodies at or above the
/// size ceiling are skipped whatever they hold; shorter ones run the
/// shared trigger-extract-score step.
pub fn handle_mail_text(body: &str, config: &MAConfig, source_label: &str) -> (r: Option<
    DispatchPlan,
>)
    ensures
        (r is Some) == (body@.len() < MAIL_BODY_CEILING && spec_should_dispatch(
            body@,
            config.flags.deep_view(),
        )),
        r matches Some(p) ==> plan_matches(p, spec_real_captcha(body@), source_label@, *config),
{
    if body.unicode_len() < MAIL_BODY_CEILING {
        process_message(body, config, source_label)
    } else {
        None
    }
}

/// One mail creation event, from the stored file's bytes to the
/// dispatch decision: unwrap the stored format, read the plain-text
/// body, and run the match step under the size ceiling. Every
/// malformed stage yields nothing; no input aborts the watcher.
pub fn handle_mail_bytes(raw: &Vec<u8>, config: &MAConfig, source_label: &str) -> (r: Option<
    DispatchPlan,
>)
    ensures
        (match spec_emlx_message(raw@) {
            Option::None => r is None,
            Option::Some(m) => match mail_body_text(m) {
                Option::None => r is None,
                Option::Some(b) => ((r is Some) == (b.len() < MAIL_BODY_CEILING
                    && spec_should_dispatch(b, config.flags.deep_view()))) && (r matches Some(p)
                    ==> plan_matches(p, spec_real_captcha(b), source_label@, *config)),
            },
        }),
{
    match emlx_message(raw) {
        None => None,
        Some(msg) => match parse_mail_text(&msg) {
            None => None,
            Some(body) => handle_mail_text(body.as_str(), config, source_label),
        },
    }
}

} // verus!
