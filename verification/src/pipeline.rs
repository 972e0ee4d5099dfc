//! The pure detection-and-extraction pipeline: keyword triggering,
//! candidate-code extraction and disambiguation.
//!
//! A candidate code is a maximal run of ASCII letters and digits, between
//! 4 and 8 characters long, holding at least one decimal digit. Among
//! several candidates the one with the most decimal digits wins; ties go
//! to the earliest occurrence.

use vstd::prelude::*;

verus! {

/// A character that may stand inside a candidate code: an ASCII letter
/// or an ASCII decimal digit.
pub open spec fn is_word_char(c: char) -> bool {
    ('0' <= c && c <= '9') || ('a' <= c && c <= 'z') || ('A' <= c && c <= 'Z')
}

/// An ASCII decimal digit.
pub open spec fn is_digit_char(c: char) -> bool {
    '0' <= c && c <= '9'
}

fn exec_is_word_char(c: char) -> (r: bool)
    ensures
        r == is_word_char(c),
{
    ('0' <= c && c <= '9') || ('a' <= c && c <= 'z') || ('A' <= c && c <= 'Z')
}

fn exec_is_digit_char(c: char) -> (r: bool)
    ensures
        r == is_digit_char(c),
{
    '0' <= c && c <= '9'
}

/// How many decimal digits a token holds.
pub open spec fn digit_count(t: Seq<char>) -> nat
    decreases t.len(),
{
    if t.len() == 0 {
        0
    } else {
        (if is_digit_char(t[0]) {
            1nat
        } else {
            0nat
        }) + digit_count(t.drop_first())
    }
}

/// Whether a token holds at least one decimal digit.
pub open spec fn has_digit(t: Seq<char>) -> bool {
    exists|i: int| 0 <= i < t.len() && is_digit_char(t[i])
}

proof fn lemma_digit_count_push(t: Seq<char>, c: char)
    ensures
        digit_count(t.push(c)) == digit_count(t) + (if is_digit_char(c) {
            1nat
        } else {
            0nat
        }),
    decreases t.len(),
{
    let u = t.push(c);
    assert(u.len() == t.len() + 1);
    if t.len() == 0 {
        assert(u[0] == c);
        assert(u.drop_first() =~= Seq::<char>::empty());
        assert(digit_count(u.drop_first()) == 0);
        assert(digit_count(u) == (if is_digit_char(c) {
            1nat
        } else {
            0nat
        }) + digit_count(u.drop_first()));
    } else {
        assert(u[0] == t[0]);
        assert(u.drop_first() =~= t.drop_first().push(c));
        lemma_digit_count_push(t.drop_first(), c);
        assert(digit_count(u) == (if is_digit_char(t[0]) {
            1nat
        } else {
            0nat
        }) + digit_count(u.drop_first()));
    }
}

/// A token holds a digit exactly when its digit count is positive.
proof fn lemma_has_digit_iff_count(t: Seq<char>)
    ensures
        has_digit(t) == (digit_count(t) >= 1),
    decreases t.len(),
{
    if t.len() > 0 {
        lemma_has_digit_iff_count(t.drop_first());
        if has_digit(t.drop_first()) {
            let i = choose|i: int| 0 <= i < t.drop_first().len() && is_digit_char(
                t.drop_first()[i],
            );
            assert(is_digit_char(t[i + 1]));
        }
        if has_digit(t) && !is_digit_char(t[0]) {
            let i = choose|i: int| 0 <= i < t.len() && is_digit_char(t[i]);
            assert(is_digit_char(t.drop_first()[i - 1]));
        }
    }
}

/// Count the decimal digits of a token.
fn count_digits(t: &str) -> (r: usize)
    ensures
        r == digit_count(t@),
{
    let n = t.unicode_len();
    let mut i: usize = 0;
    let mut cnt: usize = 0;
    while i < n
        invariant
            n == t@.len(),
            0 <= i <= n,
            cnt == digit_count(t@.take(i as int)),
            cnt <= i,
        decreases n - i,
    {
        let c = t.get_char(i);
        proof {
            assert(t@.take(i + 1) =~= t@.take(i as int).push(t@[i as int]));
            lemma_digit_count_push(t@.take(i as int), t@[i as int]);
        }
        if exec_is_digit_char(c) {
            cnt = cnt + 1;
        }
        i = i + 1;
    }
    proof {
        assert(t@.take(n as int) =~= t@);
    }
    cnt
}

/// Where the run of word characters that starts at `i` ends: the first
/// position at or after `i` that is past the end of the text or holds a
/// character that is no ASCII letter or digit.
pub open spec fn run_end(s: Seq<char>, i: int) -> int
    decreases s.len() - i,
    when 0 <= i <= s.len()
{
    if i == s.len() || !is_word_char(s[i]) {
        i
    } else {
        run_end(s, i + 1)
    }
}

proof fn lemma_run_end(s: Seq<char>, i: int)
    requires
        0 <= i <= s.len(),
    ensures
        i <= run_end(s, i) <= s.len(),
        forall|k: int| i <= k < run_end(s, i) ==> is_word_char(s[k]),
        run_end(s, i) == s.len() || !is_word_char(s[run_end(s, i)]),
        i < s.len() && is_word_char(s[i]) ==> run_end(s, i) > i,
    decreases s.len() - i,
{
    if i < s.len() && is_word_char(s[i]) {
        lemma_run_end(s, i + 1);
    }
}

proof fn lemma_run_end_is(s: Seq<char>, i: int, j: int)
    requires
        0 <= i <= j <= s.len(),
        forall|k: int| i <= k < j ==> is_word_char(s[k]),
        j == s.len() || !is_word_char(s[j]),
    ensures
        run_end(s, i) == j,
    decreases j - i,
{
    if i < j {
        assert(is_word_char(s[i]));
        lemma_run_end_is(s, i + 1, j);
    }
}

/// A code-shaped token: 4 to 8 characters, at least one decimal digit.
pub open spec fn token_ok(t: Seq<char>) -> bool {
    4 <= t.len() <= 8 && has_digit(t)
}

/// The candidate tokens of the text from position `i` on: every maximal
/// run of ASCII letters and digits that is code-shaped, in order of
/// appearance.
pub open spec fn captchas_from(s: Seq<char>, i: int) -> Seq<Seq<char>>
    decreases s.len() - i,
    when 0 <= i <= s.len()
    via captchas_from_decreases
{
    if i == s.len() {
        Seq::empty()
    } else if !is_word_char(s[i]) {
        captchas_from(s, i + 1)
    } else {
        let j = run_end(s, i);
        let tok = s.subrange(i, j);
        if token_ok(tok) {
            seq![tok] + captchas_from(s, j)
        } else {
            captchas_from(s, j)
        }
    }
}

#[via_fn]
proof fn captchas_from_decreases(s: Seq<char>, i: int) {
    if 0 <= i && i < s.len() && is_word_char(s[i]) {
        lemma_run_end(s, i);
    }
}

/// The candidate tokens of the whole text, in order of appearance.
pub open spec fn spec_captchas(s: Seq<char>) -> Seq<Seq<char>> {
    captchas_from(s, 0)
}

/// Every extracted token is code-shaped: 4 to 8 characters long, at
/// least one decimal digit, and made of ASCII letters and digits only.
pub proof fn lemma_captchas_shape(s: Seq<char>, i: int)
    requires
        0 <= i <= s.len(),
    ensures
        forall|k: int| 0 <= k < captchas_from(s, i).len() ==> token_ok(
            #[trigger] captchas_from(s, i)[k],
        ),
        forall|k: int, l: int|
            0 <= k < captchas_from(s, i).len() && 0 <= l < captchas_from(s, i)[k].len()
                ==> is_word_char(#[trigger] captchas_from(s, i)[k][l]),
    decreases s.len() - i,
{
    if i == s.len() {
    } else if !is_word_char(s[i]) {
        lemma_captchas_shape(s, i + 1);
        assert(captchas_from(s, i) == captchas_from(s, i + 1));
    } else {
        lemma_run_end(s, i);
        let j = run_end(s, i);
        lemma_captchas_shape(s, j);
        let rest = captchas_from(s, j);
        let tok = s.subrange(i, j);
        if token_ok(tok) {
            let whole = seq![tok] + rest;
            assert(captchas_from(s, i) == whole);
            assert(forall|l: int| 0 <= l < tok.len() ==> is_word_char(#[trigger] tok[l]));
            assert forall|k: int| 0 <= k < whole.len() implies token_ok(#[trigger] whole[k]) by {
                if k == 0 {
                    assert(whole[k] == tok);
                } else {
                    assert(whole[k] == rest[k - 1]);
                }
            }
            assert forall|k: int, l: int|
                0 <= k < whole.len() && 0 <= l < whole[k].len() implies is_word_char(
                #[trigger] whole[k][l],
            ) by {
                if k == 0 {
                    assert(whole[k] == tok);
                } else {
                    assert(whole[k] == rest[k - 1]);
                }
            }
        } else {
            assert(captchas_from(s, i) == rest);
        }
    }
}

/// Extracts the candidate codes of a message: every maximal run of ASCII
/// letters and digits that is 4 to 8 characters long and holds at least
/// one decimal digit, in order of first appearance. Duplicate tokens are
/// kept at each occurrence.
pub fn get_captchas(stdout: &str) -> (r: Vec<String>)
    ensures
        r.deep_view() == spec_captchas(stdout@),
        forall|k: int| 0 <= k < r.deep_view().len() ==> token_ok(#[trigger] r.deep_view()[k]),
{
    let ghost s = stdout@;
    let n = stdout.unicode_len();
    let mut res: Vec<String> = Vec::new();
    proof {
        assert(res.deep_view() =~= Seq::<Seq<char>>::empty());
        assert(res.deep_view() + captchas_from(s, 0) =~= captchas_from(s, 0));
    }
    let mut i: usize = 0;
    while i < n
        invariant
            s == stdout@,
            n == s.len(),
            0 <= i <= n,
            res.deep_view() + captchas_from(s, i as int) == spec_captchas(s),
        decreases n - i,
    {
        if !exec_is_word_char(stdout.get_char(i)) {
            proof {
                assert(captchas_from(s, i as int) == captchas_from(s, i + 1));
            }
            i = i + 1;
        } else {
            let mut j = i + 1;
            while j < n && exec_is_word_char(stdout.get_char(j))
                invariant
                    s == stdout@,
                    n == s.len(),
                    0 <= i < j <= n,
                    forall|l: int| i <= l < j ==> is_word_char(s[l]),
                decreases n - j,
            {
                j = j + 1;
            }
            proof {
                lemma_run_end_is(s, i as int, j as int);
            }
            let ghost tok = s.subrange(i as int, j as int);
            let len = j - i;
            let mut found = false;
            let mut l = i;
            while l < j
                invariant
                    s == stdout@,
                    n == s.len(),
                    0 <= i <= l <= j <= n,
                    found ==> exists|d: int| i <= d < l && is_digit_char(s[d]),
                    !found ==> forall|d: int| i <= d < l ==> !is_digit_char(s[d]),
                decreases j - l,
            {
                if exec_is_digit_char(stdout.get_char(l)) {
                    found = true;
                    proof {
                        assert(i <= l < l + 1 && is_digit_char(s[l as int]));
                    }
                }
                l = l + 1;
            }
            proof {
                if found {
                    let d = choose|d: int| i <= d < j && is_digit_char(s[d]);
                    assert(tok[d - i] == s[d]);
                    assert(has_digit(tok));
                } else {
                    assert forall|x: int| 0 <= x < tok.len() implies !is_digit_char(
                        #[trigger] tok[x],
                    ) by {
                        assert(tok[x] == s[i + x]);
                    }
                    assert(!has_digit(tok));
                }
                assert(token_ok(tok) == (4 <= len <= 8 && found));
            }
            if 4 <= len && len <= 8 && found {
                let ghost old_dv = res.deep_view();
                let piece = stdout.substring_char(i, j);
                res.push(piece.to_owned());
                proof {
                    assert(res.deep_view() =~= old_dv.push(tok));
                    assert(old_dv.push(tok) =~= old_dv + seq![tok]);
                    assert(captchas_from(s, i as int) == seq![tok] + captchas_from(s, j as int));
                    assert((old_dv + seq![tok]) + captchas_from(s, j as int) =~= old_dv + (seq![tok]
                        + captchas_from(s, j as int)));
                }
            } else {
                proof {
                    assert(captchas_from(s, i as int) == captchas_from(s, j as int));
                }
            }
            i = j;
        }
    }
    proof {
        assert(captchas_from(s, n as int) =~= Seq::<Seq<char>>::empty());
        assert(res.deep_view() + captchas_from(s, n as int) =~= res.deep_view());
        lemma_captchas_shape(s, 0);
    }
    res
}

/// The pattern stands in the text at position `i`.
pub open spec fn is_match_at(text: Seq<char>, pat: Seq<char>, i: int) -> bool {
    0 <= i && i + pat.len() <= text.len() && text.subrange(i, i + pat.len()) == pat
}

/// The pattern stands somewhere in the text as a literal substring.
pub open spec fn contains_seq(text: Seq<char>, pat: Seq<char>) -> bool {
    exists|i: int| is_match_at(text, pat, i)
}

/// Literal substring search, character by character.
pub fn contains_substr(text: &str, pat: &str) -> (r: bool)
    ensures
        r == contains_seq(text@, pat@),
{
    let n = text.unicode_len();
    let m = pat.unicode_len();
    if m > n {
        assert(forall|i: int| !is_match_at(text@, pat@, i));
        return false;
    }
    if m == 0 {
        proof {
            assert(text@.subrange(0, 0) =~= pat@);
            assert(is_match_at(text@, pat@, 0));
        }
        return true;
    }
    let bound = n - m;
    let mut i: usize = 0;
    while i <= bound
        invariant
            n == text@.len(),
            m == pat@.len(),
            1 <= m <= n,
            bound == n - m,
            0 <= i <= bound + 1,
            forall|j: int| 0 <= j < i ==> !is_match_at(text@, pat@, j),
        decreases bound + 1 - i,
    {
        let mut k: usize = 0;
        let mut mismatch = false;
        while k < m && !mismatch
            invariant
                n == text@.len(),
                m == pat@.len(),
                0 <= i <= n - m,
                0 <= k <= m,
                !mismatch ==> forall|l: int| 0 <= l < k ==> text@[i + l] == pat@[l],
                mismatch ==> !is_match_at(text@, pat@, i as int),
            decreases m - k,
        {
            if text.get_char(i + k) != pat.get_char(k) {
                proof {
                    if is_match_at(text@, pat@, i as int) {
                        assert(text@.subrange(i as int, i + m)[k as int] == pat@[k as int]);
                    }
                }
                mismatch = true;
            }
            k = k + 1;
        }
        if !mismatch {
            proof {
                assert(text@.subrange(i as int, i + m) =~= pat@);
                assert(is_match_at(text@, pat@, i as int));
            }
            return true;
        }
        i = i + 1;
    }
    proof {
        assert(forall|j: int| is_match_at(text@, pat@, j) ==> 0 <= j <= n - m);
    }
    false
}

/// The text holds at least one of the keywords as a literal substring.
pub open spec fn spec_trigger(text: Seq<char>, flags: Seq<Seq<char>>) -> bool {
    exists|k: int| 0 <= k < flags.len() && contains_seq(text, flags[k])
}

/// Decides whether a message looks like a verification-code message:
/// true exactly when the text holds one of the configured keywords as a
/// literal, case-sensitive substring.
pub fn check_captcha_or_other(stdout: &str, flags: &Vec<String>) -> (r: bool)
    ensures
        r == spec_trigger(stdout@, flags.deep_view()),
{
    let ghost dv = flags.deep_view();
    let mut k: usize = 0;
    while k < flags.len()
        invariant
            dv == flags.deep_view(),
            dv.len() == flags.len(),
            0 <= k <= flags.len(),
            forall|j: int| 0 <= j < k ==> !contains_seq(stdout@, dv[j]),
        decreases flags.len() - k,
    {
        proof {
            assert(dv[k as int] == flags@[k as int]@);
        }
        if contains_substr(stdout, flags[k].as_str()) {
            return true;
        }
        k = k + 1;
    }
    false
}

/// The first keyword of the set that stands in the text; the empty
/// string when none does.
pub open spec fn spec_first_flag(text: Seq<char>, flags: Seq<Seq<char>>) -> Seq<char>
    decreases flags.len(),
{
    if flags.len() == 0 {
        Seq::empty()
    } else if contains_seq(text, flags[0]) {
        flags[0]
    } else {
        spec_first_flag(text, flags.drop_first())
    }
}

proof fn lemma_first_flag_skip(text: Seq<char>, flags: Seq<Seq<char>>, k: int)
    requires
        0 <= k <= flags.len(),
        forall|j: int| 0 <= j < k ==> !contains_seq(text, flags[j]),
    ensures
        spec_first_flag(text, flags) == spec_first_flag(text, flags.skip(k)),
    decreases k,
{
    if k > 0 {
        assert(flags.drop_first().skip(k - 1) =~= flags.skip(k));
        assert(forall|j: int|
            0 <= j < k - 1 ==> flags.drop_first()[j] == flags[j + 1]
                && !contains_seq(text, flags.drop_first()[j]));
        lemma_first_flag_skip(text, flags.drop_first(), k - 1);
    } else {
        assert(flags.skip(0) =~= flags);
    }
}

/// Reports which keyword triggered: the first configured keyword that
/// stands in the text, or the empty string when none does.
pub fn first_matching_flag(stdout: &str, flags: &Vec<String>) -> (r: String)
    ensures
        r@ == spec_first_flag(stdout@, flags.deep_view()),
{
    let ghost dv = flags.deep_view();
    let mut k: usize = 0;
    while k < flags.len()
        invariant
            dv == flags.deep_view(),
            dv.len() == flags.len(),
            0 <= k <= flags.len(),
            forall|j: int| 0 <= j < k ==> !contains_seq(stdout@, dv[j]),
        decreases flags.len() - k,
    {
        proof {
            assert(dv[k as int] == flags@[k as int]@);
        }
        if contains_substr(stdout, flags[k].as_str()) {
            proof {
                lemma_first_flag_skip(stdout@, dv, k as int);
                assert(dv.skip(k as int)[0] == dv[k as int]);
                assert(dv.skip(k as int).len() > 0);
            }
            return flags[k].clone();
        }
        k = k + 1;
    }
    proof {
        lemma_first_flag_skip(stdout@, dv, dv.len() as int);
        assert(dv.skip(dv.len() as int) =~= Seq::<Seq<char>>::empty());
    }
    String::new()
}

/// The greatest digit count among the candidates; 0 for no candidates.
pub open spec fn max_digit_count(cands: Seq<Seq<char>>) -> nat
    decreases cands.len(),
{
    if cands.len() == 0 {
        0
    } else {
        let rest = max_digit_count(cands.drop_first());
        if digit_count(cands[0]) >= rest {
            digit_count(cands[0])
        } else {
            rest
        }
    }
}

/// The first candidate whose digit count is `c`; the empty string when
/// none has it.
pub open spec fn first_with_count(cands: Seq<Seq<char>>, c: nat) -> Seq<char>
    decreases cands.len(),
{
    if cands.len() == 0 {
        Seq::empty()
    } else if digit_count(cands[0]) == c {
        cands[0]
    } else {
        first_with_count(cands.drop_first(), c)
    }
}

/// The winning candidate: the first one with the greatest digit count,
/// provided some candidate holds a digit at all; otherwise the empty
/// string.
pub open spec fn spec_best(cands: Seq<Seq<char>>) -> Seq<char> {
    if max_digit_count(cands) == 0 {
        Seq::empty()
    } else {
        first_with_count(cands, max_digit_count(cands))
    }
}

/// Extraction followed by scoring, as one function of the message text.
pub open spec fn spec_real_captcha(s: Seq<char>) -> Seq<char> {
    spec_best(spec_captchas(s))
}

proof fn lemma_max_bound(cands: Seq<Seq<char>>)
    ensures
        forall|j: int| 0 <= j < cands.len() ==> digit_count(#[trigger] cands[j]) <= max_digit_count(
            cands,
        ),
    decreases cands.len(),
{
    if cands.len() > 0 {
        lemma_max_bound(cands.drop_first());
        assert forall|j: int| 0 <= j < cands.len() implies digit_count(#[trigger] cands[j])
            <= max_digit_count(cands) by {
            if j > 0 {
                assert(cands[j] == cands.drop_first()[j - 1]);
            }
        }
    }
}

proof fn lemma_max_achieved(cands: Seq<Seq<char>>)
    requires
        cands.len() > 0,
    ensures
        exists|j: int|
            0 <= j < cands.len() && digit_count(#[trigger] cands[j]) == max_digit_count(cands),
    decreases cands.len(),
{
    if cands.len() > 1 && digit_count(cands[0]) < max_digit_count(cands.drop_first()) {
        lemma_max_achieved(cands.drop_first());
        let j = choose|j: int|
            0 <= j < cands.drop_first().len() && digit_count(#[trigger] cands.drop_first()[j])
                == max_digit_count(cands.drop_first());
        assert(cands[j + 1] == cands.drop_first()[j]);
        assert(digit_count(cands[j + 1]) == max_digit_count(cands));
    } else {
        if cands.len() == 1 {
            assert(cands.drop_first().len() == 0);
            assert(max_digit_count(cands.drop_first()) == 0);
        }
        assert(digit_count(cands[0]) == max_digit_count(cands));
    }
}

proof fn lemma_max_push(cands: Seq<Seq<char>>, x: Seq<char>)
    ensures
        max_digit_count(cands.push(x)) == (if digit_count(x) >= max_digit_count(cands) {
            digit_count(x)
        } else {
            max_digit_count(cands)
        }),
    decreases cands.len(),
{
    let u = cands.push(x);
    if cands.len() == 0 {
        assert(u[0] == x);
        assert(u.drop_first() =~= Seq::<Seq<char>>::empty());
        assert(max_digit_count(u.drop_first()) == 0);
        assert(max_digit_count(u) == digit_count(x));
        assert(max_digit_count(cands) == 0);
    } else {
        assert(u[0] == cands[0]);
        assert(u.drop_first() =~= cands.drop_first().push(x));
        lemma_max_push(cands.drop_first(), x);
        assert(max_digit_count(u) == (if digit_count(cands[0]) >= max_digit_count(u.drop_first()) {
            digit_count(cands[0])
        } else {
            max_digit_count(u.drop_first())
        }));
    }
}

proof fn lemma_first_with_count_at(cands: Seq<Seq<char>>, c: nat, k: int)
    requires
        0 <= k < cands.len(),
        digit_count(cands[k]) == c,
        forall|j: int| 0 <= j < k ==> digit_count(#[trigger] cands[j]) != c,
    ensures
        first_with_count(cands, c) == cands[k],
    decreases k,
{
    if k > 0 {
        assert forall|j: int| 0 <= j < k - 1 implies digit_count(
            #[trigger] cands.drop_first()[j],
        ) != c by {
            assert(cands.drop_first()[j] == cands[j + 1]);
        }
        assert(cands.drop_first()[k - 1] == cands[k]);
        lemma_first_with_count_at(cands.drop_first(), c, k - 1);
    }
}

proof fn lemma_first_with_count_in(cands: Seq<Seq<char>>, c: nat)
    requires
        exists|j: int| 0 <= j < cands.len() && digit_count(#[trigger] cands[j]) == c,
    ensures
        cands.contains(first_with_count(cands, c)),
        digit_count(first_with_count(cands, c)) == c,
    decreases cands.len(),
{
    if cands.len() > 0 && digit_count(cands[0]) != c {
        let j = choose|j: int| 0 <= j < cands.len() && digit_count(#[trigger] cands[j]) == c;
        assert(cands.drop_first()[j - 1] == cands[j]);
        lemma_first_with_count_in(cands.drop_first(), c);
        let w = first_with_count(cands.drop_first(), c);
        let l = choose|l: int| 0 <= l < cands.drop_first().len() && cands.drop_first()[l] == w;
        assert(cands[l + 1] == w);
    }
}

/// Picks the winning candidate from a list: the one with the most
/// decimal digits, ties going to the earliest; the empty string when the
/// list is empty or no candidate holds a digit.
pub fn best_candidate(captchas: &Vec<String>) -> (r: String)
    ensures
        r@ == spec_best(captchas.deep_view()),
{
    let ghost dv = captchas.deep_view();
    let mut winner: String = String::new();
    let mut max_cnt: usize = 0;
    let ghost mut best_k: int = 0;
    let mut k: usize = 0;
    while k < captchas.len()
        invariant
            dv == captchas.deep_view(),
            dv.len() == captchas.len(),
            0 <= k <= captchas.len(),
            max_cnt == max_digit_count(dv.take(k as int)),
            max_cnt == 0 ==> winner@ == Seq::<char>::empty(),
            max_cnt > 0 ==> 0 <= best_k < k && winner@ == dv[best_k] && digit_count(dv[best_k])
                == max_cnt && (forall|j: int|
                0 <= j < best_k ==> digit_count(#[trigger] dv[j]) < max_cnt),
        decreases captchas.len() - k,
    {
        let cnt = count_digits(captchas[k].as_str());
        proof {
            assert(dv[k as int] == captchas@[k as int]@);
            assert(dv.take(k + 1) =~= dv.take(k as int).push(dv[k as int]));
            lemma_max_push(dv.take(k as int), dv[k as int]);
            lemma_max_bound(dv.take(k as int));
            assert(forall|j: int| 0 <= j < k ==> dv.take(k as int)[j] == #[trigger] dv[j]);
        }
        if cnt > max_cnt {
            max_cnt = cnt;
            winner = captchas[k].clone();
            proof {
                best_k = k as int;
            }
        }
        k = k + 1;
    }
    proof {
        assert(dv.take(dv.len() as int) =~= dv);
        if max_cnt > 0 {
            lemma_first_with_count_at(dv, max_cnt as nat, best_k);
        }
    }
    winner
}

/// On an empty candidate list the scorer yields the empty string.
pub proof fn lemma_scorer_empty()
    ensures
        spec_best(Seq::<Seq<char>>::empty()) == Seq::<char>::empty(),
{
    assert(max_digit_count(Seq::<Seq<char>>::empty()) == 0);
}

/// On a list whose greatest digit count is reached first at position
/// `k` (and is at least one digit), the scorer yields that candidate:
/// ties go to the earliest of the tied candidates.
pub proof fn lemma_scorer_tie_first(cands: Seq<Seq<char>>, k: int)
    requires
        0 <= k < cands.len(),
        has_digit(cands[k]),
        forall|j: int| 0 <= j < cands.len() ==> digit_count(#[trigger] cands[j]) <= digit_count(
            cands[k],
        ),
        forall|j: int| 0 <= j < k ==> digit_count(#[trigger] cands[j]) < digit_count(cands[k]),
    ensures
        spec_best(cands) == cands[k],
{
    lemma_has_digit_iff_count(cands[k]);
    lemma_max_bound(cands);
    lemma_max_achieved(cands);
    assert(max_digit_count(cands) == digit_count(cands[k]));
    lemma_first_with_count_at(cands, digit_count(cands[k]), k);
}

/// On a list with one candidate of strictly greatest digit count (at
/// least one digit), the scorer yields exactly that candidate.
pub proof fn lemma_scorer_unique_maximum(cands: Seq<Seq<char>>, k: int)
    requires
        0 <= k < cands.len(),
        has_digit(cands[k]),
        forall|j: int|
            0 <= j < cands.len() && j != k ==> digit_count(#[trigger] cands[j]) < digit_count(
                cands[k],
            ),
    ensures
        spec_best(cands) == cands[k],
{
    lemma_scorer_tie_first(cands, k);
}

/// Extraction followed by scoring is idempotent: running the pipeline
/// on its own winning token yields that token again.
pub proof fn lemma_extract_then_score_idempotent(s: Seq<char>)
    ensures
        spec_real_captcha(spec_real_captcha(s)) == spec_real_captcha(s),
{
    let cands = spec_captchas(s);
    let r = spec_real_captcha(s);
    if max_digit_count(cands) == 0 {
        assert(r == Seq::<char>::empty());
        assert(captchas_from(r, 0) =~= Seq::<Seq<char>>::empty());
        lemma_scorer_empty();
    } else {
        lemma_max_achieved(cands);
        lemma_first_with_count_in(cands, max_digit_count(cands));
        assert(cands.contains(r));
        let k = choose|k: int| 0 <= k < cands.len() && cands[k] == r;
        lemma_captchas_shape(s, 0);
        assert(token_ok(r));
        assert(forall|l: int| 0 <= l < r.len() ==> is_word_char(#[trigger] r[l]));
        lemma_run_end_is(r, 0, r.len() as int);
        assert(r.subrange(0, r.len() as int) =~= r);
        assert(captchas_from(r, r.len() as int) =~= Seq::<Seq<char>>::empty());
        assert(spec_captchas(r) == seq![r] + Seq::<Seq<char>>::empty());
        assert(spec_captchas(r) =~= seq![r]);
        lemma_has_digit_iff_count(r);
        assert(seq![r][0] == r);
        assert(seq![r].drop_first() =~= Seq::<Seq<char>>::empty());
        assert(max_digit_count(seq![r].drop_first()) == 0);
        assert(max_digit_count(seq![r]) == digit_count(r));
        assert(first_with_count(seq![r], digit_count(r)) == r);
    }
}

/// The whole pipeline on one message: extract the candidate codes, then
/// pick the one with the most decimal digits, ties going to the earliest
/// occurrence. Yields the empty string when no candidate exists.
pub fn get_real_captcha(stdout: &str) -> (r: String)
    ensures
        r@ == spec_real_captcha(stdout@),
{
    let captchas = get_captchas(stdout);
    best_candidate(&captchas)
}

} // verus!
