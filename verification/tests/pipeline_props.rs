//! Concrete checks of the pipeline's stated behaviour: trigger
//! matching, token shape, scoring order, and the idempotent round trip.

use messauto::{best_candidate, check_captcha_or_other, get_captchas, get_real_captcha};

fn kw(flags: &[&str]) -> Vec<String> {
    flags.iter().map(|f| f.to_string()).collect()
}

#[test]
fn trigger_true_with_keyword_false_without() {
    let flags = kw(&["code", "验证码"]);
    assert!(check_captcha_or_other("your code is 123456", &flags));
    assert!(check_captcha_or_other("您的验证码是12345", &flags));
    assert!(!check_captcha_or_other("your order has shipped", &flags));
    assert!(!check_captcha_or_other("", &flags));
    // Matching is case-sensitive and literal
    assert!(!check_captcha_or_other("your CODE is 123456", &flags));
}

#[test]
fn extracted_tokens_are_code_shaped() {
    let texts = [
        "a 1 ab2 abc3 x9999 longrun123 toolongrun12 ok",
        "[s1mple] your code is 123456",
        "【Microsoft】将 12345X 初始化Microsoft账户安全代码",
        "edge a1b2c3d4 full9999 and 123456789 over",
    ];
    for text in texts {
        for token in get_captchas(text) {
            let n = token.chars().count();
            assert!(n >= 4 && n <= 8, "token {} out of range", token);
            assert!(
                token.chars().any(|c| c.is_ascii_digit()),
                "token {} has no digit",
                token
            );
        }
    }
}

#[test]
fn extraction_boundaries() {
    // Exactly 4 and exactly 8 characters pass; 3 and 9 do not
    assert_eq!(get_captchas("abc1"), vec!["abc1".to_string()]);
    assert_eq!(get_captchas("abcdefg1"), vec!["abcdefg1".to_string()]);
    assert_eq!(get_captchas("ab1"), Vec::<String>::new());
    assert_eq!(get_captchas("abcdefgh1"), Vec::<String>::new());
    // A run without any digit is discarded even at a fitting length
    assert_eq!(get_captchas("abcdef"), Vec::<String>::new());
    // Duplicates are kept at each occurrence
    assert_eq!(
        get_captchas("1234 then 1234"),
        vec!["1234".to_string(), "1234".to_string()]
    );
}

#[test]
fn scorer_empty_list_yields_empty_string() {
    assert_eq!(best_candidate(&Vec::new()), "");
}

#[test]
fn scorer_unique_maximum_wins() {
    let cands = kw(&["a1b2", "123456", "ab12"]);
    assert_eq!(best_candidate(&cands), "123456");
}

#[test]
fn scorer_tie_goes_to_first() {
    let cands = kw(&["12ab", "34cd", "56ef"]);
    assert_eq!(best_candidate(&cands), "12ab");
    let cands = kw(&["a1b2c3", "112233", "445566"]);
    assert_eq!(best_candidate(&cands), "112233");
}

#[test]
fn scorer_without_any_digit_yields_empty_string() {
    // No candidate holds a digit, so none is ever chosen
    let cands = kw(&["abcd", "efgh"]);
    assert_eq!(best_candidate(&cands), "");
}

#[test]
fn extract_then_score_is_idempotent() {
    let texts = [
        "[s1mple] your code is 123456",
        "您的验证码是12345，请勿泄露给他人。",
        "nothing here",
        "",
    ];
    for text in texts {
        let once = get_real_captcha(text);
        let again = get_real_captcha(text);
        assert_eq!(once, again);
        assert_eq!(get_real_captcha(&once), once);
    }
}

#[test]
fn scenario_plain_chinese_notification() {
    let text = "您的验证码是12345，请勿泄露给他人。";
    assert_eq!(get_captchas(text), vec!["12345".to_string()]);
    assert_eq!(get_real_captcha(text), "12345");
}

#[test]
fn scenario_keyword_and_code_in_brand_text() {
    let text = "【APPLE】Apple ID代码为：724818。请勿与他人共享。";
    let flags = kw(&["代码"]);
    assert!(check_captcha_or_other(text, &flags));
    assert_eq!(get_real_captcha(text), "724818");
}

#[test]
fn scenario_digit_count_beats_position() {
    let text = "[s1mple] your code is 123456";
    let flags = kw(&["code"]);
    assert!(check_captcha_or_other(text, &flags));
    assert_eq!(
        get_captchas(text),
        vec!["s1mple".to_string(), "123456".to_string()]
    );
    // digit counts 1 against 6
    assert_eq!(get_real_captcha(text), "123456");
}
