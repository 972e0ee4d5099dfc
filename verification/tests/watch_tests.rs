//! Checks of the watcher decision core, the dispatch planning, and the
//! mail-file handling, including one round trip through the real
//! mail-parsing crates.

use messauto::config::default_flags;
use messauto::locale::language_for_locale;
use messauto::mail::{emlx_message, handle_mail_bytes, handle_mail_text, is_new_mail_path,
    strip_tmp_marker};
use messauto::tray::{MenuSlot, TrayMenu, TrayMenuItems};
use messauto::watch::{process_message, WatchState};
use messauto::MAConfig;

fn config_with(auto_paste: bool, auto_return: bool, float_window: bool, recover: bool) -> MAConfig {
    let mut c = MAConfig::default();
    c.auto_paste = auto_paste;
    c.auto_return = auto_return;
    c.float_window = float_window;
    c.recover_clipboard = recover;
    c
}

#[test]
fn no_keyword_means_no_dispatch() {
    let config = MAConfig::default();
    let r = process_message("your order 123456 has shipped", &config, "imessage");
    assert!(r.is_none());
}

#[test]
fn keyword_without_code_means_no_dispatch() {
    let config = MAConfig::default();
    // The keyword is present but no code-shaped token exists
    let r = process_message("请输入验证码。", &config, "imessage");
    assert!(r.is_none());
}

#[test]
fn dispatch_carries_code_and_label() {
    let config = MAConfig::default();
    let plan = process_message("您的验证码是12345，请勿泄露给他人。", &config, "imessage")
        .expect("a code should be dispatched");
    assert_eq!(plan.result.code, "12345");
    assert_eq!(plan.result.source_label, "imessage");
    assert!(!plan.save_old_clipboard);
    assert!(!plan.hand_to_surface);
    assert!(!plan.simulate_paste);
    assert!(!plan.simulate_submit);
    assert!(!plan.restore_clipboard);
}

#[test]
fn confirmation_surface_replaces_keystrokes() {
    let config = config_with(true, true, true, false);
    let plan = process_message("您的验证码是12345", &config, "mail").unwrap();
    assert!(plan.hand_to_surface);
    assert!(!plan.simulate_paste);
    assert!(!plan.simulate_submit);
    assert!(!plan.restore_clipboard);
}

#[test]
fn auto_paste_and_submit_with_clipboard_recovery() {
    let config = config_with(true, true, false, true);
    let plan = process_message("您的验证码是12345", &config, "mail").unwrap();
    assert!(!plan.hand_to_surface);
    assert!(plan.save_old_clipboard);
    assert!(plan.simulate_paste);
    assert!(plan.simulate_submit);
    assert!(plan.restore_clipboard);
}

#[test]
fn submit_needs_paste() {
    // auto_return set while auto_paste is off plans no keystroke at all
    let config = config_with(false, true, false, true);
    let plan = process_message("您的验证码是12345", &config, "mail").unwrap();
    assert!(!plan.simulate_paste);
    assert!(!plan.simulate_submit);
    assert!(plan.save_old_clipboard);
    // nothing consumed the clipboard, so nothing is restored
    assert!(!plan.restore_clipboard);
}

#[test]
fn watch_state_reports_changes_only() {
    let mut w = WatchState::new(5);
    assert!(!w.observe(5));
    assert!(w.observe(7));
    assert_eq!(w.last_modified, 7);
    assert!(!w.observe(7));
}

#[test]
fn mail_body_over_ceiling_is_skipped() {
    let config = MAConfig::default();
    let mut long = String::from("您的验证码是12345。");
    long.push_str(&"x".repeat(600));
    assert!(long.chars().count() >= 500);
    assert!(handle_mail_text(&long, &config, "mail").is_none());

    let short = "您的验证码是12345。";
    let plan = handle_mail_text(short, &config, "mail").unwrap();
    assert_eq!(plan.result.code, "12345");
}

fn sample_emlx(message: &str) -> Vec<u8> {
    let plist = "<?xml version=\"1.0\" encoding=\"UTF-8\"?>\n<plist version=\"1.0\"><dict><key>flags</key><integer>0</integer></dict></plist>\n";
    let mut raw = format!("{}\n", message.len()).into_bytes();
    raw.extend_from_slice(message.as_bytes());
    raw.extend_from_slice(plist.as_bytes());
    raw
}

#[test]
fn emlx_unwrapping_matches_the_reference_parser() {
    let message = "Subject: code\r\n\r\n您的验证码是12345，请勿泄露给他人。";
    let raw = sample_emlx(message);
    let ours = emlx_message(&raw).expect("well-formed file");
    let theirs = emlx::parse_emlx(&raw).expect("well-formed file");
    assert_eq!(ours.as_slice(), theirs.message);
    assert_eq!(ours.as_slice(), message.as_bytes());
}

#[test]
fn emlx_unwrapping_accepts_padded_count() {
    let message = "Subject: x\r\n\r\nbody";
    let plist = "<plist version=\"1.0\"><dict/></plist>";
    let mut raw = format!("{}   \n", message.len()).into_bytes();
    raw.extend_from_slice(message.as_bytes());
    raw.extend_from_slice(plist.as_bytes());
    assert_eq!(emlx_message(&raw).unwrap().as_slice(), message.as_bytes());
}

#[test]
fn emlx_unwrapping_rejects_malformed_files() {
    // no count line at all
    assert!(emlx_message(&b"hello world".to_vec()).is_none());
    // a zero count
    assert!(emlx_message(&b"0\nrest".to_vec()).is_none());
    // a count reaching past the end
    assert!(emlx_message(&b"100\nshort".to_vec()).is_none());
    // a count so large it cannot be held
    assert!(emlx_message(&b"99999999999999999999999999\nbody".to_vec()).is_none());
    // no metadata behind the message
    assert!(emlx_message(&b"4\nbody".to_vec()).is_none());
    // the empty file
    assert!(emlx_message(&Vec::new()).is_none());
}

#[test]
fn mail_event_end_to_end() {
    let config = MAConfig::default();
    let raw = sample_emlx("Subject: code\r\n\r\n您的验证码是12345，请勿泄露给他人。");
    let plan = handle_mail_bytes(&raw, &config, "mail").expect("code in a short body");
    assert_eq!(plan.result.code, "12345");
    assert_eq!(plan.result.source_label, "mail");

    // the same body above the size ceiling is skipped
    let mut big_body = String::from("Subject: code\r\n\r\n您的验证码是12345。");
    big_body.push_str(&"x".repeat(600));
    let raw = sample_emlx(&big_body);
    assert!(handle_mail_bytes(&raw, &config, "mail").is_none());

    // garbage never aborts the handler
    assert!(handle_mail_bytes(&b"not a mail file".to_vec(), &config, "mail").is_none());
}

#[test]
fn new_mail_paths_are_recognised() {
    assert!(is_new_mail_path(
        "/Users/u/Library/Mail/V10/INBOX.mbox/1F3/Data/Messages/4711.emlx"
    ));
    assert!(is_new_mail_path(
        "/Users/u/Library/Mail/V10/INBOX.mbox/1F3/Data/Messages/4711.emlx.tmp"
    ));
    assert!(!is_new_mail_path(
        "/Users/u/Library/Mail/V10/Sent.mbox/1F3/Data/Messages/4711.emlx"
    ));
    assert!(!is_new_mail_path("/Users/u/Library/Mail/V10/INBOX.mbox/listing.plist"));
}

#[test]
fn tmp_marker_is_stripped() {
    assert_eq!(
        strip_tmp_marker("/Mail/INBOX.mbox/4711.emlx.tmp"),
        "/Mail/INBOX.mbox/4711.emlx"
    );
    assert_eq!(strip_tmp_marker("/Mail/INBOX.mbox/4711.emlx"), "/Mail/INBOX.mbox/4711.emlx");
    assert_eq!(strip_tmp_marker(".tmp.tmp"), "");
    assert_eq!(strip_tmp_marker(""), "");
}

#[test]
fn empty_keyword_set_falls_back_to_the_built_in_one() {
    let mut config = MAConfig::default();
    config.flags = Vec::new();
    config.normalize();
    assert_eq!(config.flags, default_flags());
    assert_eq!(config.flags.len(), 6);

    let mut config = MAConfig::default();
    config.flags = vec!["codigo".to_string()];
    config.normalize();
    assert_eq!(config.flags, vec!["codigo".to_string()]);
}

#[test]
fn default_keywords_are_the_documented_set() {
    let flags = default_flags();
    assert_eq!(
        flags,
        vec![
            "验证码".to_string(),
            "动态密码".to_string(),
            "verification".to_string(),
            "code".to_string(),
            "인증".to_string(),
            "代码".to_string(),
        ]
    );
}

#[test]
fn tray_menu_marks_follow_the_configuration() {
    let config = config_with(true, false, false, false);
    let items = TrayMenuItems::build(&config);
    assert!(items.check_auto_paste.checked);
    assert!(items.check_auto_return.enabled);
    assert!(!items.check_auto_return.checked);
    assert!(!items.listening_to_mail.checked);
    assert!(items.quit_i.enabled);

    let config = MAConfig::default();
    let items = TrayMenuItems::build(&config);
    assert!(!items.check_auto_paste.checked);
    assert!(!items.check_auto_return.enabled);
}

#[test]
fn tray_menu_layout_is_fixed() {
    let config = MAConfig::default();
    let items = TrayMenuItems::build(&config);
    let menu = TrayMenu::build(&items);
    assert_eq!(menu.len(), 13);
    assert_eq!(menu[0], MenuSlot::AutoPaste);
    assert_eq!(menu[1], MenuSlot::AutoReturn);
    assert_eq!(menu[12], MenuSlot::Quit);
}

#[test]
fn locale_maps_to_shipped_languages() {
    assert_eq!(language_for_locale("zh-CN"), "zh-CN");
    assert_eq!(language_for_locale("zh-Hans-CN"), "zh-CN");
    assert_eq!(language_for_locale("zh"), "zh-CN");
    assert_eq!(language_for_locale("en-US"), "en");
    assert_eq!(language_for_locale("fr-FR"), "en");
    assert_eq!(language_for_locale("z"), "en");
    assert_eq!(language_for_locale(""), "en");
}
