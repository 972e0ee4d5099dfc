//! Watches a local communication log for newly arrived entries, decides
//! whether an entry is likely to carry a one-time verification code,
//! extracts the most probable code string, and plans its hand-off to a
//! consumer action (clipboard placement, optional paste-and-submit).
//!
//! The crate holds the pure detection-and-extraction pipeline: keyword
//! triggering, candidate extraction, disambiguation among candidates, and
//! the dispatch decision. The surrounding process (watcher loops, clipboard
//! and keystroke I/O, configuration files) lives outside and hands the
//! library plain values.

pub mod config;
pub mod dispatch;
pub mod locale;
pub mod mail;
pub mod pipeline;
pub mod tray;
pub mod watch;

pub use config::MAConfig;
pub use config::default_flags;
pub use locale::get_sys_locale;
pub use pipeline::best_candidate;
pub use pipeline::check_captcha_or_other;
pub use pipeline::first_matching_flag;
pub use pipeline::get_captchas;
pub use pipeline::get_real_captcha;
pub use dispatch::DispatchPlan;
pub use dispatch::DispatchResult;
pub use dispatch::plan_dispatch;
pub use mail::emlx_message;
pub use mail::handle_mail_bytes;
pub use mail::handle_mail_text;
pub use mail::is_new_mail_path;
pub use mail::strip_tmp_marker;
pub use tray::MenuEntry;
pub use tray::MenuSlot;
pub use tray::TrayMenu;
pub use tray::TrayMenuItems;
pub use watch::WatchState;
pub use watch::process_message;
