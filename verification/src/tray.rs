//! A plain model of the tray menu surface: which entries exist, in
//! which order they stand, and how their enabled and checked marks
//! derive from the configuration. The surrounding process turns this
//! model into real menu items.

use vstd::prelude::*;

use crate::config::MAConfig;

verus! {

/// One menu entry: whether it can be chosen and whether it carries a
/// check mark. Entries that carry no check mark keep it false.
#[derive(PartialEq, Eq, Structural, Clone, Copy, Debug)]
pub struct MenuEntry {
    pub enabled: bool,
    pub checked: bool,
}

/// The entries of the tray menu, with their marks derived from the
/// configuration.
pub struct TrayMenuItems {
    pub quit_i: MenuEntry,
    pub check_auto_paste: MenuEntry,
    pub check_auto_return: MenuEntry,
    pub check_hide_icon_for_now: MenuEntry,
    pub check_hide_icon_forever: MenuEntry,
    pub check_launch_at_login: MenuEntry,
    pub add_flag: MenuEntry,
    pub maconfig: MenuEntry,
    pub logs: MenuEntry,
    pub listening_to_mail: MenuEntry,
    pub float_window: MenuEntry,
}

impl TrayMenuItems {
    /// Derives the menu entries from a configuration snapshot: the
    /// toggles show their configured state, and the confirm-keystroke
    /// entry can only be chosen while auto-paste is on.
    pub fn build(config: &MAConfig) -> (t: Self)
        ensures
            t.quit_i == (MenuEntry { enabled: true, checked: false }),
            t.check_auto_paste == (MenuEntry { enabled: true, checked: config.auto_paste }),
            t.check_auto_return == (MenuEntry {
                enabled: config.auto_paste,
                checked: config.auto_return,
            }),
            t.check_hide_icon_for_now == (MenuEntry { enabled: true, checked: false }),
            t.check_hide_icon_forever == (MenuEntry { enabled: true, checked: false }),
            t.check_launch_at_login == (MenuEntry {
                enabled: true,
                checked: config.launch_at_login,
            }),
            t.add_flag == (MenuEntry { enabled: true, checked: false }),
            t.maconfig == (MenuEntry { enabled: true, checked: false }),
            t.logs == (MenuEntry { enabled: true, checked: false }),
            t.listening_to_mail == (MenuEntry {
                enabled: true,
                checked: config.listening_to_mail,
            }),
            t.float_window == (MenuEntry { enabled: true, checked: config.float_window }),
    {
        TrayMenuItems {
            quit_i: MenuEntry { enabled: true, checked: false },
            check_auto_paste: MenuEntry { enabled: true, checked: config.auto_paste },
            check_auto_return: MenuEntry {
                enabled: config.auto_paste,
                checked: config.auto_return,
            },
            check_hide_icon_for_now: MenuEntry { enabled: true, checked: false },
            check_hide_icon_forever: MenuEntry { enabled: true, checked: false },
            check_launch_at_login: MenuEntry { enabled: true, checked: config.launch_at_login },
            add_flag: MenuEntry { enabled: true, checked: false },
            maconfig: MenuEntry { enabled: true, checked: false },
            logs: MenuEntry { enabled: true, checked: false },
            listening_to_mail: MenuEntry { enabled: true, checked: config.listening_to_mail },
            float_window: MenuEntry { enabled: true, checked: config.float_window },
        }
    }
}

/// One slot of the assembled menu, top to bottom.
#[derive(PartialEq, Eq, Structural, Clone, Copy, Debug)]
pub enum MenuSlot {
    AutoPaste,
    AutoReturn,
    Separator,
    HideIconMenu,
    LaunchAtLogin,
    ListeningToMail,
    FloatWindow,
    ConfigFile,
    Logs,
    Quit,
}

/// The fixed arrangement of the tray menu, top to bottom.
pub open spec fn spec_menu_layout() -> Seq<MenuSlot> {
    seq![
        MenuSlot::AutoPaste,
        MenuSlot::AutoReturn,
        MenuSlot::Separator,
        MenuSlot::HideIconMenu,
        MenuSlot::LaunchAtLogin,
        MenuSlot::Separator,
        MenuSlot::ListeningToMail,
        MenuSlot::FloatWindow,
        MenuSlot::Separator,
        MenuSlot::ConfigFile,
        MenuSlot::Logs,
        MenuSlot::Separator,
        MenuSlot::Quit,
    ]
}

/// The assembled tray menu.
pub struct TrayMenu {}

impl TrayMenu {
    /// Lays the entries out in the fixed menu order.
    pub fn build(tray_menu_items: &TrayMenuItems) -> (m: Vec<MenuSlot>)
        ensures
            m@ == spec_menu_layout(),
    {
        let _ = tray_menu_items;
        let mut m: Vec<MenuSlot> = Vec::new();
        m.push(MenuSlot::AutoPaste);
        m.push(MenuSlot::AutoReturn);
        m.push(MenuSlot::Separator);
        m.push(MenuSlot::HideIconMenu);
        m.push(MenuSlot::LaunchAtLogin);
        m.push(MenuSlot::Separator);
        m.push(MenuSlot::ListeningToMail);
        m.push(MenuSlot::FloatWindow);
        m.push(MenuSlot::Separator);
        m.push(MenuSlot::ConfigFile);
        m.push(MenuSlot::Logs);
        m.push(MenuSlot::Separator);
        m.push(MenuSlot::Quit);
        proof {
            assert(m@ =~= spec_menu_layout());
        }
        m
    }
}

} // verus!
