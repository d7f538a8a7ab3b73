//! Tray icon menu. Without it there is no way to quit the process, so the menu is
//! not a convenience feature: it is the exit.

use vstd::prelude::*;

use crate::menu;
use crate::menu::MenuItem;
use crate::messages;
use crate::win;

verus! {

pub const TIP: &'static str = "ClipPlus — Win+Alt+V 打开历史";

pub const CMD_OPEN_FOLDER: i32 = 1;

pub const CMD_SETTINGS: i32 = 2;

pub const CMD_AUTOSTART: i32 = 3;

pub const CMD_QUIT: i32 = 4;

pub const CMD_OPEN_SETTINGS_FILE: i32 = 5;

/// What the tray icon reports to the hidden window with.
pub const CALLBACK_MESSAGE: u32 = messages::WM_APP + 1;

pub const WM_LBUTTONUP: usize = 0x0202;

pub const WM_RBUTTONUP: usize = 0x0205;

#[derive(Clone, Copy, Debug, PartialEq, Eq, Structural)]
pub enum TrayAction {
    Nothing,
    TogglePopup,
    ShowMenu,
    OpenSyncFolder,
    OpenSettings,
    OpenSettingsFolder,
    ToggleAutostart,
    Quit,
}

/// The low word of `lparam` is the mouse message that triggered the callback.
pub open spec fn callback_action(lparam: usize) -> TrayAction {
    if win::low_word(lparam) == WM_LBUTTONUP {
        TrayAction::TogglePopup
    } else if win::low_word(lparam) == WM_RBUTTONUP {
        TrayAction::ShowMenu
    } else {
        TrayAction::Nothing
    }
}

pub fn handle_callback(lparam: usize) -> (r: TrayAction)
    ensures
        r == callback_action(lparam),
{
    let message: usize = lparam % 0x1_0000;
    if message == WM_LBUTTONUP {
        TrayAction::TogglePopup
    } else if message == WM_RBUTTONUP {
        TrayAction::ShowMenu
    } else {
        TrayAction::Nothing
    }
}

pub open spec fn tray_entries(autostart: bool) -> Seq<menu::MenuView> {
    seq![
        menu::entry(CMD_OPEN_FOLDER, "打开同步目录"@),
        menu::entry(CMD_SETTINGS, "设置…"@),
        menu::entry(CMD_OPEN_SETTINGS_FILE, "打开设置文件"@),
        menu::line(),
        menu::ticked(CMD_AUTOSTART, "开机自启"@, autostart),
        menu::line(),
        menu::entry(CMD_QUIT, "退出"@),
    ]
}

/// The menu, with a tick at autostart while it is on.
pub fn show_menu(autostart: bool) -> (r: Vec<MenuItem>)
    ensures
        menu::menu_views(r@) == tray_entries(autostart),
{
    let mut r: Vec<MenuItem> = Vec::new();
    r.push(menu::item(CMD_OPEN_FOLDER, "打开同步目录"));
    r.push(menu::item(CMD_SETTINGS, "设置…"));
    r.push(menu::item(CMD_OPEN_SETTINGS_FILE, "打开设置文件"));
    r.push(menu::separator());
    r.push(menu::tick(CMD_AUTOSTART, "开机自启", autostart));
    r.push(menu::separator());
    r.push(menu::item(CMD_QUIT, "退出"));
    assert(menu::menu_views(r@) =~= tray_entries(autostart));
    r
}

/// What a choice from the menu does. Zero is a menu dismissed without one.
pub open spec fn command_action(command: i32) -> TrayAction {
    if command == CMD_OPEN_FOLDER {
        TrayAction::OpenSyncFolder
    } else if command == CMD_SETTINGS {
        TrayAction::OpenSettings
    } else if command == CMD_OPEN_SETTINGS_FILE {
        TrayAction::OpenSettingsFolder
    } else if command == CMD_AUTOSTART {
        TrayAction::ToggleAutostart
    } else if command == CMD_QUIT {
        TrayAction::Quit
    } else {
        TrayAction::Nothing
    }
}

pub fn handle_command(command: i32) -> (r: TrayAction)
    ensures
        r == command_action(command),
{
    if command == CMD_OPEN_FOLDER {
        TrayAction::OpenSyncFolder
    } else if command == CMD_SETTINGS {
        TrayAction::OpenSettings
    } else if command == CMD_OPEN_SETTINGS_FILE {
        TrayAction::OpenSettingsFolder
    } else if command == CMD_AUTOSTART {
        TrayAction::ToggleAutostart
    } else if command == CMD_QUIT {
        TrayAction::Quit
    } else {
        TrayAction::Nothing
    }
}

/// No entry of the menu is dead: every one but the lines does something, and no two
/// do the same.
pub proof fn law_every_entry_acts(autostart: bool, i: int, j: int)
    requires
        0 <= i < j < tray_entries(autostart).len(),
        tray_entries(autostart)[i].id != 0,
        tray_entries(autostart)[j].id != 0,
    ensures
        command_action(tray_entries(autostart)[i].id) != TrayAction::Nothing,
        command_action(tray_entries(autostart)[i].id) != command_action(
            tray_entries(autostart)[j].id,
        ),
{
}

/// Every entry does what its label says.
pub proof fn law_entries_do_what_they_say(autostart: bool, i: int)
    requires
        0 <= i < tray_entries(autostart).len(),
    ensures
        ({
            let entry = tray_entries(autostart)[i];
            let action = command_action(entry.id);
            &&& entry.label == "打开同步目录"@ <==> action == TrayAction::OpenSyncFolder
            &&& entry.label == "设置…"@ <==> action == TrayAction::OpenSettings
            &&& entry.label == "打开设置文件"@ <==> action == TrayAction::OpenSettingsFolder
            &&& entry.label == "开机自启"@ <==> action == TrayAction::ToggleAutostart
            &&& entry.label == "退出"@ <==> action == TrayAction::Quit
            &&& entry.label.len() == 0 <==> action == TrayAction::Nothing
            &&& entry.checked <==> autostart && action == TrayAction::ToggleAutostart
        }),
{
    reveal_strlit("打开同步目录");
    reveal_strlit("设置…");
    reveal_strlit("打开设置文件");
    reveal_strlit("开机自启");
    reveal_strlit("退出");
    reveal_strlit("");
    assert("打开同步目录"@.len() == 6 && "打开同步目录"@[2] == '同');
    assert("打开设置文件"@.len() == 6 && "打开设置文件"@[2] == '设');
    assert("设置…"@.len() == 3);
    assert("开机自启"@.len() == 4);
    assert("退出"@.len() == 2);
}

/// Letting the left button go over the icon shows or hides the popup, letting the right
/// one go opens the menu, and nothing else does anything.
pub proof fn law_clicks_on_the_icon(lparam: usize)
    ensures
        callback_action(lparam) == TrayAction::TogglePopup <==> lparam as int % 65_536 == 514,
        callback_action(lparam) == TrayAction::ShowMenu <==> lparam as int % 65_536 == 517,
        callback_action(lparam) == TrayAction::TogglePopup || callback_action(lparam)
            == TrayAction::ShowMenu || callback_action(lparam) == TrayAction::Nothing,
{
}

} // verus!
