//! The application's menus and the decisions behind menu, tray and shortcut
//! events.
use vstd::prelude::*;

use crate::settings::folder_label_of;
use crate::settings::folder_of;
use crate::settings::DownloadSettings;
use crate::text::chars_of;
use crate::text::same_chars;
use crate::text::string_from_chars;

verus! {

/// Menu id of the "Start with System" check item.
pub const MENU_AUTOSTART_TOGGLE_ID: &'static str = "menu_autostart_toggle";

/// Menu id of the "Handle WhatsApp Links" check item.
pub const MENU_DEEP_LINK_TOGGLE_ID: &'static str = "menu_deep_link_toggle";

/// Menu id of the "Always Ask Where to Save Files" check item.
pub const MENU_DOWNLOAD_ASK_TOGGLE_ID: &'static str = "menu_download_ask_toggle";

/// Menu id of the "Select Custom Download Folder..." item.
pub const MENU_DOWNLOAD_FOLDER_PICK_ID: &'static str = "menu_download_folder_pick";

/// Menu id of the item that shows the download folder and resets it.
pub const MENU_DOWNLOAD_FOLDER_RESET_ID: &'static str = "menu_download_folder_reset";

/// What a click on an item of the application menu asks for.
#[derive(Clone, Copy, Debug, PartialEq, Eq)]
pub enum MenuAction {
    ToggleAutostart,
    ToggleDeepLink,
    ToggleDownloadAsk,
    PickDownloadFolder,
    ResetDownloadFolder,
    /// An item with no action of its own (such as those of the Help menu).
    Ignore,
}

/// The action of the application-menu item with id `id`.
pub open spec fn menu_action_of(id: Seq<char>) -> MenuAction {
    if id == MENU_AUTOSTART_TOGGLE_ID@ {
        MenuAction::ToggleAutostart
    } else if id == MENU_DEEP_LINK_TOGGLE_ID@ {
        MenuAction::ToggleDeepLink
    } else if id == MENU_DOWNLOAD_ASK_TOGGLE_ID@ {
        MenuAction::ToggleDownloadAsk
    } else if id == MENU_DOWNLOAD_FOLDER_PICK_ID@ {
        MenuAction::PickDownloadFolder
    } else if id == MENU_DOWNLOAD_FOLDER_RESET_ID@ {
        MenuAction::ResetDownloadFolder
    } else {
        MenuAction::Ignore
    }
}

/// The action that a click on the application-menu item `id` asks for.
pub fn menu_action(id: &str) -> (r: MenuAction)
    ensures
        r == menu_action_of(id@),
{
    let s = chars_of(id);
    if same_chars(&s, &chars_of(MENU_AUTOSTART_TOGGLE_ID)) {
        MenuAction::ToggleAutostart
    } else if same_chars(&s, &chars_of(MENU_DEEP_LINK_TOGGLE_ID)) {
        MenuAction::ToggleDeepLink
    } else if same_chars(&s, &chars_of(MENU_DOWNLOAD_ASK_TOGGLE_ID)) {
        MenuAction::ToggleDownloadAsk
    } else if same_chars(&s, &chars_of(MENU_DOWNLOAD_FOLDER_PICK_ID)) {
        MenuAction::PickDownloadFolder
    } else if same_chars(&s, &chars_of(MENU_DOWNLOAD_FOLDER_RESET_ID)) {
        MenuAction::ResetDownloadFolder
    } else {
        MenuAction::Ignore
    }
}

/// The kind of an entry of a menu.
#[derive(Clone, Copy, Debug, PartialEq, Eq)]
pub enum EntryKind {
    /// A check item, checked or not.
    Check(bool),
    /// A plain item.
    Plain,
    /// A separator line.
    Separator,
}

/// One entry of a menu: its kind, id and label (both empty for a separator).
#[derive(Clone, Debug)]
pub struct MenuEntry {
    pub kind: EntryKind,
    pub id: String,
    pub label: String,
}

/// `e` is the entry of kind `kind` with id `id` and label `label`.
pub open spec fn entry_is(e: MenuEntry, kind: EntryKind, id: Seq<char>, label: Seq<char>) -> bool {
    &&& e.kind == kind
    &&& e.id@ == id
    &&& e.label@ == label
}

fn entry(kind: EntryKind, id: &str, label: &str) -> (e: MenuEntry)
    ensures
        entry_is(e, kind, id@, label@),
{
    MenuEntry {
        kind,
        id: string_from_chars(&chars_of(id)),
        label: string_from_chars(&chars_of(label)),
    }
}

/// The entries of the Settings menu, in order: the two check items for
/// starting with the system and handling links, a separator, the check item
/// for asking on every download, the item that picks a folder, and the item
/// that shows the download folder and resets it.
pub fn settings_menu_entries(autostart: bool, deep_link: bool, settings: &DownloadSettings) -> (r:
    Vec<MenuEntry>)
    ensures
        r@.len() == 6,
        entry_is(
            r@[0],
            EntryKind::Check(autostart),
            MENU_AUTOSTART_TOGGLE_ID@,
            "Start with System"@,
        ),
        entry_is(
            r@[1],
            EntryKind::Check(deep_link),
            MENU_DEEP_LINK_TOGGLE_ID@,
            "Handle WhatsApp Links"@,
        ),
        entry_is(r@[2], EntryKind::Separator, Seq::empty(), Seq::empty()),
        entry_is(
            r@[3],
            EntryKind::Check(settings.ask_every_time),
            MENU_DOWNLOAD_ASK_TOGGLE_ID@,
            "Always Ask Where to Save Files"@,
        ),
        entry_is(
            r@[4],
            EntryKind::Plain,
            MENU_DOWNLOAD_FOLDER_PICK_ID@,
            "Select Custom Download Folder..."@,
        ),
        entry_is(
            r@[5],
            EntryKind::Plain,
            MENU_DOWNLOAD_FOLDER_RESET_ID@,
            folder_label_of(folder_of(*settings)),
        ),
{
    let mut r: Vec<MenuEntry> = Vec::new();
    r.push(entry(EntryKind::Check(autostart), MENU_AUTOSTART_TOGGLE_ID, "Start with System"));
    r.push(entry(EntryKind::Check(deep_link), MENU_DEEP_LINK_TOGGLE_ID, "Handle WhatsApp Links"));
    r.push(MenuEntry { kind: EntryKind::Separator, id: String::new(), label: String::new() });
    r.push(
        entry(
            EntryKind::Check(settings.ask_every_time),
            MENU_DOWNLOAD_ASK_TOGGLE_ID,
            "Always Ask Where to Save Files",
        ),
    );
    r.push(entry(EntryKind::Plain, MENU_DOWNLOAD_FOLDER_PICK_ID, "Select Custom Download Folder..."));
    let label = settings.folder_label();
    r.push(
        MenuEntry {
            kind: EntryKind::Plain,
            id: string_from_chars(&chars_of(MENU_DOWNLOAD_FOLDER_RESET_ID)),
            label,
        },
    );
    r
}

/// What a click on an item of the tray menu asks for.
#[derive(Clone, Copy, Debug, PartialEq, Eq)]
pub enum TrayAction {
    /// Show the main window and bring it to the front.
    ShowWindow,
    /// Leave the application.
    Quit,
    /// Nothing.
    Ignore,
}

/// The action of the tray-menu item `id`: `open` shows the window, `quit`
/// leaves the application, anything else does nothing.
pub fn tray_menu_action(id: &str) -> (r: TrayAction)
    ensures
        r == (if id@ == "open"@ {
            TrayAction::ShowWindow
        } else if id@ == "quit"@ {
            TrayAction::Quit
        } else {
            TrayAction::Ignore
        }),
{
    let s = chars_of(id);
    if same_chars(&s, &chars_of("open")) {
        TrayAction::ShowWindow
    } else if same_chars(&s, &chars_of("quit")) {
        TrayAction::Quit
    } else {
        TrayAction::Ignore
    }
}

/// Whether an event on the tray icon shows the main window: a click or a
/// double click with the left mouse button does.
pub fn tray_icon_shows_window(is_click_or_double_click: bool, is_left_button: bool) -> (r: bool)
    ensures
        r == (is_click_or_double_click && is_left_button),
{
    is_click_or_double_click && is_left_button
}

/// What the global shortcut does to the main window.
#[derive(Clone, Copy, Debug, PartialEq, Eq)]
pub enum WindowAction {
    Hide,
    ShowAndFocus,
    Nothing,
}

/// The effect of a global-shortcut event: a press of Ctrl+Alt+W hides a
/// visible window and shows and focuses a hidden one; anything else does nothing.
pub fn shortcut_window_action(pressed: bool, is_toggle_shortcut: bool, window_visible: bool) -> (r:
    WindowAction)
    ensures
        r == (if pressed && is_toggle_shortcut {
            if window_visible {
                WindowAction::Hide
            } else {
                WindowAction::ShowAndFocus
            }
        } else {
            WindowAction::Nothing
        }),
{
    if pressed && is_toggle_shortcut {
        if window_visible {
            WindowAction::Hide
        } else {
            WindowAction::ShowAndFocus
        }
    } else {
        WindowAction::Nothing
    }
}

} // verus!
