use whatsapp_lite::menu::menu_action;
use whatsapp_lite::menu::settings_menu_entries;
use whatsapp_lite::menu::shortcut_window_action;
use whatsapp_lite::menu::tray_icon_shows_window;
use whatsapp_lite::menu::tray_menu_action;
use whatsapp_lite::menu::EntryKind;
use whatsapp_lite::menu::MenuAction;
use whatsapp_lite::menu::TrayAction;
use whatsapp_lite::menu::WindowAction;
use whatsapp_lite::menu::MENU_AUTOSTART_TOGGLE_ID;
use whatsapp_lite::menu::MENU_DEEP_LINK_TOGGLE_ID;
use whatsapp_lite::menu::MENU_DOWNLOAD_ASK_TOGGLE_ID;
use whatsapp_lite::menu::MENU_DOWNLOAD_FOLDER_PICK_ID;
use whatsapp_lite::menu::MENU_DOWNLOAD_FOLDER_RESET_ID;
use whatsapp_lite::settings::deep_link_flag_text;
use whatsapp_lite::settings::download_notice;
use whatsapp_lite::settings::download_target;
use whatsapp_lite::settings::parse_deep_link_enabled;
use whatsapp_lite::settings::requested_file_name;
use whatsapp_lite::settings::DownloadSettings;
use whatsapp_lite::settings::DownloadTarget;

#[test]
fn default_settings() {
    let s = DownloadSettings::default();
    assert_eq!(s.download_path, None);
    assert!(!s.ask_every_time);
    assert_eq!(s.folder_label(), "Folder: System Downloads (Default)");
}

#[test]
fn toggle_ask_twice_restores() {
    let mut s = DownloadSettings { download_path: Some("/tmp/d".to_string()), ask_every_time: false };
    s.toggle_ask_every_time();
    assert!(s.ask_every_time);
    assert_eq!(s.download_path.as_deref(), Some("/tmp/d"));
    s.toggle_ask_every_time();
    assert!(!s.ask_every_time);
}

#[test]
fn choose_and_reset_folder() {
    let mut s = DownloadSettings::default();
    s.set_download_path("/home/me/Downloads/WhatsApp".to_string());
    assert_eq!(s.folder_label(), "Folder: /home/me/Downloads/WhatsApp");
    s.reset_download_path();
    assert_eq!(s.download_path, None);
    assert_eq!(s.folder_label(), "Folder: System Downloads (Default)");
}

#[test]
fn deep_link_flag_reading() {
    assert!(parse_deep_link_enabled(None));
    assert!(parse_deep_link_enabled(Some("true")));
    assert!(parse_deep_link_enabled(Some("  true\n")));
    assert!(!parse_deep_link_enabled(Some("false")));
    assert!(!parse_deep_link_enabled(Some("TRUE")));
    assert!(!parse_deep_link_enabled(Some("")));
    assert!(!parse_deep_link_enabled(Some("true true")));
}

#[test]
fn deep_link_flag_roundtrip() {
    for enabled in [true, false] {
        assert_eq!(parse_deep_link_enabled(Some(deep_link_flag_text(enabled))), enabled);
    }
    assert_eq!(deep_link_flag_text(true), "true");
    assert_eq!(deep_link_flag_text(false), "false");
}

#[test]
fn download_targets() {
    let ask = DownloadSettings { download_path: Some("/x".to_string()), ask_every_time: true };
    assert_eq!(download_target(&ask, true, true), DownloadTarget::AskUser);
    let custom = DownloadSettings { download_path: Some("/x".to_string()), ask_every_time: false };
    assert_eq!(download_target(&custom, true, true), DownloadTarget::CustomFolder);
    assert_eq!(download_target(&custom, false, true), DownloadTarget::SystemDownloads);
    assert_eq!(download_target(&custom, false, false), DownloadTarget::Unchanged);
    let plain = DownloadSettings::default();
    assert_eq!(download_target(&plain, true, true), DownloadTarget::SystemDownloads);
    assert_eq!(download_target(&plain, false, false), DownloadTarget::Unchanged);
}

#[test]
fn download_names_and_notice() {
    assert_eq!(requested_file_name(Some("a.pdf")), "a.pdf");
    assert_eq!(requested_file_name(None), "download");
    assert_eq!(download_notice(Some("a.pdf"), "/d/a.pdf"), "a.pdf: salvo em /d/a.pdf");
    assert_eq!(download_notice(None, "/d/x"), "File: salvo em /d/x");
}

#[test]
fn menu_actions() {
    assert_eq!(menu_action(MENU_AUTOSTART_TOGGLE_ID), MenuAction::ToggleAutostart);
    assert_eq!(menu_action("menu_deep_link_toggle"), MenuAction::ToggleDeepLink);
    assert_eq!(menu_action(MENU_DOWNLOAD_ASK_TOGGLE_ID), MenuAction::ToggleDownloadAsk);
    assert_eq!(menu_action(MENU_DOWNLOAD_FOLDER_PICK_ID), MenuAction::PickDownloadFolder);
    assert_eq!(menu_action(MENU_DOWNLOAD_FOLDER_RESET_ID), MenuAction::ResetDownloadFolder);
    assert_eq!(menu_action("about"), MenuAction::Ignore);
    assert_eq!(menu_action(""), MenuAction::Ignore);
}

#[test]
fn settings_menu() {
    let s = DownloadSettings { download_path: Some("/dl".to_string()), ask_every_time: true };
    let entries = settings_menu_entries(true, false, &s);
    assert_eq!(entries.len(), 6);
    assert_eq!(entries[0].kind, EntryKind::Check(true));
    assert_eq!(entries[0].id, MENU_AUTOSTART_TOGGLE_ID);
    assert_eq!(entries[0].label, "Start with System");
    assert_eq!(entries[1].kind, EntryKind::Check(false));
    assert_eq!(entries[1].id, MENU_DEEP_LINK_TOGGLE_ID);
    assert_eq!(entries[1].label, "Handle WhatsApp Links");
    assert_eq!(entries[2].kind, EntryKind::Separator);
    assert_eq!(entries[3].kind, EntryKind::Check(true));
    assert_eq!(entries[3].label, "Always Ask Where to Save Files");
    assert_eq!(entries[4].kind, EntryKind::Plain);
    assert_eq!(entries[4].label, "Select Custom Download Folder...");
    assert_eq!(entries[5].id, MENU_DOWNLOAD_FOLDER_RESET_ID);
    assert_eq!(entries[5].label, "Folder: /dl");
}

#[test]
fn tray_actions() {
    assert_eq!(tray_menu_action("open"), TrayAction::ShowWindow);
    assert_eq!(tray_menu_action("quit"), TrayAction::Quit);
    assert_eq!(tray_menu_action("other"), TrayAction::Ignore);
}

#[test]
fn tray_icon_clicks() {
    assert!(tray_icon_shows_window(true, true));
    assert!(!tray_icon_shows_window(true, false));
    assert!(!tray_icon_shows_window(false, true));
}

#[test]
fn shortcut_actions() {
    assert_eq!(shortcut_window_action(true, true, true), WindowAction::Hide);
    assert_eq!(shortcut_window_action(true, true, false), WindowAction::ShowAndFocus);
    assert_eq!(shortcut_window_action(false, true, true), WindowAction::Nothing);
    assert_eq!(shortcut_window_action(true, false, false), WindowAction::Nothing);
}
