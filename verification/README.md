# whatsapp_lite

The logic of a small WhatsApp Web desktop client, as a Verus library with
proved contracts, and the desktop shell around it.

- `src/text.rs`: character-sequence search, trimming and string building.
- `src/links.rs`: `whatsapp://` links and invitations to WhatsApp Web addresses, internal
  addresses by host, link arguments, the navigation script.
- `src/files.rs`: cleaning download names and the sequence of free-name
  candidates (`name`, `stem (1).ext`, ...), with the step that picks one.
- `src/settings.rs`: download settings, the link-handling flag file, where a
  download goes, the finished-download notice.
- `src/menu.rs`: menu ids, the Settings menu, menu/tray/shortcut decisions.
- `app/`: the Tauri program (windows, menus, tray, files on disk, JSON).
