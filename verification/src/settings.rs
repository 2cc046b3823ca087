//! The user's settings: where downloads go, whether to ask every time, and
//! whether WhatsApp links are handled; the stored form of the link flag; and
//! the decisions that the settings drive.
use vstd::prelude::*;

use crate::text::append_chars;
use crate::text::chars_of;
use crate::text::lemma_trim_unchanged;
use crate::text::same_chars;
use crate::text::string_from_chars;
use crate::text::trim_exec;
use crate::text::trim_white_space;
use crate::text::is_white_space;
use crate::text::TrimClass;

verus! {

/// Where downloads are saved, and whether the user is asked every time.
#[derive(Clone, Debug)]
pub struct DownloadSettings {
    /// A folder chosen by the user; `None` means the system's downloads folder.
    pub download_path: Option<String>,
    /// Ask for a destination on every download.
    pub ask_every_time: bool,
}

impl Default for DownloadSettings {
    /// No custom folder, and no asking.
    fn default() -> (r: Self)
        ensures
            r.download_path is None,
            !r.ask_every_time,
    {
        DownloadSettings { download_path: None, ask_every_time: false }
    }
}

/// The folder as characters, `None` for the system's downloads folder.
pub open spec fn folder_of(s: DownloadSettings) -> Option<Seq<char>> {
    match s.download_path {
        Some(p) => Some(p@),
        None => None,
    }
}

/// The label of the menu item that shows the download folder and resets it.
pub open spec fn folder_label_of(folder: Option<Seq<char>>) -> Seq<char> {
    match folder {
        Some(p) => "Folder: "@ + p,
        None => "Folder: System Downloads (Default)"@,
    }
}

/// The value of the link-handling flag, given what its file holds (`None`
/// when the file is missing or unreadable): on unless the file holds `true`
/// surrounded by nothing but white space.
pub open spec fn deep_link_flag(stored: Option<Seq<char>>) -> bool {
    match stored {
        Some(content) => trim_white_space(content) == "true"@,
        None => true,
    }
}

/// What the link-handling flag's file holds for a value.
pub open spec fn deep_link_flag_content(enabled: bool) -> Seq<char> {
    if enabled {
        "true"@
    } else {
        "false"@
    }
}

impl DownloadSettings {
    /// Flips whether the user is asked for a destination on every download.
    pub fn toggle_ask_every_time(&mut self)
        ensures
            final(self).ask_every_time == !old(self).ask_every_time,
            final(self).download_path == old(self).download_path,
    {
        self.ask_every_time = !self.ask_every_time;
    }

    /// Saves downloads in `path` from now on.
    pub fn set_download_path(&mut self, path: String)
        ensures
            final(self).download_path == Some(path),
            final(self).ask_every_time == old(self).ask_every_time,
    {
        self.download_path = Some(path);
    }

    /// Goes back to the system's downloads folder.
    pub fn reset_download_path(&mut self)
        ensures
            final(self).download_path is None,
            final(self).ask_every_time == old(self).ask_every_time,
    {
        self.download_path = None;
    }

    /// The label of the menu item for the download folder:
    /// `Folder: <path>` or `Folder: System Downloads (Default)`.
    pub fn folder_label(&self) -> (r: String)
        ensures
            r@ == folder_label_of(folder_of(*self)),
    {
        match &self.download_path {
            Some(path) => {
                let mut out = chars_of("Folder: ");
                append_chars(&mut out, &chars_of(path.as_str()));
                string_from_chars(&out)
            },
            None => string_from_chars(&chars_of("Folder: System Downloads (Default)")),
        }
    }
}

/// Whether WhatsApp links are handled, given what the flag's file holds
/// (`None` when it is missing or cannot be read).
pub fn parse_deep_link_enabled(stored: Option<&str>) -> (r: bool)
    ensures
        r == deep_link_flag(
            match stored {
                Some(c) => Some(c@),
                None => None,
            },
        ),
{
    match stored {
        Some(content) => {
            let trimmed = trim_exec(&chars_of(content), TrimClass::WhiteSpace);
            same_chars(&trimmed, &chars_of("true"))
        },
        None => true,
    }
}

/// What the flag's file is written with for `enabled`.
pub fn deep_link_flag_text(enabled: bool) -> (r: &'static str)
    ensures
        r@ == deep_link_flag_content(enabled),
{
    if enabled {
        "true"
    } else {
        "false"
    }
}

/// Where a requested download is saved.
#[derive(Clone, Copy, Debug, PartialEq, Eq)]
pub enum DownloadTarget {
    /// Ask the user with a save dialog.
    AskUser,
    /// A free name in the user's chosen folder.
    CustomFolder,
    /// A free name in the system's downloads folder.
    SystemDownloads,
    /// Leave the web view's own destination.
    Unchanged,
}

/// The place a requested download goes: the save dialog when the user asked
/// for it; else the chosen folder when there is one and it exists; else the
/// system's downloads folder when it is known; else the web view's choice.
pub fn download_target(
    settings: &DownloadSettings,
    custom_folder_exists: bool,
    system_downloads_known: bool,
) -> (r: DownloadTarget)
    ensures
        r == (if settings.ask_every_time {
            DownloadTarget::AskUser
        } else if settings.download_path is Some && custom_folder_exists {
            DownloadTarget::CustomFolder
        } else if system_downloads_known {
            DownloadTarget::SystemDownloads
        } else {
            DownloadTarget::Unchanged
        }),
{
    if settings.ask_every_time {
        DownloadTarget::AskUser
    } else if settings.download_path.is_some() && custom_folder_exists {
        DownloadTarget::CustomFolder
    } else if system_downloads_known {
        DownloadTarget::SystemDownloads
    } else {
        DownloadTarget::Unchanged
    }
}

/// The name that a download is suggested under when the web view gives none.
pub fn requested_file_name(name: Option<&str>) -> (r: String)
    ensures
        r@ == match name {
            Some(n) => n@,
            None => "download"@,
        },
{
    match name {
        Some(n) => string_from_chars(&chars_of(n)),
        None => string_from_chars(&chars_of("download")),
    }
}

/// The text of the notice shown when a download has finished:
/// `<file name>: salvo em <path>`, with `File` when the file name is unknown.
pub fn download_notice(file_name: Option<&str>, path: &str) -> (r: String)
    ensures
        r@ == match file_name {
            Some(n) => n@,
            None => "File"@,
        } + ": salvo em "@ + path@,
{
    let mut out = match file_name {
        Some(n) => chars_of(n),
        None => chars_of("File"),
    };
    append_chars(&mut out, &chars_of(": salvo em "));
    append_chars(&mut out, &chars_of(path));
    string_from_chars(&out)
}

// ---------------------------------------------------------------------------
// Laws
// ---------------------------------------------------------------------------

/// Reading back the flag file written for a value gives that value.
pub proof fn lemma_deep_link_flag_roundtrip(enabled: bool)
    ensures
        deep_link_flag(Some(deep_link_flag_content(enabled))) == enabled,
{
    reveal_strlit("true");
    reveal_strlit("false");
    let t = "true"@;
    let f = "false"@;
    assert(!is_white_space(t[0]) && !is_white_space(t.last()));
    assert(!is_white_space(f[0]) && !is_white_space(f.last()));
    lemma_trim_unchanged(t, TrimClass::WhiteSpace);
    lemma_trim_unchanged(f, TrimClass::WhiteSpace);
    assert(t.len() != f.len());
}

/// A missing flag file means that links are handled.
pub proof fn lemma_deep_link_flag_default()
    ensures
        deep_link_flag(None),
{
}

/// After a reset the folder item reads `Folder: System Downloads (Default)`,
/// and after choosing a folder it names that folder.
pub proof fn lemma_folder_label_follows_path(s: DownloadSettings, path: String)
    ensures
        folder_label_of(folder_of((DownloadSettings { download_path: None, ..s })))
            == "Folder: System Downloads (Default)"@,
        folder_label_of(folder_of((DownloadSettings { download_path: Some(path), ..s })))
            == "Folder: "@ + path@,
{
}

} // verus!
