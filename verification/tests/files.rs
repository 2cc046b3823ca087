use std::collections::HashSet;
use std::path::Path;

use whatsapp_lite::files::resolve_unique_path;
use whatsapp_lite::files::sanitize_filename;
use whatsapp_lite::files::unique_name_candidate;
use whatsapp_lite::files::NameProbe;

/// The numbered name built from `std::path::Path`'s own stem and extension.
fn expected_numbered_name(clean_name: &str, counter: u64) -> String {
    let file_path = Path::new(clean_name);
    let stem = file_path.file_stem().and_then(|s| s.to_str()).unwrap_or("file");
    let ext = file_path
        .extension()
        .and_then(|e| e.to_str())
        .map(|e| format!(".{}", e))
        .unwrap_or_default();
    format!("{} ({}){}", stem, counter, ext)
}

const SAMPLE_NAMES: &[&str] = &[
    "photo.png",
    "archive.tar.gz",
    "noext",
    ".bashrc",
    "..hidden",
    "a.",
    ".",
    "..",
    "...",
    "a..b",
    "  spaced name .txt ",
    "report:final?.pdf",
    "dir/sub\\file.txt",
    "\"<>|",
    "",
    "   ",
    "日本語.文書",
    "x.y.z.",
];

#[test]
fn sanitize_removes_forbidden_characters() {
    assert_eq!(sanitize_filename("a/b:c*d?.txt"), "abcd.txt");
    assert_eq!(sanitize_filename("\"quoted\" <name>|x"), "quoted namex");
    assert_eq!(sanitize_filename("dir\\file.txt"), "dirfile.txt");
}

#[test]
fn sanitize_keeps_ordinary_names() {
    assert_eq!(sanitize_filename("photo.png"), "photo.png");
    assert_eq!(sanitize_filename("  x "), "  x ");
    assert_eq!(sanitize_filename("\u{200B}"), "\u{200B}");
}

#[test]
fn sanitize_blank_becomes_download() {
    assert_eq!(sanitize_filename(""), "download");
    assert_eq!(sanitize_filename("   "), "download");
    assert_eq!(sanitize_filename("\t\n\r"), "download");
    assert_eq!(sanitize_filename("\u{3000}\u{00A0}\u{2009}"), "download");
    assert_eq!(sanitize_filename("\"<>|"), "download");
    assert_eq!(sanitize_filename(" / : "), "download");
}

#[test]
fn sanitize_is_idempotent() {
    for name in SAMPLE_NAMES {
        let once = sanitize_filename(name);
        assert_eq!(sanitize_filename(&once), once);
        assert!(!once.trim().is_empty());
        assert!(!once.contains(['\\', '/', ':', '*', '?', '"', '<', '>', '|']));
    }
}

#[test]
fn first_candidate_is_clean_name() {
    assert_eq!(unique_name_candidate("photo.png", 0), "photo.png");
    assert_eq!(unique_name_candidate("a/b.png", 0), "ab.png");
    assert_eq!(unique_name_candidate("", 0), "download");
}

#[test]
fn numbered_candidates() {
    assert_eq!(unique_name_candidate("photo.png", 1), "photo (1).png");
    assert_eq!(unique_name_candidate("photo.png", 12), "photo (12).png");
    assert_eq!(unique_name_candidate("archive.tar.gz", 2), "archive.tar (2).gz");
    assert_eq!(unique_name_candidate("noext", 3), "noext (3)");
    assert_eq!(unique_name_candidate(".bashrc", 1), ".bashrc (1)");
    assert_eq!(unique_name_candidate("a.", 1), "a (1).");
    assert_eq!(unique_name_candidate(".", 1), "file (1)");
    assert_eq!(unique_name_candidate("..", 1), "file (1)");
    assert_eq!(unique_name_candidate("...", 1), ".. (1).");
    assert_eq!(unique_name_candidate("", 5), "download (5)");
    assert_eq!(unique_name_candidate("x", 10), "x (10)");
    assert_eq!(unique_name_candidate("x", u64::MAX), "x (18446744073709551615)");
}

#[test]
fn numbered_candidates_agree_with_std_path() {
    for name in SAMPLE_NAMES {
        let clean = sanitize_filename(name);
        for counter in [1u64, 2, 9, 10, 99, 100, 12345] {
            assert_eq!(
                unique_name_candidate(name, counter),
                expected_numbered_name(&clean, counter),
                "name {:?}",
                name
            );
        }
    }
}

#[test]
fn candidates_are_distinct() {
    for name in SAMPLE_NAMES {
        let mut seen = HashSet::new();
        for attempt in 0..200u64 {
            let candidate = unique_name_candidate(name, attempt);
            assert!(!candidate.contains(['\\', '/', ':', '*', '?', '"', '<', '>', '|']));
            assert!(seen.insert(candidate), "name {:?} attempt {}", name, attempt);
        }
    }
}

#[test]
fn resolve_free_name() {
    match resolve_unique_path("photo.png", 0, false) {
        NameProbe::Resolved(name) => assert_eq!(name, "photo.png"),
        NameProbe::Probe { .. } => panic!("a free name is the answer"),
    }
    match resolve_unique_path("photo.png", 4, false) {
        NameProbe::Resolved(name) => assert_eq!(name, "photo (4).png"),
        NameProbe::Probe { .. } => panic!("a free name is the answer"),
    }
}

#[test]
fn resolve_taken_name_probes_next() {
    match resolve_unique_path("photo.png", 0, true) {
        NameProbe::Probe { name, attempt } => {
            assert_eq!(name, "photo (1).png");
            assert_eq!(attempt, 1);
        }
        NameProbe::Resolved(_) => panic!("a taken name leads to the next one"),
    }
}

#[test]
fn resolve_loop_finds_first_free_name() {
    let taken: HashSet<&str> = ["photo.png", "photo (1).png", "photo (2).png"].into_iter().collect();
    let mut attempt = 0;
    let mut name = unique_name_candidate("photo.png", 0);
    let answer = loop {
        match resolve_unique_path("photo.png", attempt, taken.contains(name.as_str())) {
            NameProbe::Resolved(found) => break found,
            NameProbe::Probe { name: next, attempt: next_attempt } => {
                name = next;
                attempt = next_attempt;
            }
        }
    };
    assert_eq!(answer, "photo (3).png");
}
