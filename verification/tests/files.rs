//! File references, the file index and the directory browser.

use ocs_pi::files::{
    browse_event, expand_file_refs, file_refs, files_event, git_files, read_plan, resolve_ref,
    DirEntry, EntryKind, FileLookup, ReadPlan, Walk, MAX_BROWSE_ENTRIES, MAX_INDEX_FILES,
};
use ocs_pi::lang::Lang;
use ocs_pi::protocol::{Event, ImageAttachment};

fn text(content: &str) -> FileLookup {
    FileLookup { len: Some(content.len() as u64), bytes: None, text: Some(content.to_string()) }
}

fn image(bytes: &[u8]) -> FileLookup {
    FileLookup { len: Some(bytes.len() as u64), bytes: Some(bytes.to_vec()), text: None }
}

fn missing() -> FileLookup {
    FileLookup { len: None, bytes: None, text: None }
}

fn sized(len: u64) -> FileLookup {
    FileLookup { len: Some(len), bytes: None, text: None }
}

#[test]
fn file_refs_parses_plain_and_quoted() {
    let refs = file_refs("看看 @src/pi.rs 和 @\"my dir/a b.txt\" 还有 @note.md");
    assert_eq!(refs, vec!["src/pi.rs", "my dir/a b.txt", "note.md"]);
    // `@` inside a word (email) is not a reference.
    assert!(file_refs("a@b.com").is_empty());
}

#[test]
fn file_refs_edge_cases() {
    assert!(file_refs("").is_empty());
    assert!(file_refs("@").is_empty());
    assert!(file_refs("@ x").is_empty());
    assert!(file_refs("@\"\"").is_empty());
    // A quote that is not closed belongs to the name.
    assert_eq!(file_refs("@\"a b"), vec!["\"a"]);
    assert_eq!(file_refs("x\n@a\t@b"), vec!["a", "b"]);
    // A wide space is no separator.
    assert_eq!(file_refs("@a\u{3000}b"), vec!["a\u{3000}b"]);
    assert!(file_refs("\u{3000}@a").is_empty());
    // Right behind a quoted name another one only starts after a space.
    assert_eq!(file_refs("@\"a\"@b @c"), vec!["a", "c"]);
    let many: String = (0..20).map(|i| format!("@f{i} ")).collect();
    let refs = file_refs(&many);
    assert_eq!(refs.len(), 12);
    assert_eq!(refs[11], "f11");
}

#[test]
fn expand_file_refs_reads_text_into_file_blocks() {
    let message = "看一下 @/tmp/ocs-pi-refs-1/note.txt";
    let (augmented, images, notices) =
        expand_file_refs(message, None, &vec![text("hello refs")], Lang::Zh);
    assert!(images.is_empty() && notices.is_empty());
    assert!(augmented.starts_with("看一下"));
    assert!(augmented.contains("<file name="));
    assert!(augmented.contains("hello refs"));
    assert_eq!(
        augmented,
        "看一下 @/tmp/ocs-pi-refs-1/note.txt\n\n<file name=\"/tmp/ocs-pi-refs-1/note.txt\">\nhello refs\n</file>\n"
    );
    // A missing reference produces a notice, not an error.
    let (_, _, notices) = expand_file_refs("@no/such/file.txt", None, &vec![missing()], Lang::Zh);
    assert_eq!(notices.len(), 1);
    assert_eq!(notices[0], "未找到文件：no/such/file.txt");
}

#[test]
fn images_are_attached_in_base64() {
    let (augmented, images, notices) = expand_file_refs(
        "@a.PNG @b.jpeg @c.gif @d.webp",
        Some("/p"),
        &vec![image(b"Man"), image(b"Ma"), image(b"M"), image(&[255, 254, 253, 0])],
        Lang::Zh,
    );
    assert!(notices.is_empty());
    let mime = |m: &str, b: &str| ImageAttachment { mime: m.into(), base64: b.into() };
    assert_eq!(
        images,
        vec![
            mime("image/png", "TWFu"),
            mime("image/jpeg", "TWE="),
            mime("image/gif", "TQ=="),
            mime("image/webp", "//79AA=="),
        ]
    );
    assert!(augmented.contains("<file name=\"/p/a.PNG\"></file>\n"));
}

#[test]
fn unusable_files_give_notices() {
    let looks = vec![
        sized(512 * 1024 + 1),
        sized(8 * 1024 * 1024 + 1),
        sized(10),
        sized(10),
        sized(0),
    ];
    let (augmented, images, notices) =
        expand_file_refs("@a.txt @b.png @c.txt @d.png @e.txt", None, &looks, Lang::En);
    assert_eq!(augmented, "@a.txt @b.png @c.txt @d.png @e.txt");
    assert!(images.is_empty());
    assert_eq!(
        notices,
        vec![
            "file too large (>512KB), skipped: a.txt",
            "image too large, skipped: b.png",
            "read failed (not text?): c.txt",
            "read failed: d.png",
        ]
    );
}

#[test]
fn messages_without_refs_stay_as_they_are() {
    let (augmented, images, notices) = expand_file_refs(" a@b ", None, &vec![], Lang::Zh);
    assert_eq!(augmented, " a@b ");
    assert!(images.is_empty() && notices.is_empty());
}

#[test]
fn references_resolve_against_the_directory() {
    assert_eq!(resolve_ref("/a/b", Some("/p")), "/a/b");
    assert_eq!(resolve_ref("a/b", Some("/p")), "/p/a/b");
    assert_eq!(resolve_ref("a/b", Some("/p/")), "/p/a/b");
    assert_eq!(resolve_ref("a/b", None), "a/b");
    assert!(matches!(read_plan("/p/x.png", 10), ReadPlan::Bytes));
    assert!(matches!(read_plan("/p/x.txt", 10), ReadPlan::Text));
    assert!(matches!(read_plan("/p/x.txt", 0), ReadPlan::Nothing));
    assert!(matches!(read_plan("/p/x.txt", 512 * 1024 + 1), ReadPlan::Nothing));
    assert!(matches!(read_plan("/p/x.jpg", 8 * 1024 * 1024), ReadPlan::Bytes));
}

#[test]
fn git_output_is_split_at_zero_bytes() {
    assert_eq!(
        git_files(&b"a.rs\0dir/b.rs\0\0".to_vec()),
        Some(vec!["a.rs".to_string(), "dir/b.rs".to_string()])
    );
    assert_eq!(git_files(&b"\0\0".to_vec()), None);
    assert_eq!(git_files(&vec![]), None);
    // Bytes that are no text are replaced.
    assert_eq!(git_files(&vec![b'a', 0xff, b'b']), Some(vec!["a\u{fffd}b".to_string()]));
    let many: Vec<u8> = (0..MAX_INDEX_FILES + 5).flat_map(|_| b"f\0".to_vec()).collect();
    assert_eq!(git_files(&many).map(|f| f.len()), Some(MAX_INDEX_FILES));
}

fn entry(name: &str, dir: &str, kind: EntryKind) -> DirEntry {
    DirEntry { name: name.into(), path: format!("{dir}/{name}"), kind }
}

/// A small tree: the entries of a directory by its path.
fn listing(dir: &str) -> Vec<DirEntry> {
    match dir {
        "/p" => vec![
            entry("src", dir, EntryKind::Dir),
            entry("node_modules", dir, EntryKind::Dir),
            entry(".hidden", dir, EntryKind::Dir),
            entry("z.txt", dir, EntryKind::File),
            entry(".env", dir, EntryKind::File),
            entry("socket", dir, EntryKind::Other),
        ],
        "/p/src" => vec![entry("main.rs", dir, EntryKind::File), entry("ui", dir, EntryKind::Dir)],
        "/p/src/ui" => vec![entry("b.rs", dir, EntryKind::File)],
        _ => vec![entry("dep.js", dir, EntryKind::File)],
    }
}

#[test]
fn file_index_walk_skips_vendor_dirs() {
    let mut walk = Walk::new("/p");
    let mut seen = Vec::new();
    while let Some(at) = walk.next_dir() {
        seen.push(at.dir.clone());
        let entries = listing(&at.dir);
        walk.visit(&at, &entries);
    }
    let files = walk.finish();
    assert!(files.contains(&"src/main.rs".to_string()), "got {files:?}");
    assert!(!files.iter().any(|f| f.starts_with("node_modules")));
    assert_eq!(files, vec![".env", "src/main.rs", "src/ui/b.rs", "z.txt"]);
    assert_eq!(seen, vec!["/p", "/p/src", "/p/src/ui"]);
}

#[test]
fn walks_go_breadth_first_and_stop_at_the_limit() {
    let mut walk = Walk::new("/r");
    let mut order = Vec::new();
    while let Some(at) = walk.next_dir() {
        order.push(at.rel.clone());
        let entries = if at.rel.is_empty() {
            vec![entry("a", &at.dir, EntryKind::Dir), entry("b", &at.dir, EntryKind::Dir)]
        } else if at.rel.len() == 1 {
            vec![entry("c", &at.dir, EntryKind::Dir)]
        } else {
            vec![]
        };
        walk.visit(&at, &entries);
    }
    assert_eq!(order, vec!["", "a", "b", "a/c", "b/c"]);

    let mut walk = Walk::new("/r");
    let at = walk.next_dir().expect("the root");
    let many: Vec<DirEntry> =
        (0..MAX_INDEX_FILES + 7).map(|i| entry(&format!("f{i}"), "/r", EntryKind::File)).collect();
    walk.visit(&at, &many);
    assert_eq!(walk.finish().len(), MAX_INDEX_FILES);

    // Nine levels down nothing is looked at any more.
    let mut walk = Walk::new("/r");
    let mut depth = 0;
    while let Some(at) = walk.next_dir() {
        depth = at.depth;
        let entries = vec![entry("d", &at.dir, EntryKind::Dir)];
        walk.visit(&at, &entries);
    }
    assert_eq!(depth, 8);
}

#[test]
fn browse_lists_only_directories_with_parent() {
    let dir = "/tmp/ocs-pi-browse-1";
    let entries = vec![
        entry("zoo", dir, EntryKind::Dir),
        entry("file.txt", dir, EntryKind::File),
        entry("sub", dir, EntryKind::Dir),
    ];
    let Event::DirListing { path, parent, dirs } = browse_event(dir, &entries) else {
        panic!("expected DirListing")
    };
    assert!(dirs.iter().any(|(name, _)| name == "sub"));
    assert!(!dirs.iter().any(|(name, _)| name == "file.txt"));
    assert!(parent.is_some());
    assert_eq!(path, dir);
    assert_eq!(parent.as_deref(), Some("/tmp"));
    assert_eq!(
        dirs,
        vec![
            ("sub".to_string(), "/tmp/ocs-pi-browse-1/sub".to_string()),
            ("zoo".to_string(), "/tmp/ocs-pi-browse-1/zoo".to_string()),
        ]
    );
}

#[test]
fn browsing_is_capped_and_the_root_has_no_parent() {
    let many: Vec<DirEntry> = (0..MAX_BROWSE_ENTRIES + 3)
        .map(|i| entry(&format!("{i}"), "", EntryKind::Dir))
        .collect();
    let Event::DirListing { parent, dirs, .. } = browse_event("/", &many) else {
        panic!("expected DirListing")
    };
    assert_eq!(parent, None);
    assert_eq!(dirs.len(), MAX_BROWSE_ENTRIES);
}

#[test]
fn file_index_event_names_its_directory() {
    assert_eq!(
        files_event("/p", vec!["a".to_string()]),
        Event::Files { cwd: "/p".into(), files: vec!["a".into()] }
    );
}
