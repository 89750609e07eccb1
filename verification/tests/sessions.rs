//! Session lists and where sessions and programs are found.

use ocs_pi::locate::{bin_candidates, child_path, resolve_bin};
use ocs_pi::sessions::{
    label_of, newest_sessions, parse_sessions, scan_sessions, session_dir_for, session_id_of,
    session_label, FoundFile, MAX_HEAD,
};

#[test]
fn session_list_parses_ids_labels_and_paths() {
    let body = r#"{"sessions":[{"id":"abc","firstMessage":"第一行\n第二行","messageCount":3,"path":"/tmp/a.jsonl"},{"id":"","firstMessage":"skip"},{"id":"c","firstMessage":"  消息  "}]}"#;
    let got = parse_sessions(body);
    assert_eq!(got.len(), 2);
    assert_eq!(got[0].id, "abc");
    assert_eq!(got[0].label, "第一行");
    assert_eq!(got[0].path.as_deref(), Some("/tmp/a.jsonl"));
    assert_eq!(got[1].label, "消息");
    assert_eq!(got[1].path, None);
}

#[test]
fn session_list_of_junk_is_empty() {
    assert!(parse_sessions("oops").is_empty());
    assert!(parse_sessions("{}").is_empty());
    assert!(parse_sessions(r#"{"sessions":[{"firstMessage":"x"}]}"#).is_empty());
}

#[test]
fn labels_are_one_short_line() {
    assert_eq!(label_of("  a b \nc"), "a b");
    assert_eq!(label_of(""), "");
    assert_eq!(label_of(&"长".repeat(80)).chars().count(), 60);
}

#[test]
fn resolve_bin_keeps_explicit_paths_and_finds_local_install() {
    let path = Some("/usr/local/bin:/usr/bin:/bin");
    // Explicit paths are returned untouched.
    assert_eq!(resolve_bin("/opt/pi", path, "/home/u", &vec![]), "/opt/pi");
    // An executable that exists in ~/.local/bin resolves to an absolute path.
    let installed = vec!["/home/u/.local/bin/pi".to_string()];
    let resolved = resolve_bin("pi", path, "/home/u", &installed);
    assert!(
        resolved == "pi" || resolved.ends_with("/pi"),
        "unexpected resolution: {resolved}"
    );
    assert_eq!(resolved, "/home/u/.local/bin/pi");
    assert!(child_path("/usr/local/bin:/usr/bin:/bin", "/home/u").contains("/usr/bin"));
}

#[test]
fn search_goes_through_the_path_first() {
    assert_eq!(
        bin_candidates("pi", Some("/a::/b/"), "/h"),
        vec![
            "/a/pi",
            "/b/pi",
            "/h/.local/bin/pi",
            "/h/.npm-global/bin/pi",
            "/h/.cargo/bin/pi",
            "/h/bin/pi",
            "/usr/local/bin/pi",
            "/usr/bin/pi",
        ]
    );
    let installed = vec!["/h/.cargo/bin/pi".to_string(), "/b/pi".to_string()];
    assert_eq!(resolve_bin("pi", Some("/a::/b/"), "/h", &installed), "/b/pi");
    assert_eq!(resolve_bin("pi", None, "/h", &installed), "/h/.cargo/bin/pi");
    // Nothing found: left to the system.
    assert_eq!(resolve_bin("pi", None, "/h", &vec![]), "pi");
    assert_eq!(resolve_bin("./pi", None, "/h", &vec![]), "./pi");
}

#[test]
fn child_path_adds_each_directory_once() {
    let once = child_path("/usr/bin", "/h");
    assert_eq!(
        once,
        "/usr/local/bin:/h/.cargo/bin:/h/.npm-global/bin:/h/.local/bin:/usr/bin"
    );
    assert_eq!(child_path(&once, "/h"), once);
}

#[test]
fn session_dir_encodes_cwd_like_pi() {
    let dir = session_dir_for("/home/user", Some("/home/me"), None);
    assert!(dir.ends_with("/sessions/--home-user--"), "got {dir:?}");
    assert_eq!(dir, "/home/me/.pi/agent/sessions/--home-user--");
    let dir = session_dir_for("/home/u/.config/pi-desktop-chat-workspace", Some("/home/me"), None);
    assert!(dir.ends_with("/sessions/--home-u-.config-pi-desktop-chat-workspace--"));
    assert_eq!(
        session_dir_for("C:\\a", None, Some("/x/agent")),
        "/x/agent/sessions/--C--a--"
    );
    assert_eq!(session_dir_for("/", None, None), "//.pi/agent/sessions/----");
}

#[test]
fn session_id_comes_from_the_filename() {
    let path = "/tmp/2026-09-15T17-05-42-977Z_01a0a608-1641-72b8-a7b8-48070cc2a11c.jsonl";
    assert_eq!(
        session_id_of(path).as_deref(),
        Some("01a0a608-1641-72b8-a7b8-48070cc2a11c")
    );
    assert_eq!(session_id_of("/tmp/x_.jsonl"), None);
    assert_eq!(session_id_of("/tmp/plain.jsonl").as_deref(), Some("plain"));
}

#[test]
fn session_scan_reads_labels_and_paths() {
    let file = "/tmp/ocs-pi-scan-1/2026-01-01T00-00-00-000Z_abc-123.jsonl";
    let head = "{\"type\":\"session\",\"id\":\"abc-123\"}\n{\"type\":\"message\",\"message\":{\"role\":\"user\",\"content\":[{\"type\":\"text\",\"text\":\"你好\\n第二行\"}]}}\n";
    assert_eq!(session_id_of(file).as_deref(), Some("abc-123"));
    assert_eq!(session_label(&head.as_bytes().to_vec()).as_deref(), Some("你好"));

    let listed = scan_sessions(
        &vec![file.to_string(), "/tmp/x_.jsonl".to_string(), "/tmp/b.jsonl".to_string()],
        &vec![Some(head.as_bytes().to_vec()), None, None],
        "/p",
    );
    assert_eq!(listed.len(), 2);
    assert_eq!(listed[0].id, "abc-123");
    assert_eq!(listed[0].label, "你好");
    assert_eq!(listed[0].path.as_deref(), Some(file));
    assert_eq!(listed[0].cwd.as_deref(), Some("/p"));
    assert_eq!((listed[1].id.as_str(), listed[1].label.as_str()), ("b", ""));
}

#[test]
fn label_is_the_first_user_text() {
    let user = |t: &str| {
        format!(
            "{{\"type\":\"message\",\"message\":{{\"role\":\"user\",\"content\":[{{\"text\":\"{t}\"}}]}}}}\n"
        )
    };
    let label = |head: String| session_label(&head.into_bytes());
    assert_eq!(label(format!("junk\n{}{}", user("  "), user("b"))).as_deref(), Some("b"));
    // A message line without a message ends the search.
    assert_eq!(label(format!("{{\"type\":\"message\"}}\n{}", user("b"))), None);
    assert_eq!(label(String::new()), None);
    // A full head that ends inside a character keeps its whole lines; a short one
    // is the whole file, and no text.
    let mut head = user("标题").into_bytes();
    head.extend(b"x".repeat(MAX_HEAD - 1 - head.len()));
    assert_eq!(session_label(&head).as_deref(), Some("标题"));
    head.push(0xe4);
    assert_eq!(head.len(), MAX_HEAD);
    assert_eq!(session_label(&head).as_deref(), Some("标题"));
    head.remove(MAX_HEAD - 2);
    assert_eq!(session_label(&head), None);
}

#[test]
fn newest_session_files_come_first() {
    let file = |path: &str, secs: i64, nanos: u32| FoundFile { path: path.into(), secs, nanos };
    assert_eq!(
        newest_sessions(&vec![
            file("/d/old.jsonl", 5, 0),
            file("/d/skip.txt", 9, 0),
            file("/d/a.jsonl", 7, 1),
            file("/d/b.jsonl", 7, 2),
            file("/d/c.jsonl", 7, 1),
            file("/d/before.jsonl", -1, 0),
        ]),
        vec!["/d/b.jsonl", "/d/a.jsonl", "/d/c.jsonl", "/d/old.jsonl", "/d/before.jsonl"]
    );
    let many: Vec<FoundFile> = (0..70).map(|i| file(&format!("/{i}.jsonl"), i, 0)).collect();
    let newest = newest_sessions(&many);
    assert_eq!(newest.len(), 60);
    assert_eq!(newest[0], "/69.jsonl");
}
