//! Completion.

use ocs_pi::popup::{completion, fuzzy_score, match_commands, match_files, Completion, Popup};
use ocs_pi::protocol::CommandInfo;

#[test]
fn scores_prefer_runs_early_hits_and_short_names() {
    assert_eq!(fuzzy_score("", "anything"), Some(0));
    assert_eq!(fuzzy_score("ab", "ab"), Some(12));
    assert_eq!(fuzzy_score("ab", "axb"), Some(8));
    assert_eq!(fuzzy_score("b", &format!("{}b", "x".repeat(16))), Some(2));
    assert_eq!(fuzzy_score("a", &format!("a{}", "x".repeat(40))), Some(3));
    assert_eq!(fuzzy_score("ba", "ab"), None);
    assert_eq!(fuzzy_score("a", ""), None);
}

#[test]
fn queries_match_as_subsequences() {
    for (query, name, matches) in [
        ("smr", "src/main.rs", true),
        ("src/main.rs", "src/main.rs", true),
        ("rr", "src/main.rs", true),
        ("rrr", "src/main.rs", false),
        ("rsc", "src/main.rs", false),
        ("src/main.rsx", "src/main.rs", false),
        ("图", "平面图.dxf", true),
        ("图面", "平面图.dxf", false),
    ] {
        assert_eq!(fuzzy_score(query, name).is_some(), matches, "{query} in {name}");
    }
}

#[test]
fn matches_are_ordered_by_score() {
    let command = |name: &str| CommandInfo {
        name: name.into(),
        description: "".into(),
        source: "".into(),
    };
    let commands = vec![command("axb"), command("AB"), command("zz"), command("ab2")];
    assert_eq!(match_commands(&commands, "aB"), vec![1, 3, 0]);
    assert_eq!(match_commands(&commands, ""), vec![0, 1, 2, 3]);
    let files = vec!["b/ab".to_string(), "ab".to_string(), "aa".to_string(), "a-b".to_string()];
    assert_eq!(match_files(&files, "ab"), vec!["ab", "b/ab", "a-b"]);
    // Equal scores fall back to the name.
    let files = vec!["b".to_string(), "a".to_string()];
    assert_eq!(match_files(&files, ""), vec!["a", "b"]);
    let many: Vec<String> = (0..50).map(|i| format!("{i}")).collect();
    assert_eq!(match_files(&many, "").len(), 30);
}

#[test]
fn last_line_decides_what_is_completed() {
    assert_eq!(completion("/fi"), Completion::Slash("fi".into()));
    assert_eq!(completion("x\n/"), Completion::Slash("".into()));
    assert_eq!(completion("/fi x"), Completion::Nothing);
    assert_eq!(completion("/fi\n"), Completion::Nothing);
    assert_eq!(completion("/fi @a"), Completion::At("a".into()));
    assert_eq!(completion("看 @src/m"), Completion::At("src/m".into()));
    assert_eq!(completion("@"), Completion::At("".into()));
    assert_eq!(completion("a@b"), Completion::Nothing);
    assert_eq!(completion("@\"a"), Completion::Nothing);
    assert_eq!(completion(&format!("@{}", "x".repeat(200))), Completion::Nothing);
    assert_eq!(completion(&format!("@{}", "x".repeat(199))), Completion::At("x".repeat(199)));
}

#[test]
fn highlight_wraps_around() {
    let mut popup = Popup::At { query: "".into(), matches: vec!["a".into(), "b".into()], active: 0 };
    popup.move_active(-1);
    assert_eq!(popup.active(), 1);
    popup.move_active(1);
    assert_eq!(popup.active(), 0);
    popup.move_active(3);
    assert_eq!((popup.active(), popup.len()), (1, 2));
    let mut empty = Popup::Slash { query: "".into(), matches: vec![], active: 0 };
    empty.move_active(1);
    assert_eq!(empty.active(), 0);
}
