//! Texts, paths and ordering.

use std::path::Path;

use ocs_pi::order::{sort_rows, Row};
use ocs_pi::paths::{extension, file_name, file_stem, is_absolute, join, parent, settle};
use ocs_pi::text::{
    clip, decimal_text, lines, precedes, replace, same, split, split_once, starts, tail_after,
    to_lower, top_line, trim, words,
};

#[test]
fn texts_are_cut_like_std_does() {
    for s in ["", " a ", "\u{3000}é\u{85}", "\u{200b}x", "a\r\nb\n\nc", "\n", "x\r", "a\r\r\nb", "一 二\t三"] {
        assert_eq!(trim(s), s.trim(), "{s:?}");
        assert_eq!(lines(s), s.lines().collect::<Vec<_>>(), "{s:?}");
        assert_eq!(words(s), s.split_whitespace().collect::<Vec<_>>(), "{s:?}");
        assert_eq!(split(s, 'a'), s.split('a').collect::<Vec<_>>(), "{s:?}");
        assert_eq!(tail_after(s, '\n'), s.rsplit('\n').next().unwrap_or(""), "{s:?}");
        assert_eq!(top_line(s), s.lines().next().unwrap_or(""), "{s:?}");
        assert_eq!(to_lower(s), s.to_ascii_lowercase(), "{s:?}");
    }
    for c in 0..0x3100u32 {
        if let Some(c) = char::from_u32(c) {
            let s = format!("{c}x{c}");
            assert_eq!(trim(&s), s.trim(), "{c:?}");
        }
    }
}

#[test]
fn texts_are_searched_like_std_does() {
    for (s, p) in [("aXbXc", "X"), ("aaa", "aa"), ("", "a"), ("abc", "abcd"), ("{a}{a}", "{a}")] {
        assert_eq!(replace(s, p, "--"), s.replace(p, "--"), "{s:?}");
        assert_eq!(
            split_once(s, p),
            s.split_once(p).map(|(a, b)| (a.to_string(), b.to_string())),
            "{s:?}"
        );
        assert_eq!(starts(s, p), s.starts_with(p), "{s:?}");
        assert_eq!(same(s, p), s == p);
    }
    for (a, b) in [("", "a"), ("a", "a"), ("ab", "b"), ("z", "é"), ("\u{ffff}", "\u{10000}")] {
        assert_eq!(precedes(a, b), a < b, "{a:?} {b:?}");
        assert_eq!(precedes(b, a), b < a, "{a:?} {b:?}");
    }
    assert_eq!(clip("一二三", 2), "一二");
    assert_eq!(clip("一", 2), "一");
    for n in [0, 9, 10, 120, u64::MAX] {
        assert_eq!(decimal_text(n), n.to_string());
    }
}

#[test]
fn paths_are_cut_like_std_does() {
    for p in ["", "/", "a", "/a", "a/b.c", "/a/b/", "/a/.x", "/a/x.", "a/..", "./a", "/a//b", "a.b.c", "/.", "a/.", "//", ".."] {
        let std = Path::new(p);
        assert_eq!(is_absolute(p), std.is_absolute(), "{p:?}");
        assert_eq!(file_name(p).as_deref(), std.file_name().and_then(|n| n.to_str()), "{p:?}");
        assert_eq!(extension(p).as_deref(), std.extension().and_then(|n| n.to_str()), "{p:?}");
        assert_eq!(file_stem(p).as_deref(), std.file_stem().and_then(|n| n.to_str()), "{p:?}");
        assert_eq!(parent(p).as_deref(), std.parent().and_then(|n| n.to_str()), "{p:?}");
        assert_eq!(join(p, "n"), std.join("n").display().to_string(), "{p:?}");
    }
    assert_eq!(join("/a", "/b"), "/b");
    assert_eq!(settle("/a/b"), "/a/b");
}

#[test]
fn rows_are_sorted_by_rank_text_and_index() {
    let row = |rank: i128, text: &str, index: usize| Row { rank, text: text.into(), index };
    assert_eq!(
        sort_rows(&vec![row(2, "a", 5), row(1, "b", 4), row(1, "a", 9), row(1, "a", 3), row(-7, "", 1)]),
        // The places of the rows.
        vec![4, 3, 2, 1, 0]
    );
    assert_eq!(sort_rows(&vec![]), Vec::<usize>::new());
}
