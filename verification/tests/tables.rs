//! Pipe tables in assistant messages.

use ocs_pi::tables::{split_tables, AssistantBody, MdSegment};

#[test]
fn split_tables_detects_pipe_tables() {
    let text = "前言\n\n| A | B |\n|---|---|\n| 1 | 2 |\n\n后记";
    let segments = split_tables(text);
    assert_eq!(segments.len(), 3, "{segments:?}");
    assert!(matches!(&segments[0], MdSegment::Markdown { text, .. } if text.contains("前言")));
    match &segments[1] {
        MdSegment::Table(rows) => {
            assert_eq!(rows.len(), 2);
            assert_eq!(rows[0], vec!["A".to_string(), "B".to_string()]);
            assert_eq!(rows[1], vec!["1".to_string(), "2".to_string()]);
        }
        other => panic!("expected a table, got {other:?}"),
    }
    assert!(matches!(&segments[2], MdSegment::Markdown { text, .. } if text.contains("后记")));
}

#[test]
fn assistant_body_only_splits_when_a_table_exists() {
    assert!(AssistantBody::new("普通文本，没有表格".into()).table_split.is_none());
    assert!(AssistantBody::new("带 | 竖线 但没表格".into()).table_split.is_none());
    let with_table = AssistantBody::new("| A |\n|---|\n| 1 |\n".into());
    assert!(with_table.table_split.is_some());
    assert_eq!(with_table.text, "| A |\n|---|\n| 1 |\n");
}

#[test]
fn tables_end_where_rows_end() {
    let rows = |r: &[&[&str]]| {
        MdSegment::Table(
            r.iter().map(|row| row.iter().map(|c| c.to_string()).collect()).collect(),
        )
    };
    let plain = |t: &str| MdSegment::Markdown { text: t.into() };
    assert_eq!(
        split_tables("  | a || b |\n | :-: |\nnach"),
        vec![rows(&[&["a", "", "b"]]), plain("nach\n")]
    );
    assert_eq!(
        split_tables("|a|\n|-|\n|b|\n|-|\n"),
        vec![rows(&[&["a"], &["b"], &["-"]])]
    );
    // A row without a separator below is plain text.
    assert_eq!(split_tables("|a|\n|b|"), vec![plain("|a|\n|b|\n")]);
    assert_eq!(split_tables(""), vec![]);
    assert_eq!(split_tables("\n \n"), vec![]);
}
