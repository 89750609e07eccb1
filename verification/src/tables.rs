//! Pipe tables in assistant messages.

use vstd::prelude::*;

use crate::text::{
    begins, chars_of, has_char, lines, lines_of, split, split_on, trim, trim_end_char, trim_left,
    trim_start, trim_start_char, trimmed, without_leading, without_trailing,
};

verus! {

broadcast use crate::model::group_views;

/// One piece of an assistant message: markdown or a pipe table.
#[derive(Debug, PartialEq)]
pub enum MdSegment {
    Markdown { text: String },
    /// Header, then body rows; cells trimmed.
    Table(Vec<Vec<String>>),
}

/// Model of [`MdSegment`].
pub enum MdSegmentV {
    Markdown { text: Seq<char> },
    Table(Seq<Seq<Seq<char>>>),
}

impl DeepView for MdSegment {
    type V = MdSegmentV;

    open spec fn deep_view(&self) -> MdSegmentV {
        match self {
            MdSegment::Markdown { text } => MdSegmentV::Markdown { text: text@ },
            MdSegment::Table(rows) => MdSegmentV::Table(rows.deep_view()),
        }
    }
}

/// Assistant message content: the raw text and, only when it holds pipe tables,
/// a table-aware segmentation.
#[derive(Debug, PartialEq)]
pub struct AssistantBody {
    pub text: String,
    pub table_split: Option<Vec<MdSegment>>,
}

/// Model of [`AssistantBody`].
pub struct AssistantBodyV {
    pub text: Seq<char>,
    pub table_split: Option<Seq<MdSegmentV>>,
}

impl DeepView for AssistantBody {
    type V = AssistantBodyV;

    open spec fn deep_view(&self) -> AssistantBodyV {
        AssistantBodyV { text: self.text@, table_split: self.table_split.deep_view() }
    }
}

/// A table row: its first character that is no white space is a pipe.
pub open spec fn is_row(line: Seq<char>) -> bool {
    trim_start(line).len() > 0 && trim_start(line)[0] == '|'
}

/// A character of a separator line.
pub open spec fn separator_char(c: char) -> bool {
    c == '|' || c == '-' || c == ':' || c == ' '
}

/// A separator line such as `|---|:--|`.
pub open spec fn is_separator(line: Seq<char>) -> bool {
    let t = trimmed(line);
    &&& t.len() > 0
    &&& t[0] == '|'
    &&& forall|i: int| 0 <= i < t.len() ==> separator_char(#[trigger] t[i])
    &&& t.contains('-')
}

/// The texts of `cells`, trimmed.
pub open spec fn trim_all(cells: Seq<Seq<char>>) -> Seq<Seq<char>> {
    cells.map_values(|c: Seq<char>| trimmed(c))
}

/// The cells of a row.
pub open spec fn cells_of(line: Seq<char>) -> Seq<Seq<char>> {
    trim_all(split_on(trim_end_char(trim_start_char(trimmed(line), '|'), '|'), '|'))
}

/// Whether a table starts with the first of `rest`.
pub open spec fn starts_table(rest: Seq<Seq<char>>) -> bool {
    rest.len() > 1 && is_row(rest[0]) && is_separator(rest[1])
}

/// How many of the first lines are rows.
pub open spec fn row_run(rest: Seq<Seq<char>>) -> int
    decreases rest.len(),
{
    if rest.len() > 0 && is_row(rest[0]) {
        1 + row_run(rest.drop_first())
    } else {
        0
    }
}

pub proof fn lemma_row_run(rest: Seq<Seq<char>>)
    ensures
        0 <= row_run(rest) <= rest.len(),
    decreases rest.len(),
{
    if rest.len() > 0 && is_row(rest[0]) {
        lemma_row_run(rest.drop_first());
    }
}

/// The cells of each of `rows`.
pub open spec fn grid(rows: Seq<Seq<char>>) -> Seq<Seq<Seq<char>>> {
    rows.map_values(|r: Seq<char>| cells_of(r))
}

/// Collected plain lines as a segment, unless they are blank.
pub open spec fn flushed(plain: Seq<char>) -> Seq<MdSegmentV> {
    if trimmed(plain).len() > 0 {
        seq![MdSegmentV::Markdown { text: plain }]
    } else {
        Seq::empty()
    }
}

/// The segments of the lines `rest` behind the plain text `plain`. A blank text
/// before a table goes on to the text behind it.
pub open spec fn segments_of(rest: Seq<Seq<char>>, plain: Seq<char>) -> Seq<MdSegmentV>
    decreases rest.len(),
{
    if rest.len() == 0 {
        flushed(plain)
    } else if starts_table(rest) {
        let body = rest.skip(2);
        let n = row_run(body);
        let kept = if trimmed(plain).len() > 0 {
            Seq::empty()
        } else {
            plain
        };
        if 0 <= n <= body.len() {
            flushed(plain) + seq![MdSegmentV::Table(seq![cells_of(rest[0])] + grid(body.take(n)))]
                + segments_of(body.skip(n), kept)
        } else {
            Seq::empty()
        }
    } else {
        segments_of(rest.drop_first(), plain + rest[0] + seq!['\n'])
    }
}

/// The segments of a text.
pub open spec fn segments(text: Seq<char>) -> Seq<MdSegmentV> {
    segments_of(lines_of(text), Seq::empty())
}

/// Whether one of `segs` is a table.
pub open spec fn has_table(segs: Seq<MdSegmentV>) -> bool {
    exists|i: int| 0 <= i < segs.len() && (#[trigger] segs[i]) is Table
}

/// The content of an assistant message.
pub open spec fn body_of(text: Seq<char>) -> AssistantBodyV {
    AssistantBodyV {
        text,
        table_split: if text.contains('|') && has_table(segments(text)) {
            Some(segments(text))
        } else {
            None
        },
    }
}

fn row_line(line: &str) -> (r: bool)
    ensures
        r == is_row(line@),
{
    let v = chars_of(trim_left(line).as_str());
    v.len() > 0 && v[0] == '|'
}

fn separator_line(line: &str) -> (r: bool)
    ensures
        r == is_separator(line@),
{
    let v = chars_of(trim(line).as_str());
    let ghost t = trimmed(line@);
    if v.len() == 0 || v[0] != '|' {
        return false;
    }
    let mut dash = false;
    let mut i: usize = 0;
    while i < v.len()
        invariant
            v@ == t,
            t == trimmed(line@),
            i <= v@.len(),
            forall|k: int| 0 <= k < i ==> separator_char(#[trigger] t[k]),
            dash == exists|k: int| 0 <= k < i && t[k] == '-',
        decreases v@.len() - i,
    {
        let c = v[i];
        assert(c == t[i as int]);
        if !(c == '|' || c == '-' || c == ':' || c == ' ') {
            assert(!separator_char(t[i as int]));
            return false;
        }
        if c == '-' {
            dash = true;
        }
        i += 1;
    }
    assert(dash == t.contains('-'));
    dash
}

fn row_cells(line: &str) -> (out: Vec<String>)
    ensures
        out.deep_view() == cells_of(line@),
{
    let inner = without_trailing(without_leading(trim(line).as_str(), '|').as_str(), '|');
    let raw = split(inner.as_str(), '|');
    let ghost all = raw.deep_view();
    let mut out: Vec<String> = Vec::new();
    let mut i: usize = 0;
    while i < raw.len()
        invariant
            i <= raw@.len(),
            all == raw.deep_view(),
            out.deep_view() == trim_all(all.take(i as int)),
        decreases raw@.len() - i,
    {
        out.push(trim(raw[i].as_str()));
        assert(all.take(i + 1) =~= all.take(i as int).push(raw@[i as int]@));
        assert(out.deep_view() =~= trim_all(all.take(i + 1)));
        i += 1;
    }
    assert(all.take(i as int) =~= all);
    out
}

/// Splits raw markdown into markdown and table segments. A table starts at a
/// line that begins with a pipe and is followed by a separator line.
pub fn split_tables(text: &str) -> (out: Vec<MdSegment>)
    ensures
        out.deep_view() == segments(text@),
{
    let rows = lines(text);
    let ghost all = rows.deep_view();
    let total: usize = rows.len();
    let mut out: Vec<MdSegment> = Vec::new();
    let mut plain = String::new();
    let mut i: usize = 0;
    assert(all.skip(0) =~= all);
    assert(plain@ =~= Seq::empty());
    assert(out.deep_view() + segments_of(all, plain@) =~= segments_of(all, plain@));
    while i < total
        invariant
            total == rows@.len(),
            i <= total,
            all == rows.deep_view(),
            all == lines_of(text@),
            out.deep_view() + segments_of(all.skip(i as int), plain@) == segments(text@),
        decreases total - i,
    {
        let ghost rest = all.skip(i as int);
        let ghost before = out.deep_view();
        assert(rest[0] == rows@[i as int]@);
        let table = row_line(rows[i].as_str()) && total - i > 1 && separator_line(
            rows[i + 1].as_str(),
        );
        assert(total - i > 1 ==> rest[1] == rows@[i + 1]@);
        assert(table == starts_table(rest));
        if !table {
            let ghost old_plain = plain@;
            plain.append(rows[i].as_str());
            plain.push('\n');
            assert(plain@ =~= old_plain + rest[0] + seq!['\n']);
            assert(rest.drop_first() =~= all.skip(i + 1));
            i += 1;
        } else {
            let ghost old_plain = plain@;
            if !trim(plain.as_str()).as_str().is_empty() {
                out.push(MdSegment::Markdown { text: plain });
                plain = String::new();
                assert(plain@ =~= Seq::empty());
            }
            let ghost kept = plain@;
            assert(out.deep_view() =~= before + flushed(old_plain));
            let mut grid_rows: Vec<Vec<String>> = Vec::new();
            grid_rows.push(row_cells(rows[i].as_str()));
            let ghost body = rest.skip(2);
            let start: usize = i + 2;
            i = start;
            assert(body =~= all.skip(start as int));
            assert(body.skip(0) =~= body);
            assert(grid_rows.deep_view() =~= seq![cells_of(rest[0])] + grid(body.take(0)));
            while i < total && row_line(rows[i].as_str())
                invariant
                    total == rows@.len(),
                    start <= i <= total,
                    all == rows.deep_view(),
                    body == all.skip(start as int),
                    row_run(body) == (i - start) + row_run(body.skip(i - start)),
                    grid_rows.deep_view() == seq![cells_of(rest[0])] + grid(body.take(i - start)),
                decreases total - i,
            {
                assert(body.skip(i - start)[0] == rows@[i as int]@);
                assert(body.skip(i - start).drop_first() =~= body.skip(i + 1 - start));
                grid_rows.push(row_cells(rows[i].as_str()));
                assert(body.take(i + 1 - start) =~= body.take(i - start).push(rows@[i as int]@));
                assert(grid(body.take(i + 1 - start)) =~= grid(body.take(i - start)).push(
                    cells_of(rows@[i as int]@),
                ));
                assert(grid_rows.deep_view() =~= seq![cells_of(rest[0])] + grid(
                    body.take(i + 1 - start),
                ));
                i += 1;
            }
            let ghost n = i - start;
            assert(row_run(body) == n) by {
                if i < total {
                    assert(body.skip(n)[0] == rows@[i as int]@);
                }
            }
            assert(body.skip(n) =~= all.skip(i as int));
            out.push(MdSegment::Table(grid_rows));
            assert(out.deep_view() + segments_of(all.skip(i as int), kept) =~= before
                + segments_of(rest, old_plain));
        }
    }
    assert(all.skip(i as int) =~= Seq::<Seq<char>>::empty());
    let ghost before = out.deep_view();
    if !trim(plain.as_str()).as_str().is_empty() {
        out.push(MdSegment::Markdown { text: plain });
    }
    assert(out.deep_view() =~= before + flushed(plain@));
    out
}

fn any_table(segs: &Vec<MdSegment>) -> (r: bool)
    ensures
        r == has_table(segs.deep_view()),
{
    let ghost all = segs.deep_view();
    let mut i: usize = 0;
    while i < segs.len()
        invariant
            i <= segs@.len(),
            all == segs.deep_view(),
            forall|k: int| 0 <= k < i ==> !((#[trigger] all[k]) is Table),
        decreases segs@.len() - i,
    {
        assert(all[i as int] == segs@[i as int].deep_view());
        if let MdSegment::Table(_) = &segs[i] {
            return true;
        }
        i += 1;
    }
    false
}

impl AssistantBody {
    /// The content of an assistant message with this text.
    pub fn new(text: String) -> (out: Self)
        ensures
            out.deep_view() == body_of(text@),
    {
        let table_split: Option<Vec<MdSegment>> = if has_char(text.as_str(), '|') {
            let segs = split_tables(text.as_str());
            if any_table(&segs) {
                Some(segs)
            } else {
                None
            }
        } else {
            None
        };
        AssistantBody { text, table_split }
    }
}

// ── Laws ────────────────────────────────────────────────────────────────────

/// A row directly followed by a separator stands in `rest` at `i`.
pub open spec fn table_at(rest: Seq<Seq<char>>, i: int) -> bool {
    0 <= i < rest.len() - 1 && is_row(rest[i]) && is_separator(rest[i + 1])
}

/// A segmentation has a table if and only if some row is directly followed by a
/// separator line.
pub proof fn law_table_where_separator(rest: Seq<Seq<char>>, plain: Seq<char>)
    ensures
        has_table(segments_of(rest, plain)) <==> exists|i: int| table_at(rest, i),
    decreases rest.len(),
{
    let segs = segments_of(rest, plain);
    if rest.len() == 0 {
    } else if starts_table(rest) {
        let body = rest.skip(2);
        lemma_row_run(body);
        let first = flushed(plain);
        assert(segs[first.len() as int] is Table);
        assert(table_at(rest, 0));
    } else {
        law_table_where_separator(rest.drop_first(), plain + rest[0] + seq!['\n']);
        assert forall|i: int| table_at(rest, i) implies table_at(rest.drop_first(), i - 1) by {
            assert(i != 0);
        }
        assert forall|i: int| table_at(rest.drop_first(), i) implies table_at(rest, i + 1) by {}
    }
}

/// A table is its header and every row that follows its separator, cell by cell; the text
/// before it and the lines behind it are kept.
pub proof fn law_table_holds_its_rows(
    header: Seq<char>,
    separator: Seq<char>,
    rows: Seq<Seq<char>>,
    rest: Seq<Seq<char>>,
    plain: Seq<char>,
)
    requires
        is_row(header),
        is_separator(separator),
        forall|i: int| 0 <= i < rows.len() ==> is_row(#[trigger] rows[i]),
        rest.len() > 0 ==> !is_row(rest[0]),
    ensures
        ({
            let table = MdSegmentV::Table(
                seq![cells_of(header)] + rows.map_values(|r: Seq<char>| cells_of(r)),
            );
            let segs = segments_of(seq![header, separator] + rows + rest, plain);
            if trimmed(plain).len() > 0 {
                segs == seq![MdSegmentV::Markdown { text: plain }, table] + segments_of(
                    rest,
                    Seq::empty(),
                )
            } else {
                segs == seq![table] + segments_of(rest, plain)
            }
        }),
{
    let all = seq![header, separator] + rows + rest;
    let body = all.skip(2);
    assert(all[0] == header && all[1] == separator);
    assert(body =~= rows + rest);
    lemma_row_run_is(rows, rest);
    assert(body.take(rows.len() as int) =~= rows);
    assert(body.skip(rows.len() as int) =~= rest);
    let table = MdSegmentV::Table(
        seq![cells_of(header)] + rows.map_values(|r: Seq<char>| cells_of(r)),
    );
    assert(grid(rows) =~= rows.map_values(|r: Seq<char>| cells_of(r)));
    let more = segments_of(
        rest,
        if trimmed(plain).len() > 0 {
            Seq::empty()
        } else {
            plain
        },
    );
    assert(segments_of(all, plain) =~= flushed(plain) + seq![table] + more);
}

proof fn lemma_row_run_is(rows: Seq<Seq<char>>, rest: Seq<Seq<char>>)
    requires
        forall|i: int| 0 <= i < rows.len() ==> is_row(#[trigger] rows[i]),
        rest.len() > 0 ==> !is_row(rest[0]),
    ensures
        row_run(rows + rest) == rows.len(),
    decreases rows.len(),
{
    let all = rows + rest;
    if rows.len() > 0 {
        let less = rows.drop_first();
        assert(is_row(rows[0]));
        assert(all[0] == rows[0]);
        assert(all.drop_first() =~= less + rest);
        assert forall|i: int| 0 <= i < less.len() implies is_row(#[trigger] less[i]) by {
            assert(less[i] == rows[i + 1]);
        }
        lemma_row_run_is(less, rest);
    } else {
        assert(all =~= rest);
    }
}

/// `lines` with a line feed behind each.
pub open spec fn lines_joined(lines: Seq<Seq<char>>) -> Seq<char>
    decreases lines.len(),
{
    if lines.len() == 0 {
        Seq::empty()
    } else {
        lines[0] + seq!['\n'] + lines_joined(lines.drop_first())
    }
}

/// Lines without a table are kept as they are, in one piece, behind what stood before
/// them.
pub proof fn law_plain_lines_are_kept(rest: Seq<Seq<char>>, plain: Seq<char>)
    requires
        forall|i: int| !table_at(rest, i),
    ensures
        segments_of(rest, plain) == (if trimmed(plain + lines_joined(rest)).len() > 0 {
            seq![MdSegmentV::Markdown { text: plain + lines_joined(rest) }]
        } else {
            Seq::empty()
        }),
    decreases rest.len(),
{
    if rest.len() == 0 {
        assert(plain + lines_joined(rest) =~= plain);
    } else {
        assert(!table_at(rest, 0));
        let less = rest.drop_first();
        assert forall|i: int| !table_at(less, i) by {
            assert(!table_at(rest, i + 1));
        }
        law_plain_lines_are_kept(less, plain + rest[0] + seq!['\n']);
        assert(plain + rest[0] + seq!['\n'] + lines_joined(less) =~= plain + lines_joined(rest));
    }
}

/// A row's cells are what stands between its pipes, without the white space around each:
/// `|a|b|` has the cells `a` and `b`.
pub proof fn law_row_splits_at_pipes(a: Seq<char>, b: Seq<char>)
    requires
        a.len() > 0,
        b.len() > 0,
        !a.contains('|'),
        !b.contains('|'),
    ensures
        cells_of(seq!['|'] + a + seq!['|'] + b + seq!['|']) == seq![trimmed(a), trimmed(b)],
{
    let line = seq!['|'] + a + seq!['|'] + b + seq!['|'];
    let none = Seq::<char>::empty();
    assert(line =~= none + line + none);
    assert(line[0] == '|' && line.last() == '|');
    crate::text::law_trim_takes_white_space_only(none, line, none);
    let inner = a + seq!['|'] + b;
    assert(a.contains(a[0]));
    assert(b.contains(b.last()));
    assert(inner[0] == a[0] && inner.last() == b.last());
    let open = inner + seq!['|'];
    assert(line =~= seq!['|'] + open);
    assert(open[0] == a[0]);
    crate::text::law_trailing_copies_are_dropped(open, '|');
    crate::text::law_trailing_copies_are_dropped(inner, '|');
    assert(open =~= inner.push('|'));
    crate::text::law_split_at_separators(a, '|', b);
    crate::text::law_split_at_separators(b, '|', none);
    assert(split_on(inner, '|') =~= seq![a, b]);
    assert(cells_of(line) =~= seq![trimmed(a), trimmed(b)]);
}

/// A message keeps its text; its tables are split out only if it has some.
pub proof fn law_body_keeps_its_text(text: Seq<char>)
    ensures
        body_of(text).text == text,
        body_of(text).table_split matches Some(segs) ==> segs == segments(text) && exists|i: int|
            0 <= i < segs.len() && (#[trigger] segs[i]) is Table,
        !text.contains('|') ==> body_of(text).table_split is None,
{
}

/// A row begins with a pipe, behind white space or none; a separator holds nothing but
/// pipes, dashes, colons and spaces, and a dash among them.
pub proof fn law_rows_and_separators_are_told_apart(line: Seq<char>, c: char)
    ensures
        line.len() > 0 && line[0] == '|' ==> is_row(line),
        line.len() > 0 && line[0] != '|' && !crate::text::is_white(line[0]) ==> !is_row(line),
        line.len() == 0 ==> !is_row(line),
        line.len() > 0 && crate::text::is_white(line[0]) ==> is_row(line) == is_row(
            line.drop_first(),
        ),
        trimmed(line).contains(c) && c != '|' && c != '-' && c != ':' && c != ' ' ==> !is_separator(
            line,
        ),
        is_separator(line) ==> trimmed(line).contains('-') && trimmed(line)[0] == '|',
        trimmed(line).len() > 0 && trimmed(line)[0] == '|' && trimmed(line).contains('-') && (
        forall|i: int|
            0 <= i < trimmed(line).len() ==> {
                let x = #[trigger] trimmed(line)[i];
                x == '|' || x == '-' || x == ':' || x == ' '
            }) ==> is_separator(line),
{
    let t = trimmed(line);
    if t.contains(c) && is_separator(line) {
        let i = t.index_of(c);
        assert(separator_char(t[i]));
    }
}

} // verus!
