//! Session files on disk: where they are, and what the picker shows of them.

use vstd::prelude::*;

use crate::json::{json_parse, parse_json, JsonV};
use crate::order::{picked, sort_rows, sorted_rows, within, Row, RowV};
use crate::paths::{extension, file_stem, join, joined, stem, suffix};
use crate::protocol::{SessionInfo, SessionInfoV};
use crate::text::{
    after_last, byte_piece, chars_of, clip, clipped, first_line, lines, lines_of, same, tail_after, text_of,
    through_last, top_line, trim, trimmed, up_to_last, utf8_text,
};
use crate::wire::{content_text, text_content};

verus! {

broadcast use crate::model::group_views;

/// How long, in characters, a label may be.
pub const MAX_LABEL: usize = 60;

/// How many bytes of a session file are read for its label.
pub const MAX_HEAD: usize = 49152;

/// How many session files are listed.
pub const MAX_SESSIONS: usize = 60;

/// A character that a directory slug cannot hold.
pub open spec fn slug_char(c: char) -> char {
    if c == '/' || c == '\\' || c == ':' {
        '-'
    } else {
        c
    }
}

/// `s` without separators at its front.
pub open spec fn past_separators(s: Seq<char>) -> Seq<char>
    decreases s.len(),
{
    if s.len() > 0 && (s[0] == '/' || s[0] == '\\') {
        past_separators(s.drop_first())
    } else {
        s
    }
}

/// The slug of a working directory.
pub open spec fn slug_of(cwd: Seq<char>) -> Seq<char> {
    past_separators(cwd).map_values(|c: char| slug_char(c))
}

/// The directory of the sessions of `cwd`.
pub open spec fn session_dir(
    cwd: Seq<char>,
    home: Option<Seq<char>>,
    agent_dir: Option<Seq<char>>,
) -> Seq<char> {
    let home = match home {
        Some(h) => h,
        None => "/"@,
    };
    let agent = match agent_dir {
        Some(d) => d,
        None => home + "/.pi/agent"@,
    };
    joined(joined(agent, "sessions"@), "--"@ + slug_of(cwd) + "--"@)
}

/// The session directory of `cwd`: `sessions/--<slug>--` below `PI_AGENT_DIR`,
/// or below `~/.pi/agent`.
pub fn session_dir_for(cwd: &str, home: Option<&str>, agent_dir: Option<&str>) -> (out: String)
    ensures
        out@ == session_dir(cwd@, home.deep_view(), agent_dir.deep_view()),
{
    let v = chars_of(cwd);
    let mut from: usize = 0;
    assert(v@.skip(0) =~= v@);
    while from < v.len() && (v[from] == '/' || v[from] == '\\')
        invariant
            v@ == cwd@,
            from <= v@.len(),
            past_separators(v@.skip(from as int)) == past_separators(cwd@),
        decreases v@.len() - from,
    {
        assert(v@.skip(from as int).drop_first() =~= v@.skip(from + 1));
        from += 1;
    }
    let ghost body = v@.skip(from as int);
    let mut name = "--".to_owned();
    let mut i: usize = from;
    assert(body.take(0) =~= Seq::empty());
    assert(name@ =~= "--"@ + body.take(0).map_values(|c: char| slug_char(c)));
    while i < v.len()
        invariant
            from <= i <= v@.len(),
            body == v@.skip(from as int),
            name@ == "--"@ + body.take(i - from).map_values(|c: char| slug_char(c)),
        decreases v@.len() - i,
    {
        let c = v[i];
        let s = if c == '/' || c == '\\' || c == ':' {
            '-'
        } else {
            c
        };
        name.push(s);
        assert(body.take(i + 1 - from) =~= body.take(i - from).push(c));
        assert(name@ =~= "--"@ + body.take(i + 1 - from).map_values(|c: char| slug_char(c)));
        i += 1;
    }
    assert(body.take(i - from) =~= body);
    name.append("--");
    let agent = match agent_dir {
        Some(d) => d.to_owned(),
        None => {
            let mut a = match home {
                Some(h) => h.to_owned(),
                None => "/".to_owned(),
            };
            a.append("/.pi/agent");
            a
        },
    };
    join(join(agent.as_str(), "sessions").as_str(), name.as_str())
}

/// The id in a session file's name: what follows the last underscore of its
/// stem.
pub open spec fn id_in_path(path: Seq<char>) -> Option<Seq<char>> {
    match stem(path) {
        Some(s) => {
            let id = after_last(s, '_');
            if id.len() > 0 {
                Some(id)
            } else {
                None
            }
        },
        None => None,
    }
}

/// `<timestamp>_<uuid>.jsonl` gives `uuid`.
pub fn session_id_of(path: &str) -> (out: Option<String>)
    ensures
        out.deep_view() == id_in_path(path@),
{
    match file_stem(path) {
        Some(s) => {
            let id = tail_after(s.as_str(), '_');
            if id.as_str().is_empty() {
                None
            } else {
                Some(id)
            }
        },
        None => None,
    }
}

/// A text as a label: its first line, trimmed and cut.
pub open spec fn label_text(text: Seq<char>) -> Seq<char> {
    clipped(trimmed(first_line(text)), MAX_LABEL as int)
}

/// A text as a label: its first line, trimmed, at most [`MAX_LABEL`] characters.
pub fn label_of(text: &str) -> (out: String)
    ensures
        out@ == label_text(text@),
{
    clip(trim(top_line(text).as_str()).as_str(), MAX_LABEL)
}

/// What one line of a session file says about the label.
pub enum LineLabel {
    /// Nothing; the next line counts.
    Skip,
    /// There is no label.
    Stop,
    /// The label.
    Found(Seq<char>),
}

/// What one line of a session file says about the label: a user message whose
/// first line is not blank gives it. A message record without a message ends the
/// search.
pub open spec fn line_label(line: Seq<char>) -> LineLabel {
    match json_parse(line) {
        None => LineLabel::Skip,
        Some(value) => if value.text("type"@) != Some("message"@) {
            LineLabel::Skip
        } else {
            match value.get("message"@) {
                None => LineLabel::Stop,
                Some(message) => if message.text("role"@) != Some("user"@) {
                    LineLabel::Skip
                } else {
                    let first = trimmed(first_line(text_content(message)));
                    if first.len() > 0 {
                        LineLabel::Found(clipped(first, MAX_LABEL as int))
                    } else {
                        LineLabel::Skip
                    }
                },
            }
        },
    }
}

/// The label that the lines of a session file give.
pub open spec fn head_label(lines: Seq<Seq<char>>) -> Option<Seq<char>>
    decreases lines.len(),
{
    if lines.len() == 0 {
        None
    } else {
        match line_label(lines[0]) {
            LineLabel::Skip => head_label(lines.drop_first()),
            LineLabel::Stop => None,
            LineLabel::Found(label) => Some(label),
        }
    }
}

/// The text of the head of a session file. A head of [`MAX_HEAD`] bytes may end
/// inside a character; its whole lines count all the same.
pub open spec fn head_text(head: Seq<u8>) -> Option<Seq<char>> {
    if head.len() < MAX_HEAD || text_of(head) is Some {
        text_of(head)
    } else {
        text_of(up_to_last(head, 10))
    }
}

/// The label that the head of a session file gives.
pub open spec fn label_in(head: Seq<u8>) -> Option<Seq<char>> {
    match head_text(head) {
        Some(text) => head_label(lines_of(text)),
        None => None,
    }
}

fn decode_head(head: &Vec<u8>) -> (out: Option<String>)
    ensures
        out.deep_view() == head_text(head@),
{
    let all = byte_piece(head, 0, head.len());
    assert(all@ =~= head@);
    match utf8_text(all) {
        Some(text) => Some(text),
        None => if head.len() < MAX_HEAD {
            None
        } else {
            utf8_text(through_last(head, 10))
        },
    }
}

/// The picker label of a session, from the head of its file: the first line of
/// the first user message.
pub fn session_label(head: &Vec<u8>) -> (out: Option<String>)
    ensures
        out.deep_view() == label_in(head@),
{
    let text = match decode_head(head) {
        Some(text) => text,
        None => {
            return None;
        },
    };
    let rows = lines(text.as_str());
    let ghost all = rows.deep_view();
    assert(all.skip(0) =~= all);
    let mut i: usize = 0;
    while i < rows.len()
        invariant
            i <= rows@.len(),
            all == rows.deep_view(),
            all == lines_of(text@),
            head_text(head@) == Some(text@),
            head_label(all.skip(i as int)) == head_label(all),
        decreases rows@.len() - i,
    {
        assert(all.skip(i as int)[0] == rows@[i as int]@);
        assert(all.skip(i as int).drop_first() =~= all.skip(i + 1));
        if let Some(value) = parse_json(rows[i].as_str()) {
            let is_message = match value.text("type") {
                Some(t) => same(t, "message"),
                None => false,
            };
            if is_message {
                match value.get("message") {
                    None => {
                        return None;
                    },
                    Some(message) => {
                        let is_user = match message.text("role") {
                            Some(r) => same(r, "user"),
                            None => false,
                        };
                        if is_user {
                            let text = content_text(message);
                            let first = trim(top_line(text.as_str()).as_str());
                            if !first.as_str().is_empty() {
                                return Some(clip(first.as_str(), MAX_LABEL));
                            }
                        }
                    },
                }
            }
        }
        i += 1;
    }
    None
}

/// A file of a session directory and when it was last changed: seconds and
/// nanoseconds from the epoch.
pub struct FoundFile {
    pub path: String,
    pub secs: i64,
    pub nanos: u32,
}

/// Model of [`FoundFile`].
pub struct FoundFileV {
    pub path: Seq<char>,
    pub secs: i64,
    pub nanos: u32,
}

impl DeepView for FoundFile {
    type V = FoundFileV;

    open spec fn deep_view(&self) -> FoundFileV {
        FoundFileV { path: self.path@, secs: self.secs, nanos: self.nanos }
    }
}

/// The session files among `files`, as rows to sort: newest first, then in the
/// order found.
pub open spec fn session_rows(files: Seq<FoundFileV>) -> Seq<RowV>
    decreases files.len(),
{
    if files.len() == 0 {
        Seq::empty()
    } else {
        let before = session_rows(files.drop_last());
        let f = files.last();
        if suffix(f.path) == Some("jsonl"@) {
            before.push(
                RowV {
                    rank: -(f.secs * 1000000000 + f.nanos),
                    text: Seq::empty(),
                    index: files.len() - 1,
                },
            )
        } else {
            before
        }
    }
}

/// The paths of the newest session files.
pub open spec fn newest(files: Seq<FoundFileV>) -> Seq<Seq<char>> {
    let sorted = sorted_rows(session_rows(files));
    let kept = if sorted.len() <= MAX_SESSIONS {
        sorted
    } else {
        sorted.take(MAX_SESSIONS as int)
    };
    kept.map_values(|r: RowV| files[r.index].path)
}

/// The paths of the newest session files, newest first.
pub fn newest_sessions(files: &Vec<FoundFile>) -> (out: Vec<String>)
    ensures
        out.deep_view() == newest(files.deep_view()),
{
    let ghost all = files.deep_view();
    let mut rows: Vec<Row> = Vec::new();
    assert(all.take(0) =~= Seq::empty());
    let mut i: usize = 0;
    while i < files.len()
        invariant
            i <= files@.len(),
            all == files.deep_view(),
            rows.deep_view() == session_rows(all.take(i as int)),
            forall|k: int| 0 <= k < rows@.len() ==> (#[trigger] rows@[k]).index < i,
        decreases files@.len() - i,
    {
        assert(all.take(i + 1).drop_last() =~= all.take(i as int));
        assert(all.take(i + 1).last() == files@[i as int].deep_view());
        let is_session = match extension(files[i].path.as_str()) {
            Some(e) => same(e.as_str(), "jsonl"),
            None => false,
        };
        if is_session {
            let stamp: i128 = files[i].secs as i128 * 1000000000 + files[i].nanos as i128;
            let text = String::new();
            assert(text@ =~= Seq::empty());
            rows.push(Row { rank: -stamp, text, index: i });
        }
        i += 1;
    }
    assert(all.take(i as int) =~= all);
    let mut order = sort_rows(&rows);
    let ghost v = rows.deep_view();
    let ghost full = order@;
    assert(sorted_rows(v).len() == full.len());
    if order.len() > MAX_SESSIONS {
        order.truncate(MAX_SESSIONS);
        assert(picked(v, order@) =~= picked(v, full).take(MAX_SESSIONS as int));
    }
    let ghost kept = picked(v, order@);
    let mut out: Vec<String> = Vec::new();
    let mut k: usize = 0;
    while k < order.len()
        invariant
            k <= order@.len(),
            all == files.deep_view(),
            v == rows.deep_view(),
            within(order@, rows@.len()),
            kept == picked(v, order@),
            forall|m: int| 0 <= m < rows@.len() ==> (#[trigger] rows@[m]).index < files@.len(),
            out@.len() == k,
            forall|m: int| 0 <= m < k ==> (#[trigger] out@[m])@ == all[kept[m].index].path,
        decreases order@.len() - k,
    {
        assert(kept[k as int] == rows@[order@[k as int] as int].deep_view());
        let at: usize = rows[order[k]].index;
        assert(all[at as int] == files@[at as int].deep_view());
        out.push(files[at].path.clone());
        k += 1;
    }
    assert(out.deep_view() =~= newest(files.deep_view()));
    out
}

/// The sessions at `paths`, whose file heads are `heads`; a head that could not
/// be read gives no label, and a name without an id no session.
pub open spec fn infos_of(
    paths: Seq<Seq<char>>,
    heads: Seq<Option<Seq<u8>>>,
    cwd: Seq<char>,
) -> Seq<SessionInfoV>
    decreases paths.len(),
{
    if paths.len() == 0 {
        Seq::empty()
    } else {
        let before = infos_of(paths.drop_last(), heads, cwd);
        match id_in_path(paths.last()) {
            Some(id) => before.push(
                SessionInfoV {
                    id,
                    label: label_at(heads, paths.len() - 1),
                    path: Some(paths.last()),
                    cwd: Some(cwd),
                },
            ),
            None => before,
        }
    }
}

/// The label of the session at `i`.
pub open spec fn label_at(heads: Seq<Option<Seq<u8>>>, i: int) -> Seq<char> {
    if 0 <= i < heads.len() {
        match heads[i] {
            Some(head) => match label_in(head) {
                Some(label) => label,
                None => Seq::empty(),
            },
            None => Seq::empty(),
        }
    } else {
        Seq::empty()
    }
}

/// The heads that were read.
pub open spec fn heads_view(heads: Seq<Option<Vec<u8>>>) -> Seq<Option<Seq<u8>>> {
    heads.map_values(
        |head: Option<Vec<u8>>|
            match head {
                Some(bytes) => Some(bytes@),
                None => None,
            },
    )
}

/// The sessions at `paths`, from the heads of their files.
pub fn scan_sessions(paths: &Vec<String>, heads: &Vec<Option<Vec<u8>>>, cwd: &str) -> (out: Vec<
    SessionInfo,
>)
    ensures
        out.deep_view() == infos_of(paths.deep_view(), heads_view(heads@), cwd@),
{
    let ghost all = paths.deep_view();
    let ghost tops = heads_view(heads@);
    let mut out: Vec<SessionInfo> = Vec::new();
    assert(all.take(0) =~= Seq::empty());
    let mut i: usize = 0;
    while i < paths.len()
        invariant
            i <= paths@.len(),
            all == paths.deep_view(),
            tops == heads_view(heads@),
            out.deep_view() == infos_of(all.take(i as int), tops, cwd@),
        decreases paths@.len() - i,
    {
        assert(all.take(i + 1).drop_last() =~= all.take(i as int));
        assert(all.take(i + 1).last() == paths@[i as int]@);
        if let Some(id) = session_id_of(paths[i].as_str()) {
            let mut label = String::new();
            assert(label@ =~= Seq::empty());
            if i < heads.len() {
                if let Some(head) = &heads[i] {
                    if let Some(found) = session_label(head) {
                        label = found;
                    }
                }
            }
            assert(label@ == label_at(tops, i as int));
            out.push(
                SessionInfo {
                    id,
                    label,
                    path: Some(paths[i].clone()),
                    cwd: Some(cwd.to_owned()),
                },
            );
        }
        i += 1;
    }
    assert(all.take(i as int) =~= all);
    out
}

/// A session of the server's list; it needs an id.
pub open spec fn listed_session(s: JsonV) -> Option<SessionInfoV> {
    let id = s.text_or("id"@, ""@);
    if id.len() > 0 {
        Some(
            SessionInfoV {
                id,
                label: label_text(s.text_or("firstMessage"@, ""@)),
                path: s.text("path"@),
                cwd: s.text("cwd"@),
            },
        )
    } else {
        None
    }
}

/// The sessions among `items`, in order.
pub open spec fn listed_sessions(items: Seq<JsonV>) -> Seq<SessionInfoV>
    decreases items.len(),
{
    if items.len() == 0 {
        Seq::empty()
    } else {
        match listed_session(items.last()) {
            Some(s) => listed_sessions(items.drop_last()).push(s),
            None => listed_sessions(items.drop_last()),
        }
    }
}

/// The sessions of the server's answer; none if it is no JSON.
pub open spec fn sessions_in(text: Seq<char>) -> Seq<SessionInfoV> {
    match json_parse(text) {
        Some(j) => match j.list("sessions"@) {
            Some(items) => listed_sessions(items),
            None => Seq::empty(),
        },
        None => Seq::empty(),
    }
}

/// Reads the server's session list, keeping its order: newest activity first.
pub fn parse_sessions(text: &str) -> (out: Vec<SessionInfo>)
    ensures
        out.deep_view() == sessions_in(text@),
{
    let mut out: Vec<SessionInfo> = Vec::new();
    if let Some(j) = parse_json(text) {
        if let Some(items) = j.list("sessions") {
            let ghost all = crate::json::items_view(items@);
            assert(all.take(0) =~= Seq::empty());
            let mut i: usize = 0;
            while i < items.len()
                invariant
                    i <= items@.len(),
                    all == crate::json::items_view(items@),
                    out.deep_view() == listed_sessions(all.take(i as int)),
                decreases items@.len() - i,
            {
                assert(all.take(i + 1).drop_last() =~= all.take(i as int));
                assert(all.take(i + 1).last() == crate::json::json_view(items@[i as int]));
                let s = &items[i];
                let id = s.text_or("id", "");
                if !id.as_str().is_empty() {
                    out.push(
                        SessionInfo {
                            id,
                            label: label_of(s.text_or("firstMessage", "").as_str()),
                            path: s.owned("path"),
                            cwd: s.owned("cwd"),
                        },
                    );
                }
                i += 1;
            }
            assert(all.take(i as int) =~= all);
        }
    }
    out
}

// ── Laws ────────────────────────────────────────────────────────────────────

/// A head that ends inside a character gives the label of its whole lines.
pub proof fn law_cut_head_keeps_whole_lines(whole: Seq<u8>, rest: Seq<u8>)
    requires
        whole.len() > 0,
        whole.last() == 10,
        !rest.contains(10),
        text_of(whole) is Some,
        text_of(whole + rest) is None,
        (whole + rest).len() >= MAX_HEAD,
    ensures
        label_in(whole + rest) == head_label(lines_of(text_of(whole)->0)),
{
    lemma_up_to_last(whole, rest);
}

proof fn lemma_up_to_last(whole: Seq<u8>, rest: Seq<u8>)
    requires
        whole.len() > 0,
        whole.last() == 10,
        !rest.contains(10),
    ensures
        up_to_last(whole + rest, 10) == whole,
    decreases rest.len(),
{
    let all = whole + rest;
    if rest.len() > 0 {
        let less = rest.drop_last();
        assert forall|i: int| 0 <= i < less.len() implies less[i] != 10 by {
            assert(rest.contains(rest[i]));
        }
        assert(rest.contains(rest.last()));
        lemma_up_to_last(whole, less);
        assert(all.drop_last() =~= whole + less);
    } else {
        assert(all =~= whole);
    }
}

/// A label never has more than [`MAX_LABEL`] characters.
pub proof fn law_label_is_short(text: Seq<char>)
    ensures
        label_text(text).len() <= MAX_LABEL,
{
}

/// A slug holds no separator and no colon, so that it names one directory.
pub proof fn law_slug_is_one_name(cwd: Seq<char>)
    ensures
        forall|i: int|
            0 <= i < slug_of(cwd).len() ==> (#[trigger] slug_of(cwd)[i]) != '/' && slug_of(cwd)[i]
                != '\\' && slug_of(cwd)[i] != ':',
{
}

/// Every listed session has an id.
pub proof fn law_listed_sessions_have_ids(items: Seq<JsonV>)
    ensures
        forall|i: int|
            0 <= i < listed_sessions(items).len() ==> (#[trigger] listed_sessions(items)[i]).id.len()
                > 0,
    decreases items.len(),
{
    if items.len() > 0 {
        law_listed_sessions_have_ids(items.drop_last());
        let before = listed_sessions(items.drop_last());
        assert forall|i: int| 0 <= i < listed_sessions(items).len() implies (
        #[trigger] listed_sessions(items)[i]).id.len() > 0 by {
            if i < before.len() {
                assert(listed_sessions(items)[i] == before[i]);
            }
        }
    }
}

/// The server's sessions are listed one by one, in its order: each with its id, its file
/// and its directory, labelled by its first message. One without an id is left out.
pub proof fn law_sessions_are_listed_in_order(a: Seq<JsonV>, b: Seq<JsonV>, s: JsonV)
    ensures
        listed_sessions(a + b) == listed_sessions(a) + listed_sessions(b),
        s.text("id"@) matches Some(id) ==> id.len() > 0 ==> listed_sessions(seq![s]).len() == 1
            && listed_sessions(seq![s])[0].id == id && listed_sessions(seq![s])[0].path == s.text(
            "path"@,
        ) && listed_sessions(seq![s])[0].cwd == s.text("cwd"@) && (s.text("firstMessage"@)
            matches Some(t) ==> listed_sessions(seq![s])[0].label == label_text(t)),
        s.get("id"@) is None ==> listed_sessions(seq![s]).len() == 0,
        s.text("id"@) matches Some(id) ==> id.len() == 0 ==> listed_sessions(seq![s]).len() == 0,
    decreases b.len(),
{
    reveal_strlit("");
    let one = seq![s];
    assert(one.drop_last() =~= Seq::empty());
    assert(listed_sessions(one.drop_last()) =~= Seq::empty());
    assert(listed_sessions(one) =~= (match listed_session(s) {
        Some(x) => seq![x],
        None => Seq::empty(),
    }));
    if b.len() == 0 {
        assert(a + b =~= a);
        assert(listed_sessions(a) + listed_sessions(b) =~= listed_sessions(a));
    } else {
        assert((a + b).drop_last() =~= a + b.drop_last());
        law_sessions_are_listed_in_order(a, b.drop_last(), s);
        assert(listed_sessions(a + b) =~= listed_sessions(a) + listed_sessions(b));
    }
}

/// The server's answer is its `sessions` array; an answer without one lists nothing.
pub proof fn law_answer_lists_its_sessions(text: Seq<char>, items: Seq<JsonV>)
    ensures
        json_parse(text) matches Some(j) ==> (j.get("sessions"@) == Some(JsonV::Array(items))
            ==> sessions_in(text) == listed_sessions(items)),
        json_parse(text) matches Some(j) ==> (j.get("sessions"@) is None ==> sessions_in(text).len()
            == 0),
        json_parse(text) is None ==> sessions_in(text).len() == 0,
{
}

/// A label is the first line, without white space around it, as far as it may go.
pub proof fn law_label_is_the_first_line(first: Seq<char>, rest: Seq<char>)
    requires
        !first.contains('\n'),
        first.len() > 0 ==> first.last() != '\r',
    ensures
        trimmed(first).len() <= 60 ==> label_text(first + seq!['\n'] + rest) == trimmed(first)
            && label_text(first) == trimmed(first),
        trimmed(first).len() > 60 ==> label_text(first + seq!['\n'] + rest) == trimmed(first).take(60)
            && label_text(first) == trimmed(first).take(60),
{
    crate::text::law_lines_end_at_line_feeds(first, rest);
}

/// The id of a session is what follows the last underscore of its file's name.
pub proof fn law_id_is_behind_last_underscore(front: Seq<char>, stamp: Seq<char>, id: Seq<char>)
    requires
        front.len() > 0 ==> front.last() == '/',
        !stamp.contains('/'),
        id.len() > 0,
        !id.contains('/'),
        !id.contains('_'),
    ensures
        id_in_path(front + stamp + seq!['_'] + id + seq!['.', 'j', 's', 'o', 'n', 'l']) == Some(id),
        crate::paths::suffix(front + stamp + seq!['_'] + id + seq!['.', 'j', 's', 'o', 'n', 'l'])
            == Some("jsonl"@),
{
    reveal_strlit("jsonl");
    let name = stamp + seq!['_'] + id;
    let ext = "jsonl"@;
    assert(ext =~= seq!['j', 's', 'o', 'n', 'l']);
    assert(!name.contains('/')) by {
        assert forall|k: int| 0 <= k < name.len() implies name[k] != '/' by {
            if k < stamp.len() {
                assert(stamp.contains(stamp[k]));
            } else if k > stamp.len() {
                assert(id.contains(id[k - stamp.len() - 1]));
            }
        }
    }
    assert(!ext.contains('/') && !ext.contains('.'));
    crate::paths::law_extension_is_behind_last_dot(front, name, ext);
    assert(front + name + seq!['.'] + ext =~= front + stamp + seq!['_'] + id
        + seq!['.', 'j', 's', 'o', 'n', 'l']);
    crate::text::law_split_at_separators(id, '_', stamp);
}

/// The sessions of a directory lie below the agent's, in one whose name is the path with
/// its separators made dashes.
pub proof fn law_sessions_lie_below_agent(dir: Seq<char>, cwd: Seq<char>, home: Option<Seq<char>>)
    requires
        dir.len() > 0,
        dir.last() != '/',
    ensures
        session_dir(cwd, home, Some(dir)) == dir + "/sessions/--"@ + slug_of(cwd) + "--"@,
        home matches Some(h) ==> session_dir(cwd, home, None) == h + "/.pi/agent/sessions/--"@
            + slug_of(cwd) + "--"@,
        cwd.len() > 0 && cwd[0] == '/' ==> slug_of(cwd) == slug_of(cwd.drop_first()),
        cwd.len() > 0 && cwd[0] != '/' && cwd[0] != '\\' ==> slug_of(cwd).len() == cwd.len()
            && forall|i: int|
            0 <= i < cwd.len() ==> #[trigger] slug_of(cwd)[i] == (if cwd[i] == '/' || cwd[i] == '\\'
                || cwd[i] == ':' {
                '-'
            } else {
                cwd[i]
            }),
{
    reveal_strlit("sessions");
    reveal_strlit("--");
    reveal_strlit("/sessions/--");
    reveal_strlit("/.pi/agent/sessions/--");
    reveal_strlit("/.pi/agent");
    let name = "--"@ + slug_of(cwd) + "--"@;
    assert("sessions"@[0] == 's' && name[0] == '-');
    assert("sessions"@.last() == 's');
    let base = dir + seq!['/'] + "sessions"@;
    assert(joined(dir, "sessions"@) == base);
    assert(base.last() == 's');
    assert(joined(base, name) == base + seq!['/'] + name);
    assert(seq!['/'] + "sessions"@ + seq!['/'] + "--"@ =~= "/sessions/--"@);
    assert(base + seq!['/'] + name =~= dir + "/sessions/--"@ + slug_of(cwd) + "--"@);
    if let Some(h) = home {
        let agent = h + "/.pi/agent"@;
        assert(agent.last() == "/.pi/agent"@.last());
        assert("/.pi/agent"@.last() == 't');
        let low = agent + seq!['/'] + "sessions"@;
        assert(joined(agent, "sessions"@) == low);
        assert(low.last() == 's');
        assert(low + seq!['/'] + name =~= h + "/.pi/agent/sessions/--"@ + slug_of(cwd) + "--"@);
    }
}

/// The label of a session is that of its first message of the user: what comes before it
/// is passed over, and nothing behind it counts.
pub proof fn law_first_user_message_labels(
    before: Seq<Seq<char>>,
    line: Seq<char>,
    rest: Seq<Seq<char>>,
    j: JsonV,
    m: JsonV,
)
    requires
        forall|i: int|
            #![trigger before[i]]
            0 <= i < before.len() ==> (json_parse(before[i]) matches Some(b) ==> b.text("type"@)
                != Some("message"@) || (b.get("message"@) matches Some(x) && x.text("role"@)
                != Some("user"@))),
        json_parse(line) == Some(j),
        j.text("type"@) == Some("message"@),
        j.get("message"@) == Some(m),
        m.text("role"@) == Some("user"@),
        trimmed(first_line(text_content(m))).len() > 0,
    ensures
        head_label(before + seq![line] + rest) == Some(label_text(text_content(m))),
    decreases before.len(),
{
    let all = before + seq![line] + rest;
    if before.len() > 0 {
        let less = before.drop_first();
        assert(all[0] == before[0]);
        assert(all.drop_first() =~= less + seq![line] + rest);
        assert forall|i: int| #![trigger less[i]] 0 <= i < less.len() implies (json_parse(less[i])
            matches Some(b) ==> b.text("type"@) != Some("message"@) || (b.get("message"@)
            matches Some(x) && x.text("role"@) != Some("user"@))) by {
            assert(less[i] == before[i + 1]);
        }
        law_first_user_message_labels(less, line, rest, j, m);
        assert(line_label(before[0]) is Skip);
    } else {
        assert(all[0] == line);
    }
}

/// A scanned file whose name holds an id is a session with that id, its own file, the
/// scanned directory and the label of its head; any other file is none.
pub proof fn law_scanned_files_are_sessions(
    paths: Seq<Seq<char>>,
    path: Seq<char>,
    heads: Seq<Option<Seq<u8>>>,
    cwd: Seq<char>,
)
    ensures
        ({
            let before = infos_of(paths, heads, cwd);
            let after = infos_of(paths.push(path), heads, cwd);
            &&& id_in_path(path) is None ==> after == before
            &&& id_in_path(path) matches Some(id) ==> after.len() == before.len() + 1
                && after.drop_last() == before && after.last().id == id && after.last().path == Some(
                path,
            ) && after.last().cwd == Some(cwd) && (paths.len() < heads.len() ==> (
            heads[paths.len() as int] matches Some(head) ==> (label_in(head) matches Some(label)
                ==> after.last().label == label)))
        }),
        infos_of(Seq::empty(), heads, cwd).len() == 0,
{
    assert(paths.push(path).drop_last() =~= paths);
    let after = infos_of(paths.push(path), heads, cwd);
    if id_in_path(path) is Some {
        assert(after.drop_last() =~= infos_of(paths, heads, cwd));
    }
}

/// When a file was changed, in nanoseconds.
pub open spec fn changed_at(f: FoundFileV) -> int {
    f.secs * 1000000000 + f.nanos
}

proof fn lemma_session_rows(files: Seq<FoundFileV>)
    ensures
        forall|k: int|
            #![trigger session_rows(files)[k]]
            0 <= k < session_rows(files).len() ==> {
                let r = session_rows(files)[k];
                &&& 0 <= r.index < files.len()
                &&& r.rank == -changed_at(files[r.index])
                &&& r.text.len() == 0
                &&& suffix(files[r.index].path) == Some("jsonl"@)
            },
        forall|i: int|
            0 <= i < files.len() && suffix((#[trigger] files[i]).path) == Some("jsonl"@)
                ==> session_rows(files).contains(
                RowV { rank: -changed_at(files[i]), text: Seq::empty(), index: i },
            ),
    decreases files.len(),
{
    if files.len() > 0 {
        let less = files.drop_last();
        lemma_session_rows(less);
        let before = session_rows(less);
        let all = session_rows(files);
        assert forall|k: int| #![trigger all[k]] 0 <= k < all.len() implies {
            let r = all[k];
            &&& 0 <= r.index < files.len()
            &&& r.rank == -changed_at(files[r.index])
            &&& r.text.len() == 0
            &&& suffix(files[r.index].path) == Some("jsonl"@)
        } by {
            if k < before.len() {
                assert(all[k] == before[k]);
                assert(less[before[k].index] == files[before[k].index]);
            }
        }
        assert forall|i: int| 0 <= i < files.len() && suffix((#[trigger] files[i]).path) == Some(
            "jsonl"@,
        ) implies all.contains(
            RowV { rank: -changed_at(files[i]), text: Seq::empty(), index: i },
        ) by {
            let r = RowV { rank: -changed_at(files[i]), text: Seq::empty(), index: i };
            if i < less.len() {
                assert(less[i] == files[i]);
                assert(before.contains(r));
                let k = before.index_of(r);
                assert(all[k] == r);
            } else {
                assert(all.last() == r);
            }
        }
    }
}

/// The newest session files are listed, newest first: of those found none is missing
/// unless the list is full, nothing but session files is listed, and no more than sixty.
pub proof fn law_newest_files_come_first(files: Seq<FoundFileV>)
    ensures
        newest(files).len() <= 60,
        forall|k: int|
            #![trigger newest(files)[k]]
            0 <= k < newest(files).len() ==> exists|i: int|
                #![trigger files[i]]
                0 <= i < files.len() && files[i].path == newest(files)[k] && suffix(files[i].path)
                    == Some("jsonl"@),
        forall|i: int|
            0 <= i < files.len() && suffix((#[trigger] files[i]).path) == Some("jsonl"@)
                && newest(files).len() < 60 ==> newest(files).contains(files[i].path),
        forall|a: int, b: int|
            #![trigger newest(files)[a], newest(files)[b]]
            0 <= a < b < newest(files).len() ==> exists|i: int, j: int|
                #![trigger files[i], files[j]]
                0 <= i < files.len() && 0 <= j < files.len() && files[i].path == newest(files)[a]
                    && files[j].path == newest(files)[b] && changed_at(files[i]) >= changed_at(
                    files[j],
                ),
{
    broadcast use vstd::multiset::group_multiset_axioms;

    lemma_session_rows(files);
    let rows = session_rows(files);
    let sorted = sorted_rows(rows);
    crate::order::law_sorted_rows(rows);
    rows.to_multiset_ensures();
    sorted.to_multiset_ensures();
    let out = newest(files);
    assert forall|k: int| #![trigger sorted[k]] 0 <= k < sorted.len() implies rows.contains(
        sorted[k],
    ) by {
        assert(sorted.contains(sorted[k]));
        assert(rows.to_multiset().count(sorted[k]) > 0);
    }
    assert forall|k: int| #![trigger out[k]] 0 <= k < out.len() implies exists|i: int|
        #![trigger files[i]]
        0 <= i < files.len() && files[i].path == out[k] && suffix(files[i].path) == Some("jsonl"@) by {
        assert(rows.contains(sorted[k]));
        let n = rows.index_of(sorted[k]);
        let i = rows[n].index;
        assert(files[i].path == out[k]);
    }
    assert forall|i: int| 0 <= i < files.len() && suffix((#[trigger] files[i]).path) == Some(
        "jsonl"@,
    ) && out.len() < 60 implies out.contains(files[i].path) by {
        let r = RowV { rank: -changed_at(files[i]), text: Seq::empty(), index: i };
        assert(rows.contains(r));
        assert(rows.to_multiset().count(r) > 0);
        assert(sorted.contains(r));
        let k = sorted.index_of(r);
        assert(out[k] == files[i].path);
    }
    assert forall|a: int, b: int|
        #![trigger out[a], out[b]]
        0 <= a < b < out.len() implies exists|i: int, j: int|
        #![trigger files[i], files[j]]
        0 <= i < files.len() && 0 <= j < files.len() && files[i].path == out[a] && files[j].path
            == out[b] && changed_at(files[i]) >= changed_at(files[j]) by {
        assert(rows.contains(sorted[a]));
        assert(rows.contains(sorted[b]));
        let m = rows.index_of(sorted[a]);
        let n = rows.index_of(sorted[b]);
        let i = rows[m].index;
        let j = rows[n].index;
        assert(crate::order::row_leq(sorted[a], sorted[b]));
        assert(files[i].path == out[a]);
        assert(files[j].path == out[b]);
    }
}

/// The label of a session is read from the lines of its file's head, if that is text.
pub proof fn law_label_is_read_from_head(head: Seq<u8>, text: Seq<char>)
    ensures
        text_of(head) == Some(text) ==> label_in(head) == head_label(lines_of(text)),
        text_of(head) is None && head.len() < 49152 ==> label_in(head) is None,
        head_label(Seq::empty()) is None,
{
}

/// Without a home directory the sessions lie below the root's.
pub proof fn law_sessions_without_home(cwd: Seq<char>)
    ensures
        session_dir(cwd, None, None) == session_dir(cwd, Some(seq!['/']), None),
{
    reveal_strlit("/");
    assert("/"@ =~= seq!['/']);
}

} // verus!
