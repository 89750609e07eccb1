//! Completion above the composer: what is being completed, fuzzy matching and
//! the highlighted row.

use vstd::prelude::*;
use vstd::string::*;
use vstd::utf8::encode_utf8;

use crate::order::{picked, sort_rows, sorted_rows, within, Row, RowV};
use crate::protocol::{CommandInfo, CommandInfoV};
use crate::text::{
    after_last, before_last_word, begins, chars_of, find, find_from, has_char, last_word,
    last_word_at, lemma_after_last, lemma_before_last_word, lemma_find_bounds,
    lemma_shift_last_word, lemma_words_last, lower, piece, strip_prefix, tail_after, to_lower,
    trim_end, words, words_of,
};

verus! {

broadcast use crate::model::group_views;

/// How many matches are kept.
pub const MAX_MATCHES: usize = 30;

/// How many rows are visible.
pub const MAX_VISIBLE: usize = 8;

/// How long, in bytes, a file query may be.
pub const MAX_QUERY: usize = 200;

/// Completion popup: `/` commands or `@` files.
#[allow(inconsistent_fields)]
#[derive(Debug, PartialEq)]
pub enum Popup {
    Slash {
        query: String,
        /// Indices into the command list.
        matches: Vec<usize>,
        active: usize,
    },
    At {
        query: String,
        /// Matching paths, relative to the session directory.
        matches: Vec<String>,
        active: usize,
    },
}

/// Model of [`Popup`].
#[allow(inconsistent_fields)]
pub enum PopupV {
    Slash { query: Seq<char>, matches: Seq<usize>, active: usize },
    At { query: Seq<char>, matches: Seq<Seq<char>>, active: usize },
}

impl DeepView for Popup {
    type V = PopupV;

    open spec fn deep_view(&self) -> PopupV {
        match self {
            Popup::Slash { query, matches, active } => PopupV::Slash {
                query: query@,
                matches: matches.deep_view(),
                active: *active,
            },
            Popup::At { query, matches, active } => PopupV::At {
                query: query@,
                matches: matches.deep_view(),
                active: *active,
            },
        }
    }
}

impl PopupV {
    /// How many matches there are.
    pub open spec fn len(self) -> nat {
        match self {
            PopupV::Slash { matches, .. } => matches.len(),
            PopupV::At { matches, .. } => matches.len(),
        }
    }

    /// Which match is highlighted.
    pub open spec fn active(self) -> int {
        match self {
            PopupV::Slash { active, .. } => active as int,
            PopupV::At { active, .. } => active as int,
        }
    }

    /// The popup with another match highlighted.
    pub open spec fn at(self, n: usize) -> PopupV {
        match self {
            PopupV::Slash { query, matches, .. } => PopupV::Slash { query, matches, active: n },
            PopupV::At { query, matches, .. } => PopupV::At { query, matches, active: n },
        }
    }

    /// The popup after moving the highlight by `delta`, around the ends.
    pub open spec fn moved(self, delta: int) -> PopupV {
        if self.len() == 0 {
            self
        } else {
            self.at(((self.active() + delta) % (self.len() as int)) as usize)
        }
    }
}

impl Popup {
    pub fn len(&self) -> (n: usize)
        ensures
            n == self.deep_view().len(),
    {
        match self {
            Popup::Slash { matches, .. } => matches.len(),
            Popup::At { matches, .. } => matches.len(),
        }
    }

    pub fn active(&self) -> (n: usize)
        ensures
            n == self.deep_view().active(),
    {
        match self {
            Popup::Slash { active, .. } => *active,
            Popup::At { active, .. } => *active,
        }
    }

    /// Moves the highlight by `delta`, around the ends.
    pub fn move_active(&mut self, delta: isize)
        ensures
            final(self).deep_view() == old(self).deep_view().moved(delta as int),
    {
        let len: usize = self.len();
        if len == 0 {
            return ;
        }
        let n: i128 = len as i128;
        let sum: i128 = self.active() as i128 + delta as i128;
        let next: usize = if sum >= 0 {
            (sum % n) as usize
        } else {
            let back: i128 = (-sum) % n;
            proof {
                vstd::arithmetic::div_mod::lemma_fundamental_div_mod(-(sum as int), n as int);
                let q = (-(sum as int)) / (n as int);
                assert(sum as int == (n as int) * (-q) - back as int) by (nonlinear_arith)
                    requires
                        -(sum as int) == (n as int) * q + back as int,
                ;
                if back == 0 {
                    vstd::arithmetic::div_mod::lemma_fundamental_div_mod_converse(
                        sum as int,
                        n as int,
                        -q,
                        0,
                    );
                } else {
                    assert((n as int) * (-q) - back as int == (n as int) * (-q - 1) + (n as int
                        - back as int)) by (nonlinear_arith);
                    vstd::arithmetic::div_mod::lemma_fundamental_div_mod_converse(
                        sum as int,
                        n as int,
                        -q - 1,
                        n as int - back as int,
                    );
                }
            }
            if back == 0 {
                0
            } else {
                (n - back) as usize
            }
        };
        match self {
            Popup::Slash { active, .. } => {
                *active = next;
            },
            Popup::At { active, .. } => {
                *active = next;
            },
        }
    }
}

// ── Fuzzy matching ──────────────────────────────────────────────────────────

/// The score of matching `needle` as a subsequence of `hay` from `at` on, taking
/// each character where it first occurs; `last` is where the one before stood.
/// A match counts 4, or 8 right behind the one before, less an eighth of its
/// position.
pub open spec fn score_from(
    needle: Seq<char>,
    hay: Seq<char>,
    at: int,
    last: Option<int>,
) -> Option<int>
    decreases needle.len(),
{
    if needle.len() == 0 {
        Some(0)
    } else {
        let idx = at + find(hay.skip(at), needle[0]);
        if idx >= hay.len() {
            None
        } else {
            let gain: int = (if last == Some(idx - 1) {
                8int
            } else {
                4int
            }) - idx / 8;
            match score_from(needle.drop_first(), hay, idx + 1, Some(idx)) {
                Some(rest) => Some(gain + rest),
                None => None,
            }
        }
    }
}

/// The characters of `needle` stand in `hay` at these places, in order, from `from`
/// on.
pub open spec fn stands_at(needle: Seq<char>, hay: Seq<char>, places: Seq<int>, from: int) -> bool {
    &&& places.len() == needle.len()
    &&& forall|i: int|
        0 <= i < places.len() ==> from <= #[trigger] places[i] < hay.len() && hay[places[i]]
            == needle[i]
    &&& forall|i: int, j: int| 0 <= i < j < places.len() ==> places[i] < places[j]
}

/// `needle` is a subsequence of `hay`.
pub open spec fn is_subsequence(needle: Seq<char>, hay: Seq<char>) -> bool {
    exists|places: Seq<int>| stands_at(needle, hay, places, 0)
}

/// How well `needle` matches `hay`, higher is better; nothing if it does not.
/// An empty needle matches everything alike. Shorter texts win ties.
pub open spec fn fuzzy(needle: Seq<char>, hay: Seq<char>) -> Option<int> {
    if needle.len() == 0 {
        Some(0)
    } else {
        match score_from(needle, hay, 0, None) {
            Some(s) => Some(s - hay.len() as int / 32),
            None => None,
        }
    }
}

/// How well `needle` matches `haystack` as a subsequence.
pub fn fuzzy_score(needle: &str, haystack: &str) -> (out: Option<i128>)
    ensures
        match out {
            Some(s) => fuzzy(needle@, haystack@) == Some(s as int),
            None => fuzzy(needle@, haystack@) is None,
        },
        out matches Some(s) ==> -0x4000_0000_0000_0000_0000_0000_0000_0000 < s
            < 0x4000_0000_0000_0000_0000_0000_0000_0000,
{
    let want = chars_of(needle);
    let hay = chars_of(haystack);
    if want.len() == 0 {
        return Some(0);
    }
    let mut score: i128 = 0;
    let mut at: usize = 0;
    let mut last: Option<usize> = None;
    let mut n: usize = 0;
    assert(want@.skip(0) =~= want@);
    while n < want.len()
        invariant
            want@ == needle@,
            hay@ == haystack@,
            n <= want@.len(),
            at <= hay@.len(),
            -(n * 0x2000_0000_0000_0000) <= score <= 8 * n,
            score_from(want@, hay@, 0, None) == match score_from(
                want@.skip(n as int),
                hay@,
                at as int,
                match last {
                    Some(l) => Some(l as int),
                    None => None,
                },
            ) {
                Some(rest) => Some(score + rest),
                None => None,
            },
            fuzzy(needle@, haystack@) == match score_from(want@, hay@, 0, None) {
                Some(s) => Some(s - hay@.len() as int / 32),
                None => None,
            },
        decreases want@.len() - n,
    {
        let idx: usize = find_from(&hay, at, want[n]);
        assert(want@.skip(n as int)[0] == want@[n as int]);
        assert(want@.skip(n as int).drop_first() =~= want@.skip(n + 1));
        if idx == hay.len() {
            return None;
        }
        let near = match last {
            Some(l) => idx > 0 && l == idx - 1,
            None => false,
        };
        let gain: i128 = if near {
            8
        } else {
            4
        };
        score = score + gain - (idx / 8) as i128;
        last = Some(idx);
        at = idx + 1;
        n += 1;
    }
    Some(score - (hay.len() / 32) as i128)
}

/// The commands that match, as rows to sort: best score first, then in list
/// order.
pub open spec fn command_rows(commands: Seq<CommandInfoV>, needle: Seq<char>) -> Seq<RowV>
    decreases commands.len(),
{
    if commands.len() == 0 {
        Seq::empty()
    } else {
        let before = command_rows(commands.drop_last(), needle);
        match fuzzy(needle, lower(commands.last().name)) {
            Some(s) => before.push(
                RowV { rank: -s, text: Seq::empty(), index: commands.len() - 1 },
            ),
            None => before,
        }
    }
}

/// The paths that match, as rows to sort: best score first, then by path.
pub open spec fn file_rows(files: Seq<Seq<char>>, needle: Seq<char>) -> Seq<RowV>
    decreases files.len(),
{
    if files.len() == 0 {
        Seq::empty()
    } else {
        let before = file_rows(files.drop_last(), needle);
        match fuzzy(needle, lower(files.last())) {
            Some(s) => before.push(RowV { rank: -s, text: files.last(), index: 0 }),
            None => before,
        }
    }
}

/// At most [`MAX_MATCHES`] rows, the first ones.
pub open spec fn top_rows(rows: Seq<RowV>) -> Seq<RowV> {
    let sorted = sorted_rows(rows);
    if sorted.len() <= MAX_MATCHES {
        sorted
    } else {
        sorted.take(MAX_MATCHES as int)
    }
}

/// The best matching commands, by index.
pub open spec fn command_matches(commands: Seq<CommandInfoV>, query: Seq<char>) -> Seq<usize> {
    top_rows(command_rows(commands, lower(query))).map_values(|r: RowV| r.index as usize)
}

/// The best matching paths.
pub open spec fn file_matches(files: Seq<Seq<char>>, query: Seq<char>) -> Seq<Seq<char>> {
    top_rows(file_rows(files, lower(query))).map_values(|r: RowV| r.text)
}

/// The indices of the first rows in order.
fn top(rows: &Vec<Row>) -> (out: Vec<usize>)
    ensures
        within(out@, rows@.len()),
        picked(rows.deep_view(), out@) == top_rows(rows.deep_view()),
{
    let mut order = sort_rows(rows);
    let ghost full = order@;
    let ghost v = rows.deep_view();
    assert(sorted_rows(v).len() == full.len());
    if order.len() > MAX_MATCHES {
        order.truncate(MAX_MATCHES);
        assert(picked(v, order@) =~= picked(v, full).take(MAX_MATCHES as int));
    }
    order
}

/// The best matching commands, by index.
pub fn match_commands(commands: &Vec<CommandInfo>, query: &str) -> (out: Vec<usize>)
    ensures
        out.deep_view() == command_matches(commands.deep_view(), query@),
{
    let needle = to_lower(query);
    let ghost all = commands.deep_view();
    let mut rows: Vec<Row> = Vec::new();
    let mut i: usize = 0;
    assert(all.take(0) =~= Seq::empty());
    while i < commands.len()
        invariant
            i <= commands@.len(),
            all == commands.deep_view(),
            needle@ == lower(query@),
            rows.deep_view() == command_rows(all.take(i as int), needle@),
        decreases commands@.len() - i,
    {
        assert(all.take(i + 1).drop_last() =~= all.take(i as int));
        assert(all.take(i + 1).last() == commands@[i as int].deep_view());
        if let Some(s) = fuzzy_score(
            needle.as_str(),
            to_lower(commands[i].name.as_str()).as_str(),
        ) {
            let text = String::new();
            assert(text@ =~= Seq::empty());
            rows.push(Row { rank: -s, text, index: i });
        }
        i += 1;
    }
    assert(all.take(i as int) =~= all);
    let order = top(&rows);
    let ghost best = top_rows(rows.deep_view());
    let mut out: Vec<usize> = Vec::new();
    let mut k: usize = 0;
    while k < order.len()
        invariant
            k <= order@.len(),
            within(order@, rows@.len()),
            best == picked(rows.deep_view(), order@),
            out@.len() == k,
            forall|m: int| 0 <= m < k ==> #[trigger] out@[m] == best[m].index as usize,
        decreases order@.len() - k,
    {
        assert(best[k as int] == rows@[order@[k as int] as int].deep_view());
        out.push(rows[order[k]].index);
        k += 1;
    }
    assert(out.deep_view() =~= command_matches(commands.deep_view(), query@));
    out
}

/// The best matching paths.
pub fn match_files(files: &Vec<String>, query: &str) -> (out: Vec<String>)
    ensures
        out.deep_view() == file_matches(files.deep_view(), query@),
{
    let needle = to_lower(query);
    let ghost all = files.deep_view();
    let mut rows: Vec<Row> = Vec::new();
    let mut i: usize = 0;
    assert(all.take(0) =~= Seq::empty());
    while i < files.len()
        invariant
            i <= files@.len(),
            all == files.deep_view(),
            needle@ == lower(query@),
            rows.deep_view() == file_rows(all.take(i as int), needle@),
        decreases files@.len() - i,
    {
        assert(all.take(i + 1).drop_last() =~= all.take(i as int));
        assert(all.take(i + 1).last() == files@[i as int]@);
        if let Some(s) = fuzzy_score(needle.as_str(), to_lower(files[i].as_str()).as_str()) {
            rows.push(Row { rank: -s, text: files[i].clone(), index: 0 });
        }
        i += 1;
    }
    assert(all.take(i as int) =~= all);
    let order = top(&rows);
    let ghost best = top_rows(rows.deep_view());
    let mut out: Vec<String> = Vec::new();
    let mut k: usize = 0;
    while k < order.len()
        invariant
            k <= order@.len(),
            within(order@, rows@.len()),
            best == picked(rows.deep_view(), order@),
            out@.len() == k,
            forall|m: int| 0 <= m < k ==> (#[trigger] out@[m])@ == best[m].text,
        decreases order@.len() - k,
    {
        assert(best[k as int] == rows@[order@[k as int] as int].deep_view());
        out.push(rows[order[k]].text.clone());
        k += 1;
    }
    assert(out.deep_view() =~= file_matches(files.deep_view(), query@));
    out
}

// ── What is being completed ─────────────────────────────────────────────────

/// What the composer text asks to complete.
#[derive(Debug, PartialEq)]
pub enum Completion {
    /// A slash command: the last line begins with `/` and has no space yet.
    Slash(String),
    /// A file: the last word begins with `@`.
    At(String),
    Nothing,
}

/// Model of [`Completion`].
pub enum CompletionV {
    Slash(Seq<char>),
    At(Seq<char>),
    Nothing,
}

impl DeepView for Completion {
    type V = CompletionV;

    open spec fn deep_view(&self) -> CompletionV {
        match self {
            Completion::Slash(q) => CompletionV::Slash(q@),
            Completion::At(q) => CompletionV::At(q@),
            Completion::Nothing => CompletionV::Nothing,
        }
    }
}

/// The command query of a line, if it asks for a command.
pub open spec fn slash_query(line: Seq<char>) -> Option<Seq<char>> {
    if begins(line, "/"@) {
        let q = line.skip("/"@.len() as int);
        if !q.contains(' ') && !q.contains('\t') {
            Some(q)
        } else {
            None
        }
    } else {
        None
    }
}

/// The file query of a line, if its last word asks for a file.
pub open spec fn at_query(line: Seq<char>) -> Option<Seq<char>> {
    let w = words_of(line);
    if w.len() > 0 && begins(w.last(), "@"@) {
        let q = w.last().skip("@"@.len() as int);
        if !q.contains('"') && encode_utf8(q).len() < MAX_QUERY {
            Some(q)
        } else {
            None
        }
    } else {
        None
    }
}

/// What the composer text asks to complete.
pub open spec fn completion_of(text: Seq<char>) -> CompletionV {
    let line = after_last(text, '\n');
    match slash_query(line) {
        Some(q) => CompletionV::Slash(q),
        None => match at_query(line) {
            Some(q) => CompletionV::At(q),
            None => CompletionV::Nothing,
        },
    }
}

/// What the composer text asks to complete.
pub fn completion(text: &str) -> (out: Completion)
    ensures
        out.deep_view() == completion_of(text@),
{
    let line = tail_after(text, '\n');
    if let Some(q) = strip_prefix(line.as_str(), "/") {
        if !has_char(q.as_str(), ' ') && !has_char(q.as_str(), '\t') {
            return Completion::Slash(q);
        }
    }
    let w = words(line.as_str());
    let ghost all = w.deep_view();
    if w.len() > 0 {
        let last: usize = w.len() - 1;
        assert(all.last() == w@[last as int]@);
        if let Some(q) = strip_prefix(w[last].as_str(), "@") {
            let size: usize = q.as_str().as_bytes().len();
            if !has_char(q.as_str(), '"') && size < MAX_QUERY {
                return Completion::At(q);
            }
        }
    }
    Completion::Nothing
}

/// The selected part of a text of this length; it is empty at the cursor.
pub open spec fn selected(caret: (usize, usize), len: nat) -> (int, int) {
    let from = if caret.0 <= len {
        caret.0 as int
    } else {
        len as int
    };
    let to = if caret.1 <= from {
        from
    } else if caret.1 <= len {
        caret.1 as int
    } else {
        len as int
    };
    (from, to)
}

/// What a chosen file replaces: the word that asks for it, if the caret is in it
/// or behind it, and else what is selected.
pub open spec fn file_span(text: Seq<char>, caret: (usize, usize)) -> (int, int) {
    let (from, to) = selected(caret, text.len());
    let start = before_last_word(text).len() as int;
    let end = trim_end(text).len() as int;
    if completion_of(text) is At && from > start {
        (
            start,
            if to < end {
                end
            } else {
                to
            },
        )
    } else {
        (from, to)
    }
}

/// A text with a part replaced, and the caret behind what was put in.
pub open spec fn replaced_span(text: Seq<char>, span: (int, int), by: Seq<char>) -> (
    Seq<char>,
    (usize, usize),
) {
    let head = text.take(span.0) + by;
    (head + text.skip(span.1), (head.len() as usize, head.len() as usize))
}

/// The composer after a file was chosen: it stands there as `@path `.
pub open spec fn with_file(text: Seq<char>, caret: (usize, usize), path: Seq<char>) -> (
    Seq<char>,
    (usize, usize),
) {
    replaced_span(text, file_span(text, caret), "@"@ + path + " "@)
}

/// The composer after a text was pasted.
pub open spec fn with_paste(text: Seq<char>, caret: (usize, usize), pasted: Seq<char>) -> (
    Seq<char>,
    (usize, usize),
) {
    replaced_span(text, selected(caret, text.len()), pasted)
}

fn clamp(caret: (usize, usize), len: usize) -> (out: (usize, usize))
    ensures
        (out.0 as int, out.1 as int) == selected(caret, len as nat),
        out.0 <= out.1 <= len,
{
    let from: usize = if caret.0 <= len {
        caret.0
    } else {
        len
    };
    let to: usize = if caret.1 <= from {
        from
    } else if caret.1 <= len {
        caret.1
    } else {
        len
    };
    (from, to)
}

fn replace_span(v: &Vec<char>, from: usize, to: usize, by: &str) -> (out: (String, (usize, usize)))
    requires
        from <= to <= v@.len(),
    ensures
        (out.0@, out.1) == replaced_span(v@, (from as int, to as int), by@),
{
    let mut text = piece(v, 0, from);
    assert(text@ =~= v@.take(from as int));
    text.append(by);
    let end: usize = chars_of(text.as_str()).len();
    let rest = piece(v, to, v.len());
    assert(rest@ =~= v@.skip(to as int));
    text.append(rest.as_str());
    (text, (end, end))
}

/// The composer after a file was chosen.
pub fn insert_file(text: &str, caret: (usize, usize), path: &str) -> (out: (String, (usize, usize)))
    ensures
        (out.0@, out.1) == with_file(text@, caret, path@),
{
    let v = chars_of(text);
    let (from, to) = clamp(caret, v.len());
    let (start, end) = last_word(&v);
    assert(before_last_word(text@).len() == start);
    assert(trim_end(text@).len() == end);
    let asked = match completion(text) {
        Completion::At(_) => true,
        _ => false,
    };
    let mut word = "@".to_owned();
    word.append(path);
    word.append(" ");
    if asked && from > start {
        let to: usize = if to < end {
            end
        } else {
            to
        };
        replace_span(&v, start, to, word.as_str())
    } else {
        replace_span(&v, from, to, word.as_str())
    }
}

/// The composer after a text was pasted.
pub fn insert_paste(text: &str, caret: (usize, usize), pasted: &str) -> (out: (
    String,
    (usize, usize),
))
    ensures
        (out.0@, out.1) == with_paste(text@, caret, pasted@),
{
    let v = chars_of(text);
    let (from, to) = clamp(caret, v.len());
    replace_span(&v, from, to, pasted)
}

// ── Laws ────────────────────────────────────────────────────────────────────

/// Where the word that asks for a file stands: it is the last one, on the last line.
pub proof fn lemma_asking_word(text: Seq<char>) -> (at: (int, int))
    requires
        completion_of(text) is At,
    ensures
        last_word_at(text, at.0, at.1),
        before_last_word(text) == text.take(at.0),
        trim_end(text) == text.take(at.1),
        text.subrange(at.0, at.1) == "@"@ + completion_of(text)->At_0,
        forall|k: int| at.0 <= k < text.len() ==> text[k] != '\n',
{
    let line = after_last(text, '\n');
    let at = lemma_after_last(text, '\n');
    let (i, j) = lemma_words_last(line);
    lemma_shift_last_word(text, at, i, j);
    lemma_before_last_word(text, i + at, j + at);
    assert(words_of(line).last() =~= "@"@ + completion_of(text)->At_0);
    (i + at, j + at)
}

/// The word that a chosen file replaces is the one that asked for it; the text
/// before it stays.
pub proof fn law_chosen_file_replaces_query(text: Seq<char>, caret: (usize, usize), path: Seq<char>)
    requires
        completion_of(text) is At,
        selected(caret, text.len()).0 > before_last_word(text).len(),
    ensures
        trim_end(text) == before_last_word(text) + "@"@ + completion_of(text)->At_0,
        with_file(text, caret, path).0 == before_last_word(text) + "@"@ + path + " "@ + text.skip(
            file_span(text, caret).1,
        ),
        trim_end(text).len() <= file_span(text, caret).1 <= text.len(),
{
    let (i, j) = lemma_asking_word(text);
    let q = completion_of(text)->At_0;
    assert(text.take(j) =~= text.take(i) + text.subrange(i, j));
    assert(text.take(i) + ("@"@ + q) =~= text.take(i) + "@"@ + q);
    assert(with_file(text, caret, path).0 =~= before_last_word(text) + "@"@ + path + " "@
        + text.skip(file_span(text, caret).1));
}

/// A file chosen while the caret is elsewhere is inserted there, in place of what
/// is selected; everything else stays.
pub proof fn law_chosen_file_is_inserted_at_caret(
    text: Seq<char>,
    caret: (usize, usize),
    path: Seq<char>,
)
    requires
        completion_of(text) is At ==> selected(caret, text.len()).0 <= before_last_word(
            text,
        ).len(),
    ensures
        ({
            let (from, to) = selected(caret, text.len());
            with_file(text, caret, path).0 == text.take(from) + "@"@ + path + " "@ + text.skip(to)
        }),
{
    let (from, to) = selected(caret, text.len());
    assert(with_file(text, caret, path).0 =~= text.take(from) + "@"@ + path + " "@ + text.skip(to));
}

proof fn lemma_score_places(needle: Seq<char>, hay: Seq<char>, at: int, last: Option<int>) -> (places:
    Seq<int>)
    requires
        0 <= at <= hay.len(),
        score_from(needle, hay, at, last) is Some,
    ensures
        stands_at(needle, hay, places, at),
    decreases needle.len(),
{
    if needle.len() == 0 {
        Seq::empty()
    } else {
        lemma_find_bounds(hay.skip(at), needle[0]);
        let idx = at + find(hay.skip(at), needle[0]);
        let rest = lemma_score_places(needle.drop_first(), hay, idx + 1, Some(idx));
        let places = seq![idx] + rest;
        assert forall|i: int| 0 <= i < places.len() implies at <= #[trigger] places[i] < hay.len()
            && hay[places[i]] == needle[i] by {
            if i > 0 {
                assert(places[i] == rest[i - 1]);
                assert(needle[i] == needle.drop_first()[i - 1]);
            }
        }
        assert forall|i: int, j: int| 0 <= i < j < places.len() implies places[i] < places[j] by {
            assert(places[j] == rest[j - 1]);
            if i > 0 {
                assert(places[i] == rest[i - 1]);
            }
        }
        places
    }
}

proof fn lemma_places_score(
    needle: Seq<char>,
    hay: Seq<char>,
    at: int,
    last: Option<int>,
    places: Seq<int>,
)
    requires
        0 <= at <= hay.len(),
        stands_at(needle, hay, places, at),
    ensures
        score_from(needle, hay, at, last) is Some,
    decreases needle.len(),
{
    if needle.len() > 0 {
        let first = places[0];
        lemma_find_bounds(hay.skip(at), needle[0]);
        let found = find(hay.skip(at), needle[0]);
        assert(hay.skip(at)[first - at] == needle[0]);
        assert(found <= first - at);
        let idx = at + found;
        let rest = places.drop_first();
        assert forall|i: int| 0 <= i < rest.len() implies idx + 1 <= #[trigger] rest[i] < hay.len()
            && hay[rest[i]] == needle.drop_first()[i] by {
            assert(rest[i] == places[i + 1]);
            assert(places[0] < places[i + 1]);
        }
        assert forall|i: int, j: int| 0 <= i < j < rest.len() implies rest[i] < rest[j] by {
            assert(places[i + 1] < places[j + 1]);
        }
        lemma_places_score(needle.drop_first(), hay, idx + 1, Some(idx), rest);
    }
}

/// A query matches if and only if it is a subsequence.
pub proof fn law_match_is_subsequence(needle: Seq<char>, hay: Seq<char>)
    ensures
        fuzzy(needle, hay) is Some <==> is_subsequence(needle, hay),
{
    if fuzzy(needle, hay) is Some {
        if needle.len() == 0 {
            assert(stands_at(needle, hay, Seq::empty(), 0));
        } else {
            let places = lemma_score_places(needle, hay, 0, None);
            assert(stands_at(needle, hay, places, 0));
        }
    }
    if is_subsequence(needle, hay) {
        let places = choose|places: Seq<int>| stands_at(needle, hay, places, 0);
        lemma_places_score(needle, hay, 0, None, places);
    }
}

/// Moving the highlight down and up again, or up and down, leaves it where it
/// was.
pub proof fn law_move_and_back(popup: PopupV, delta: int)
    requires
        popup.active() < popup.len(),
        popup.len() <= usize::MAX,
    ensures
        popup.moved(delta).moved(-delta) == popup,
{
    let n = popup.len() as int;
    let a = popup.active();
    let m = (a + delta) % n;
    vstd::arithmetic::div_mod::lemma_fundamental_div_mod(a + delta, n);
    let q = (a + delta) / n;
    assert(m - delta == n * (-q) + a) by (nonlinear_arith)
        requires
            a + delta == n * q + m,
    ;
    vstd::arithmetic::div_mod::lemma_fundamental_div_mod_converse(m - delta, n, -q, a);
    assert(popup.moved(delta).active() == m);
}

/// The highlight stays on a match.
pub proof fn law_move_stays_inside(popup: PopupV, delta: int)
    requires
        popup.len() > 0,
        popup.len() <= usize::MAX,
    ensures
        0 <= popup.moved(delta).active() < popup.moved(delta).len(),
{
    vstd::arithmetic::div_mod::lemma_mod_bound(popup.active() + delta, popup.len() as int);
}

/// Below the last match comes the first, above the first the last.
pub proof fn law_move_wraps(popup: PopupV)
    requires
        popup.len() > 0,
        popup.len() <= usize::MAX,
    ensures
        popup.active() == popup.len() - 1 ==> popup.moved(1).active() == 0,
        popup.active() == 0 ==> popup.moved(-1).active() == popup.len() - 1,
{
    let n = popup.len() as int;
    assert(n % n == 0) by (nonlinear_arith)
        requires
            n > 0,
    ;
    assert((0int - 1) % n == n - 1) by (nonlinear_arith)
        requires
            n > 0,
    ;
}

// ── Laws of matching ────────────────────────────────────────────────────────

/// A match scores by where its characters stand: the closer to the front the better, and
/// better still right behind the one before; a longer text scores a little less.
pub proof fn law_score_follows_places(
    front: Seq<char>,
    a: char,
    mid: Seq<char>,
    b: char,
    rest: Seq<char>,
)
    requires
        !front.contains(a),
        !mid.contains(b),
    ensures
        ({
            let hay = front + seq![a] + mid + seq![b] + rest;
            let n = front.len() as int;
            let m = n + 1 + mid.len();
            &&& fuzzy(seq![a], hay) == Some(4 - n / 8 - hay.len() as int / 32)
            &&& fuzzy(seq![a, b], hay) == Some(
                4 - n / 8 + (if mid.len() == 0 {
                    8int
                } else {
                    4int
                }) - m / 8 - hay.len() as int / 32,
            )
        }),
{
    let hay = front + seq![a] + mid + seq![b] + rest;
    let n = front.len() as int;
    let m = n + 1 + mid.len() as int;
    assert(hay.skip(0) =~= hay);
    lemma_found_at(hay, a, n, 0);
    let back = hay.skip(n + 1);
    lemma_found_at(hay, b, m, n + 1);
    let one = seq![a];
    let two = seq![a, b];
    assert(one.drop_first() =~= Seq::empty());
    assert(two.drop_first() =~= seq![b]);
    assert(seq![b].drop_first() =~= Seq::empty());
    reveal_with_fuel(score_from, 3);
    assert(score_from(one, hay, 0, None) == Some(4 - n / 8));
    assert(score_from(seq![b], hay, n + 1, Some(n)) == Some(
        (if m - 1 == n {
            8int
        } else {
            4int
        }) - m / 8,
    ));
}

proof fn lemma_found_at(hay: Seq<char>, c: char, at: int, from: int)
    requires
        0 <= from <= at < hay.len(),
        hay[at] == c,
        forall|i: int| from <= i < at ==> hay[i] != c,
    ensures
        from + find(hay.skip(from), c) == at,
{
    let s = hay.skip(from);
    lemma_find_bounds(s, c);
    assert(s[at - from] == c);
    assert forall|i: int| 0 <= i < at - from implies s[i] != c by {
        assert(s[i] == hay[i + from]);
    }
}

proof fn lemma_file_rows(files: Seq<Seq<char>>, needle: Seq<char>)
    ensures
        forall|k: int|
            #![trigger file_rows(files, needle)[k]]
            0 <= k < file_rows(files, needle).len() ==> {
                let r = file_rows(files, needle)[k];
                &&& files.contains(r.text)
                &&& fuzzy(needle, lower(r.text)) == Some(-r.rank)
            },
        forall|i: int|
            0 <= i < files.len() && fuzzy(needle, lower(#[trigger] files[i])) is Some ==> file_rows(
                files,
                needle,
            ).contains(
                RowV { rank: -(fuzzy(needle, lower(files[i]))->0), text: files[i], index: 0 },
            ),
    decreases files.len(),
{
    if files.len() > 0 {
        let less = files.drop_last();
        lemma_file_rows(less, needle);
        let before = file_rows(less, needle);
        let all = file_rows(files, needle);
        assert forall|k: int| #![trigger all[k]] 0 <= k < all.len() implies {
            let r = all[k];
            &&& files.contains(r.text)
            &&& fuzzy(needle, lower(r.text)) == Some(-r.rank)
        } by {
            if k < before.len() {
                assert(all[k] == before[k]);
                let i = less.index_of(before[k].text);
                assert(files[i] == before[k].text);
            } else {
                assert(files.contains(files.last()));
            }
        }
        assert forall|i: int| 0 <= i < files.len() && fuzzy(
            needle,
            lower(#[trigger] files[i]),
        ) is Some implies all.contains(
            RowV { rank: -(fuzzy(needle, lower(files[i]))->0), text: files[i], index: 0 },
        ) by {
            let r = RowV { rank: -(fuzzy(needle, lower(files[i]))->0), text: files[i], index: 0 };
            if i < less.len() {
                assert(less[i] == files[i]);
                assert(before.contains(r));
                let k = before.index_of(r);
                assert(all[k] == r);
            } else {
                assert(all.last() == r);
            }
        }
    }
}

proof fn lemma_top_rows(rows: Seq<RowV>)
    ensures
        top_rows(rows).len() <= 30,
        top_rows(rows).len() < 30 ==> top_rows(rows).len() == rows.len(),
        forall|k: int| 0 <= k < top_rows(rows).len() ==> rows.contains(#[trigger] top_rows(rows)[k]),
        forall|i: int|
            0 <= i < rows.len() && top_rows(rows).len() < 30 ==> top_rows(rows).contains(
                #[trigger] rows[i],
            ),
        forall|a: int, b: int|
            0 <= a < b < top_rows(rows).len() ==> crate::order::row_leq(
                #[trigger] top_rows(rows)[a],
                #[trigger] top_rows(rows)[b],
            ),
{
    broadcast use vstd::multiset::group_multiset_axioms;

    let sorted = sorted_rows(rows);
    crate::order::law_sorted_rows(rows);
    rows.to_multiset_ensures();
    sorted.to_multiset_ensures();
    let out = top_rows(rows);
    assert forall|k: int| 0 <= k < out.len() implies rows.contains(#[trigger] out[k]) by {
        assert(out[k] == sorted[k]);
        assert(sorted.contains(sorted[k]));
        assert(rows.to_multiset().count(sorted[k]) > 0);
    }
    assert forall|i: int| 0 <= i < rows.len() && out.len() < 30 implies out.contains(
        #[trigger] rows[i],
    ) by {
        assert(rows.contains(rows[i]));
        assert(sorted.to_multiset().count(rows[i]) > 0);
        assert(sorted.contains(rows[i]));
    }
}

/// The files shown are those that match the query, whatever the case: none that does not,
/// none missing unless there are thirty, and the best match first, in the order of the
/// paths where they match alike.
pub proof fn law_matching_files_are_shown(files: Seq<Seq<char>>, query: Seq<char>)
    ensures
        ({
            let out = file_matches(files, query);
            let score = |f: Seq<char>| fuzzy(lower(query), lower(f));
            &&& out.len() <= 30
            &&& forall|k: int|
                0 <= k < out.len() ==> files.contains(#[trigger] out[k]) && score(out[k]) is Some
            &&& out.len() < 30 ==> forall|i: int|
                0 <= i < files.len() && score(#[trigger] files[i]) is Some ==> out.contains(files[i])
            &&& forall|a: int, b: int|
                0 <= a < b < out.len() ==> score(#[trigger] out[a])->0 > score(
                    #[trigger] out[b],
                )->0 || (score(out[a])->0 == score(out[b])->0 && (crate::text::text_less(
                    out[a],
                    out[b],
                ) || out[a] == out[b]))
        }),
{
    let needle = lower(query);
    let rows = file_rows(files, needle);
    lemma_file_rows(files, needle);
    lemma_top_rows(rows);
    let top = top_rows(rows);
    let out = file_matches(files, query);
    let score = |f: Seq<char>| fuzzy(lower(query), lower(f));
    assert forall|k: int| 0 <= k < top.len() implies files.contains((#[trigger] top[k]).text)
        && fuzzy(needle, lower(top[k].text)) == Some(-top[k].rank) by {
        assert(rows.contains(top[k]));
        let n = rows.index_of(top[k]);
        assert(rows[n] == top[k]);
    }
    assert forall|k: int| 0 <= k < out.len() implies files.contains(#[trigger] out[k]) && score(
        out[k],
    ) is Some by {
        assert(out[k] == top[k].text);
    }
    if out.len() < 30 {
        assert forall|i: int| 0 <= i < files.len() && score(
            #[trigger] files[i],
        ) is Some implies out.contains(files[i]) by {
            let r = RowV { rank: -(fuzzy(needle, lower(files[i]))->0), text: files[i], index: 0 };
            assert(rows.contains(r));
            let n = rows.index_of(r);
            assert(top.contains(rows[n]));
            let k = top.index_of(r);
            assert(out[k] == files[i]);
        }
    }
    assert forall|a: int, b: int| 0 <= a < b < out.len() implies score(#[trigger] out[a])->0 > score(
        #[trigger] out[b],
    )->0 || (score(out[a])->0 == score(out[b])->0 && (crate::text::text_less(out[a], out[b])
        || out[a] == out[b])) by {
        assert(out[a] == top[a].text && out[b] == top[b].text);
        assert(crate::order::row_leq(top[a], top[b]));
    }
}

proof fn lemma_command_rows(commands: Seq<CommandInfoV>, needle: Seq<char>)
    ensures
        forall|k: int|
            #![trigger command_rows(commands, needle)[k]]
            0 <= k < command_rows(commands, needle).len() ==> {
                let r = command_rows(commands, needle)[k];
                &&& 0 <= r.index < commands.len()
                &&& r.text.len() == 0
                &&& fuzzy(needle, lower(commands[r.index].name)) == Some(-r.rank)
            },
        forall|i: int|
            0 <= i < commands.len() && fuzzy(needle, lower((#[trigger] commands[i]).name)) is Some
                ==> command_rows(commands, needle).contains(
                RowV {
                    rank: -(fuzzy(needle, lower(commands[i].name))->0),
                    text: Seq::empty(),
                    index: i,
                },
            ),
    decreases commands.len(),
{
    if commands.len() > 0 {
        let less = commands.drop_last();
        lemma_command_rows(less, needle);
        let before = command_rows(less, needle);
        let all = command_rows(commands, needle);
        assert forall|k: int| #![trigger all[k]] 0 <= k < all.len() implies {
            let r = all[k];
            &&& 0 <= r.index < commands.len()
            &&& r.text.len() == 0
            &&& fuzzy(needle, lower(commands[r.index].name)) == Some(-r.rank)
        } by {
            if k < before.len() {
                assert(all[k] == before[k]);
                assert(less[before[k].index] == commands[before[k].index]);
            }
        }
        assert forall|i: int| 0 <= i < commands.len() && fuzzy(
            needle,
            lower((#[trigger] commands[i]).name),
        ) is Some implies all.contains(
            RowV {
                rank: -(fuzzy(needle, lower(commands[i].name))->0),
                text: Seq::empty(),
                index: i,
            },
        ) by {
            let r = RowV {
                rank: -(fuzzy(needle, lower(commands[i].name))->0),
                text: Seq::empty(),
                index: i,
            };
            if i < less.len() {
                assert(less[i] == commands[i]);
                assert(before.contains(r));
                let k = before.index_of(r);
                assert(all[k] == r);
            } else {
                assert(all.last() == r);
            }
        }
    }
}

/// The commands shown are those whose names match the query, whatever the case: none that
/// does not, none missing unless there are thirty, and the best match first, in the order
/// of the list where they match alike.
pub proof fn law_matching_commands_are_shown(commands: Seq<CommandInfoV>, query: Seq<char>)
    requires
        commands.len() <= usize::MAX,
    ensures
        ({
            let out = command_matches(commands, query);
            let score = |i: int| fuzzy(lower(query), lower(commands[i].name));
            &&& out.len() <= 30
            &&& forall|k: int|
                0 <= k < out.len() ==> (#[trigger] out[k]) < commands.len() && score(
                    out[k] as int,
                ) is Some
            &&& out.len() < 30 ==> forall|i: int|
                0 <= i < commands.len() && #[trigger] score(i) is Some ==> out.contains(i as usize)
            &&& forall|a: int, b: int|
                0 <= a < b < out.len() ==> score(#[trigger] out[a] as int)->0 > score(
                    #[trigger] out[b] as int,
                )->0 || (score(out[a] as int)->0 == score(out[b] as int)->0 && out[a] <= out[b])
        }),
{
    let needle = lower(query);
    let rows = command_rows(commands, needle);
    lemma_command_rows(commands, needle);
    lemma_top_rows(rows);
    let top = top_rows(rows);
    let out = command_matches(commands, query);
    let score = |i: int| fuzzy(lower(query), lower(commands[i].name));
    assert forall|k: int| 0 <= k < top.len() implies 0 <= (#[trigger] top[k]).index < commands.len()
        && top[k].text.len() == 0 && score(top[k].index) == Some(-top[k].rank) by {
        assert(rows.contains(top[k]));
        let n = rows.index_of(top[k]);
        assert(rows[n] == top[k]);
    }
    assert forall|k: int| 0 <= k < out.len() implies (#[trigger] out[k]) < commands.len() && score(
        out[k] as int,
    ) is Some by {
        assert(out[k] == top[k].index);
    }
    if out.len() < 30 {
        assert forall|i: int| 0 <= i < commands.len() && #[trigger] score(
            i,
        ) is Some implies out.contains(i as usize) by {
            assert(fuzzy(needle, lower(commands[i].name)) is Some);
            let r = RowV {
                rank: -(fuzzy(needle, lower(commands[i].name))->0),
                text: Seq::empty(),
                index: i,
            };
            assert(rows.contains(r));
            let n = rows.index_of(r);
            assert(top.contains(rows[n]));
            let k = top.index_of(r);
            assert(out[k] == i as usize);
        }
    }
    assert forall|a: int, b: int| 0 <= a < b < out.len() implies score(
        #[trigger] out[a] as int,
    )->0 > score(#[trigger] out[b] as int)->0 || (score(out[a] as int)->0 == score(
        out[b] as int,
    )->0 && out[a] <= out[b]) by {
        assert(out[a] == top[a].index && out[b] == top[b].index);
        assert(crate::order::row_leq(top[a], top[b]));
        assert(top[a].text =~= top[b].text);
        if crate::text::text_less(top[a].text, top[b].text) {
            assert(top[b].text.len() == 0);
        }
    }
}

/// A last line that is a slash and one word asks for a command of that name; one whose
/// last word begins with an at sign asks for a file; nothing else asks for anything.
pub proof fn law_last_line_asks(front: Seq<char>, line: Seq<char>, query: Seq<char>)
    requires
        front.len() > 0 ==> front.last() == '\n',
        !line.contains('\n'),
    ensures
        line == seq!['/'] + query && !query.contains(' ') && !query.contains('\t') ==> completion_of(
            front + line,
        ) == CompletionV::Slash(query),
        (line.len() == 0 || line[0] != '/') && words_of(line).len() > 0 && words_of(line).last()
            == seq!['@'] + query && !query.contains('"') && encode_utf8(query).len() < 200
            ==> completion_of(front + line) == CompletionV::At(query),
        (line.len() == 0 || line[0] != '/') && (words_of(line).len() == 0
            || words_of(line).last().len() == 0 || words_of(line).last()[0] != '@')
            ==> completion_of(front + line) is Nothing,
{
    reveal_strlit("/");
    reveal_strlit("@");
    assert("/"@ =~= seq!['/']);
    assert("@"@ =~= seq!['@']);
    let text = front + line;
    let at = lemma_after_last(text, '\n');
    if at < front.len() {
        assert(text[front.len() - 1] == front.last());
    } else if at > front.len() {
        assert(text[at - 1] == line[at - 1 - front.len()]);
        assert(line.contains(line[at - 1 - front.len()]));
    }
    assert(text.skip(front.len() as int) =~= line);
    assert(after_last(text, '\n') == line);
    if line == seq!['/'] + query {
        assert(line.take(1) =~= seq!['/']);
        assert(line.skip(1) =~= query);
    }
    if line.len() > 0 && line[0] != '/' {
        assert(line.take(1)[0] == line[0]);
        assert(seq!['/'][0] == '/');
    }
    if words_of(line).len() > 0 {
        let w = words_of(line).last();
        if w == seq!['@'] + query {
            assert(w.take(1) =~= seq!['@']);
            assert(w.skip(1) =~= query);
        }
        if w.len() > 0 && w[0] != '@' {
            assert(w.take(1)[0] == w[0]);
            assert(seq!['@'][0] == '@');
        }
    }
}

/// The highlight moves by as many rows as it is told, as far as there are rows, and the
/// matches stay.
pub proof fn law_highlight_moves_as_told(popup: PopupV, delta: int)
    requires
        0 <= popup.active() + delta < popup.len(),
        popup.len() <= usize::MAX,
    ensures
        popup.moved(delta).active() == popup.active() + delta,
        popup.moved(delta).len() == popup.len(),
        match (popup, popup.moved(delta)) {
            (
                PopupV::Slash { query, matches, .. },
                PopupV::Slash { query: q, matches: m, .. },
            ) => q == query && m == matches,
            (
                PopupV::At { query, matches, .. },
                PopupV::At { query: q, matches: m, .. },
            ) => q == query && m == matches,
            _ => false,
        },
{
    vstd::arithmetic::div_mod::lemma_small_mod(
        (popup.active() + delta) as nat,
        popup.len(),
    );
}

/// A file chosen with the caret in the word that asks for it, or right behind it, takes
/// the place of that word; what stands before and behind it stays, and the caret stands
/// behind the file.
pub proof fn law_chosen_file_takes_the_words_place(
    text: Seq<char>,
    at: usize,
    path: Seq<char>,
    i: int,
    j: int,
)
    requires
        completion_of(text) is At,
        last_word_at(text, i, j),
        i < at <= j,
        text.len() + path.len() + 2 <= usize::MAX,
    ensures
        ({
            let (out, caret) = with_file(text, (at, at), path);
            &&& out == text.take(i) + seq!['@'] + path + seq![' '] + text.skip(j)
            &&& caret.0 == i + path.len() + 2
            &&& caret.1 == caret.0
        }),
{
    reveal_strlit("@");
    reveal_strlit(" ");
    assert("@"@ =~= seq!['@']);
    assert(" "@ =~= seq![' ']);
    lemma_before_last_word(text, i, j);
    assert(before_last_word(text).len() == i);
    assert(trim_end(text).len() == j);
    assert(with_file(text, (at, at), path).0 =~= text.take(i) + seq!['@'] + path + seq![' ']
        + text.skip(j));
}

/// A caret beyond the text counts as its end, and one whose end lies before its start as
/// empty.
pub proof fn law_caret_stays_in_text(caret: (usize, usize), len: nat)
    ensures
        0 <= selected(caret, len).0 <= selected(caret, len).1 <= len,
        caret.0 <= caret.1 <= len ==> selected(caret, len) == (caret.0 as int, caret.1 as int),
        caret.0 >= len ==> selected(caret, len) == (len as int, len as int),
        caret.1 < caret.0 <= len ==> selected(caret, len) == (caret.0 as int, caret.0 as int),
{
}

} // verus!
