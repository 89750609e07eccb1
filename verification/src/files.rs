//! Files of the project: `@file` references in messages, the file index and the
//! directory browser.

use vstd::prelude::*;
use vstd::utf8::{decode_utf8, valid_utf8};

use crate::attach::{base64_fits, base64_of, encode_base64};
use crate::lang::{filled, pick, tr_one, Lang};
use crate::order::{picked, sort_rows, sorted_rows, within, Row, RowV};
use crate::paths::{absolute, above, extension, is_absolute, join, joined, parent, suffix};
use crate::protocol::{Event, EventV, ImageAttachment, ImageAttachmentV};
use crate::text::{
    ascii_white, begins, chars_of, find, find_byte, find_from, is_ascii_white, lower, piece, same, starts,
    to_lower, trim, trimmed,
};

verus! {

broadcast use crate::model::group_views;

/// The largest text file a reference takes in, in bytes.
pub const MAX_TEXT_BYTES: u64 = 524288;

/// The largest image a reference takes in, in bytes.
pub const MAX_IMAGE_BYTES: u64 = 8388608;

/// How many references a message may have.
pub const MAX_REFS: usize = 12;

/// How many files the index holds.
pub const MAX_INDEX_FILES: usize = 5000;

/// How many directories the browser lists.
pub const MAX_BROWSE_ENTRIES: usize = 200;

/// How deep the file walk goes.
pub const MAX_DEPTH: usize = 8;

// ── References ──────────────────────────────────────────────────────────────

/// How many leading characters of `s` are no ASCII white space.
pub open spec fn token_len(s: Seq<char>) -> int
    decreases s.len(),
{
    if s.len() == 0 || is_ascii_white(s[0]) {
        0
    } else {
        1 + token_len(s.drop_first())
    }
}

pub proof fn lemma_token_len(s: Seq<char>)
    ensures
        0 <= token_len(s) <= s.len(),
    decreases s.len(),
{
    if s.len() > 0 && !is_ascii_white(s[0]) {
        lemma_token_len(s.drop_first());
    }
}

/// The references in `s`: `@path` and `@"path with spaces"`. An `@` counts only
/// at the start of a word; `fresh` says whether `s` begins one.
pub open spec fn refs_from(s: Seq<char>, fresh: bool) -> Seq<Seq<char>>
    decreases s.len(),
{
    if s.len() == 0 {
        Seq::empty()
    } else if s[0] == '@' && fresh {
        let quoted = s.skip(2);
        let end = find(quoted, '"');
        let n = token_len(s.skip(1));
        if s.len() > 1 && s[1] == '"' && 0 <= end < quoted.len() {
            (if end > 0 {
                seq![quoted.take(end)]
            } else {
                Seq::empty()
            }) + refs_from(s.skip(end + 3), false)
        } else if 0 <= n < s.len() {
            (if n > 0 {
                seq![s.skip(1).take(n)]
            } else {
                Seq::empty()
            }) + refs_from(s.skip(n + 1), false)
        } else {
            Seq::empty()
        }
    } else {
        refs_from(s.drop_first(), is_ascii_white(s[0]))
    }
}

/// The references of a message, at most [`MAX_REFS`].
pub open spec fn refs_of(message: Seq<char>) -> Seq<Seq<char>> {
    let all = refs_from(message, true);
    if all.len() <= MAX_REFS {
        all
    } else {
        all.take(MAX_REFS as int)
    }
}

/// Extracts the `@path` and `@"path with spaces"` references of a message.
pub fn file_refs(message: &str) -> (out: Vec<String>)
    ensures
        out.deep_view() == refs_of(message@),
{
    let v = chars_of(message);
    let total: usize = v.len();
    let mut out: Vec<String> = Vec::new();
    let mut i: usize = 0;
    let mut fresh = true;
    assert(v@.skip(0) =~= v@);
    assert(out.deep_view() + refs_from(v@, true) =~= refs_from(v@, true));
    while i < total
        invariant
            v@ == message@,
            total == v@.len(),
            i <= total,
            out.deep_view() + refs_from(v@.skip(i as int), fresh) == refs_from(message@, true),
        decreases total - i,
    {
        let ghost rest = v@.skip(i as int);
        let ghost before = out.deep_view();
        let ghost was_fresh = fresh;
        assert(rest[0] == v@[i as int]);
        if v[i] == '@' && fresh {
            proof {
                lemma_token_len(rest.skip(1));
            }
            if total - i > 1 && v[i + 1] == '"' {
                assert(rest[1] == v@[i + 1]);
                let end: usize = find_from(&v, i + 2, '"');
                assert(rest.skip(2) =~= v@.skip(i + 2));
                if end < total {
                    let path = piece(&v, i + 2, end);
                    assert(path@ =~= rest.skip(2).take(end - i - 2));
                    assert(rest.skip(end - i - 2 + 3) =~= v@.skip(end + 1));
                    if end > i + 2 {
                        out.push(path);
                    }
                    fresh = false;
                    assert(out.deep_view() + refs_from(v@.skip(end + 1), false) =~= before
                        + refs_from(rest, was_fresh));
                    i = end + 1;
                    continue ;
                }
            }
            let start: usize = i + 1;
            let mut end: usize = start;
            assert(rest.skip(1) =~= v@.skip(start as int));
            while end < total && !ascii_white(v[end])
                invariant
                    total == v@.len(),
                    start <= end <= total,
                    token_len(v@.skip(start as int)) == (end - start) + token_len(
                        v@.skip(end as int),
                    ),
                decreases total - end,
            {
                assert(v@.skip(end as int)[0] == v@[end as int]);
                assert(v@.skip(end as int).drop_first() =~= v@.skip(end + 1));
                end += 1;
            }
            assert(token_len(v@.skip(end as int)) == 0) by {
                if end < total {
                    assert(v@.skip(end as int)[0] == v@[end as int]);
                }
            }
            assert(rest.skip(1).take(end - start) =~= v@.subrange(start as int, end as int));
            assert(rest.skip(end - start + 1) =~= v@.skip(end as int));
            if end > start {
                out.push(piece(&v, start, end));
            }
            fresh = false;
            assert(out.deep_view() + refs_from(v@.skip(end as int), false) =~= before + refs_from(
                rest,
                was_fresh,
            ));
            i = end;
        } else {
            fresh = ascii_white(v[i]);
            assert(rest.drop_first() =~= v@.skip(i + 1));
            i += 1;
        }
    }
    assert(v@.skip(i as int) =~= Seq::<char>::empty());
    assert(out.deep_view() + Seq::<Seq<char>>::empty() =~= out.deep_view());
    if out.len() > MAX_REFS {
        let ghost full = out@;
        out.truncate(MAX_REFS);
        assert(out@ =~= full.take(MAX_REFS as int));
    }
    out
}

/// What was found of a referenced file: its size if there is one, and its
/// content as far as it was read.
pub struct FileLookup {
    pub len: Option<u64>,
    pub bytes: Option<Vec<u8>>,
    pub text: Option<String>,
}

/// Model of [`FileLookup`].
pub struct FileLookupV {
    pub len: Option<u64>,
    pub bytes: Option<Seq<u8>>,
    pub text: Option<Seq<char>>,
}

impl DeepView for FileLookup {
    type V = FileLookupV;

    open spec fn deep_view(&self) -> FileLookupV {
        FileLookupV {
            len: self.len,
            bytes: match self.bytes {
                Some(b) => Some(b@),
                None => None,
            },
            text: self.text.deep_view(),
        }
    }
}

/// The path of a reference: relative ones count from the session directory.
pub open spec fn ref_path(reference: Seq<char>, cwd: Option<Seq<char>>) -> Seq<char> {
    if absolute(reference) {
        reference
    } else {
        match cwd {
            Some(dir) => joined(dir, reference),
            None => reference,
        }
    }
}

/// The path of a reference.
pub fn resolve_ref(reference: &str, cwd: Option<&str>) -> (out: String)
    ensures
        out@ == ref_path(reference@, cwd.deep_view()),
{
    if is_absolute(reference) {
        reference.to_owned()
    } else {
        match cwd {
            Some(dir) => join(dir, reference),
            None => reference.to_owned(),
        }
    }
}

/// The MIME type of an image path, by its extension.
pub open spec fn image_mime(path: Seq<char>) -> Option<Seq<char>> {
    let ext = lower(
        match suffix(path) {
            Some(e) => e,
            None => ""@,
        },
    );
    if ext == "png"@ {
        Some("image/png"@)
    } else if ext == "jpg"@ || ext == "jpeg"@ {
        Some("image/jpeg"@)
    } else if ext == "webp"@ {
        Some("image/webp"@)
    } else if ext == "gif"@ {
        Some("image/gif"@)
    } else {
        None
    }
}

fn mime_of(path: &str) -> (out: Option<&'static str>)
    ensures
        out.deep_view() == image_mime(path@),
{
    let ext = match extension(path) {
        Some(e) => to_lower(e.as_str()),
        None => to_lower(""),
    };
    let ext = ext.as_str();
    if same(ext, "png") {
        Some("image/png")
    } else if same(ext, "jpg") || same(ext, "jpeg") {
        Some("image/jpeg")
    } else if same(ext, "webp") {
        Some("image/webp")
    } else if same(ext, "gif") {
        Some("image/gif")
    } else {
        None
    }
}

/// What is to be read of a referenced file.
#[derive(Debug, Clone, Copy, PartialEq, Eq, Structural)]
pub enum ReadPlan {
    Nothing,
    Bytes,
    Text,
}

/// What is to be read of the file at `path` of `len` bytes.
pub open spec fn plan_for(path: Seq<char>, len: u64) -> ReadPlan {
    if len == 0 {
        ReadPlan::Nothing
    } else if image_mime(path) is Some {
        if len > MAX_IMAGE_BYTES {
            ReadPlan::Nothing
        } else {
            ReadPlan::Bytes
        }
    } else if len > MAX_TEXT_BYTES {
        ReadPlan::Nothing
    } else {
        ReadPlan::Text
    }
}

/// What is to be read of the file at `path` of `len` bytes: images as bytes,
/// others as text, and nothing of empty and of too large ones.
pub fn read_plan(path: &str, len: u64) -> (out: ReadPlan)
    ensures
        out == plan_for(path@, len),
{
    if len == 0 {
        ReadPlan::Nothing
    } else if mime_of(path).is_some() {
        if len > MAX_IMAGE_BYTES {
            ReadPlan::Nothing
        } else {
            ReadPlan::Bytes
        }
    } else if len > MAX_TEXT_BYTES {
        ReadPlan::Nothing
    } else {
        ReadPlan::Text
    }
}

/// What the references of a message expand to.
#[derive(Debug, PartialEq)]
pub struct Expansion {
    /// `<file …>` blocks.
    pub blocks: String,
    pub images: Vec<ImageAttachment>,
    pub notices: Vec<String>,
}

/// Model of [`Expansion`].
pub struct ExpansionV {
    pub blocks: Seq<char>,
    pub images: Seq<ImageAttachmentV>,
    pub notices: Seq<Seq<char>>,
}

impl DeepView for Expansion {
    type V = ExpansionV;

    open spec fn deep_view(&self) -> ExpansionV {
        ExpansionV {
            blocks: self.blocks@,
            images: self.images.deep_view(),
            notices: self.notices.deep_view(),
        }
    }
}

impl ExpansionV {
    pub open spec fn noting(self, notice: Seq<char>) -> ExpansionV {
        ExpansionV { notices: self.notices.push(notice), ..self }
    }
}

/// A notice about a reference.
pub open spec fn ref_notice(lang: Lang, zh: Seq<char>, en: Seq<char>, reference: Seq<char>) -> Seq<
    char,
> {
    filled(pick(lang, zh, en), seq![("reference"@, reference)])
}

/// The block of an attached image.
pub open spec fn image_block(path: Seq<char>) -> Seq<char> {
    "<file name=\""@ + path + "\"></file>\n"@
}

/// The block of a text file.
pub open spec fn text_block(path: Seq<char>, content: Seq<char>) -> Seq<char> {
    "<file name=\""@ + path + "\">\n"@ + content + "\n</file>\n"@
}

/// `acc` with one more reference expanded.
pub open spec fn with_ref(
    acc: ExpansionV,
    reference: Seq<char>,
    cwd: Option<Seq<char>>,
    look: FileLookupV,
    lang: Lang,
) -> ExpansionV {
    let path = ref_path(reference, cwd);
    match look.len {
        None => acc.noting(
            ref_notice(lang, "未找到文件：{reference}"@, "file not found: {reference}"@, reference),
        ),
        Some(len) => if len == 0 {
            acc
        } else {
            match image_mime(path) {
                Some(mime) => if len > MAX_IMAGE_BYTES {
                    acc.noting(
                        ref_notice(
                            lang,
                            "图片过大，已跳过：{reference}"@,
                            "image too large, skipped: {reference}"@,
                            reference,
                        ),
                    )
                } else {
                    match look.bytes {
                        None => acc.noting(
                            ref_notice(
                                lang,
                                "读取失败：{reference}"@,
                                "read failed: {reference}"@,
                                reference,
                            ),
                        ),
                        Some(bytes) => ExpansionV {
                            blocks: acc.blocks + image_block(path),
                            images: acc.images.push(
                                ImageAttachmentV { mime, base64: base64_of(bytes) },
                            ),
                            notices: acc.notices,
                        },
                    }
                },
                None => if len > MAX_TEXT_BYTES {
                    acc.noting(
                        ref_notice(
                            lang,
                            "文件过大（>512KB），已跳过：{reference}"@,
                            "file too large (>512KB), skipped: {reference}"@,
                            reference,
                        ),
                    )
                } else {
                    match look.text {
                        None => acc.noting(
                            ref_notice(
                                lang,
                                "读取失败（非文本？）：{reference}"@,
                                "read failed (not text?): {reference}"@,
                                reference,
                            ),
                        ),
                        Some(content) => ExpansionV {
                            blocks: acc.blocks + text_block(path, content),
                            ..acc
                        },
                    }
                },
            }
        },
    }
}

/// What `refs` expand to, given what was found of each.
pub open spec fn expansion_of(
    refs: Seq<Seq<char>>,
    cwd: Option<Seq<char>>,
    looks: Seq<FileLookupV>,
    lang: Lang,
) -> ExpansionV
    decreases refs.len(),
{
    if refs.len() == 0 {
        ExpansionV { blocks: Seq::empty(), images: Seq::empty(), notices: Seq::empty() }
    } else {
        with_ref(
            expansion_of(refs.drop_last(), cwd, looks, lang),
            refs.last(),
            cwd,
            looks[refs.len() - 1],
            lang,
        )
    }
}

/// A message with the blocks of its references behind it.
pub open spec fn with_blocks(message: Seq<char>, blocks: Seq<char>) -> Seq<char> {
    if blocks.len() == 0 {
        message
    } else if trimmed(message).len() == 0 {
        blocks
    } else {
        message + "\n\n"@ + blocks
    }
}

fn note(acc: &mut Expansion, lang: Lang, zh: &str, en: &str, reference: &str)
    ensures
        final(acc).deep_view() == old(acc).deep_view().noting(
            ref_notice(lang, zh@, en@, reference@),
        ),
{
    let text = tr_one(lang, zh, en, "reference", reference);
    acc.notices.push(text);
}

fn expand_ref(
    acc: &mut Expansion,
    reference: &str,
    cwd: Option<&str>,
    look: &FileLookup,
    lang: Lang,
)
    requires
        look.bytes matches Some(b) ==> base64_fits(b@.len()),
    ensures
        final(acc).deep_view() == with_ref(
            old(acc).deep_view(),
            reference@,
            cwd.deep_view(),
            look.deep_view(),
            lang,
        ),
{
    let path = resolve_ref(reference, cwd);
    let len: u64 = match look.len {
        Some(len) => len,
        None => {
            note(acc, lang, "未找到文件：{reference}", "file not found: {reference}", reference);
            return ;
        },
    };
    if len == 0 {
        return ;
    }
    match mime_of(path.as_str()) {
        Some(mime) => {
            if len > MAX_IMAGE_BYTES {
                note(
                    acc,
                    lang,
                    "图片过大，已跳过：{reference}",
                    "image too large, skipped: {reference}",
                    reference,
                );
                return ;
            }
            match &look.bytes {
                None => {
                    note(acc, lang, "读取失败：{reference}", "read failed: {reference}", reference);
                },
                Some(bytes) => {
                    let mut block = "<file name=\"".to_owned();
                    block.append(path.as_str());
                    block.append("\"></file>\n");
                    acc.images.push(
                        ImageAttachment { mime: mime.to_owned(), base64: encode_base64(bytes) },
                    );
                    acc.blocks.append(block.as_str());
                },
            }
        },
        None => {
            if len > MAX_TEXT_BYTES {
                note(
                    acc,
                    lang,
                    "文件过大（>512KB），已跳过：{reference}",
                    "file too large (>512KB), skipped: {reference}",
                    reference,
                );
                return ;
            }
            match &look.text {
                None => {
                    note(
                        acc,
                        lang,
                        "读取失败（非文本？）：{reference}",
                        "read failed (not text?): {reference}",
                        reference,
                    );
                },
                Some(content) => {
                    let mut block = "<file name=\"".to_owned();
                    block.append(path.as_str());
                    block.append("\">\n");
                    block.append(content.as_str());
                    block.append("\n</file>\n");
                    acc.blocks.append(block.as_str());
                },
            }
        },
    }
}

/// Expands the `@path` references of a message into `<file …>` blocks and image
/// attachments. `looks` says what was found of each reference, in the order of
/// [`file_refs`]. Gives the message to send, the images and the notices.
pub fn expand_file_refs(
    message: &str,
    cwd: Option<&str>,
    looks: &Vec<FileLookup>,
    lang: Lang,
) -> (out: (String, Vec<ImageAttachment>, Vec<String>))
    requires
        looks@.len() == refs_of(message@).len(),
        forall|i: int|
            0 <= i < looks@.len() ==> ((#[trigger] looks@[i]).bytes matches Some(b) ==> base64_fits(
                b@.len(),
            )),
    ensures
        ({
            let e = expansion_of(refs_of(message@), cwd.deep_view(), looks.deep_view(), lang);
            &&& out.0@ == with_blocks(message@, e.blocks)
            &&& out.1.deep_view() == e.images
            &&& out.2.deep_view() == e.notices
        }),
{
    let refs = file_refs(message);
    let ghost all = refs.deep_view();
    let ghost found = looks.deep_view();
    let mut acc = Expansion { blocks: String::new(), images: Vec::new(), notices: Vec::new() };
    assert(all.take(0) =~= Seq::empty());
    assert(acc.blocks@ =~= Seq::empty());
    let mut i: usize = 0;
    while i < refs.len()
        invariant
            i <= refs@.len(),
            all == refs.deep_view(),
            all == refs_of(message@),
            found == looks.deep_view(),
            looks@.len() == refs@.len(),
            forall|k: int|
                0 <= k < looks@.len() ==> ((#[trigger] looks@[k]).bytes matches Some(b)
                    ==> base64_fits(b@.len())),
            acc.deep_view() == expansion_of(all.take(i as int), cwd.deep_view(), found, lang),
        decreases refs@.len() - i,
    {
        assert(all.take(i + 1).drop_last() =~= all.take(i as int));
        assert(all.take(i + 1).last() == refs@[i as int]@);
        assert(found[i as int] == looks@[i as int].deep_view());
        expand_ref(&mut acc, refs[i].as_str(), cwd, &looks[i], lang);
        i += 1;
    }
    assert(all.take(i as int) =~= all);
    let text = if acc.blocks.as_str().is_empty() {
        message.to_owned()
    } else if trim(message).as_str().is_empty() {
        acc.blocks
    } else {
        let mut t = message.to_owned();
        t.append("\n\n");
        t.append(acc.blocks.as_str());
        t
    };
    (text, acc.images, acc.notices)
}

// ── File index ──────────────────────────────────────────────────────────────

/// The text that `String::from_utf8_lossy` makes of bytes.
pub uninterp spec fn lossy_text(bytes: Seq<u8>) -> Seq<char>;

/// `String::from_utf8_lossy`: the text of valid UTF-8, with replacement
/// characters where it is not valid. Of the latter only the name is given.
#[verifier::external_body]
fn lossy(bytes: &Vec<u8>) -> (out: String)
    ensures
        out@ == lossy_text(bytes@),
        valid_utf8(bytes@) ==> out@ == decode_utf8(bytes@),
{
    String::from_utf8_lossy(bytes).to_string()
}

/// The texts between zero bytes, without empty ones.
pub open spec fn zero_separated(s: Seq<u8>) -> Seq<Seq<char>>
    decreases s.len(),
{
    let at = find_byte(s, 0);
    if s.len() == 0 {
        Seq::empty()
    } else if !(0 <= at < s.len()) {
        seq![lossy_text(s)]
    } else {
        (if at > 0 {
            seq![lossy_text(s.take(at))]
        } else {
            Seq::empty()
        }) + zero_separated(s.skip(at + 1))
    }
}

/// At most [`MAX_INDEX_FILES`] of `files`.
pub open spec fn index_cut(files: Seq<Seq<char>>) -> Seq<Seq<char>> {
    if files.len() <= MAX_INDEX_FILES {
        files
    } else {
        files.take(MAX_INDEX_FILES as int)
    }
}

/// The files that `git ls-files -z` printed; nothing if there are none, so that
/// the directory is walked instead.
pub fn git_files(output: &Vec<u8>) -> (out: Option<Vec<String>>)
    ensures
        match out {
            Some(files) => files@.len() > 0 && files.deep_view() == index_cut(
                zero_separated(output@),
            ),
            None => zero_separated(output@).len() == 0,
        },
{
    let total: usize = output.len();
    let mut out: Vec<String> = Vec::new();
    let mut at: usize = 0;
    assert(output@.skip(0) =~= output@);
    assert(out.deep_view() + zero_separated(output@) =~= zero_separated(output@));
    while at < total
        invariant
            total == output@.len(),
            at <= total,
            out.deep_view() + zero_separated(output@.skip(at as int)) == zero_separated(output@),
        decreases total - at,
    {
        let ghost rest = output@.skip(at as int);
        let ghost before = out.deep_view();
        let mut end: usize = at;
        let mut chunk: Vec<u8> = Vec::new();
        while end < total && output[end] != 0
            invariant
                total == output@.len(),
                at <= end <= total,
                rest == output@.skip(at as int),
                chunk@ == output@.subrange(at as int, end as int),
                find_byte(rest, 0) == (end - at) + find_byte(output@.skip(end as int), 0),
            decreases total - end,
        {
            assert(output@.skip(end as int)[0] == output@[end as int]);
            assert(output@.skip(end as int).drop_first() =~= output@.skip(end + 1));
            chunk.push(output[end]);
            assert(output@.subrange(at as int, end + 1) =~= output@.subrange(
                at as int,
                end as int,
            ).push(output@[end as int]));
            end += 1;
        }
        assert(find_byte(output@.skip(end as int), 0) == 0) by {
            if end < total {
                assert(output@.skip(end as int)[0] == output@[end as int]);
            }
        }
        assert(chunk@ =~= rest.take(end - at));
        if end > at {
            out.push(lossy(&chunk));
        }
        let next: usize = if end < total {
            end + 1
        } else {
            end
        };
        if end < total {
            assert(rest.skip(end - at + 1) =~= output@.skip(next as int));
        } else {
            assert(chunk@ =~= rest);
            assert(output@.skip(next as int) =~= Seq::<u8>::empty());
        }
        assert(out.deep_view() + zero_separated(output@.skip(next as int)) =~= before
            + zero_separated(rest));
        at = next;
    }
    assert(output@.skip(at as int) =~= Seq::<u8>::empty());
    assert(out.deep_view() + Seq::<Seq<char>>::empty() =~= out.deep_view());
    if out.len() == 0 {
        return None;
    }
    if out.len() > MAX_INDEX_FILES {
        let ghost full = out@;
        out.truncate(MAX_INDEX_FILES);
        assert(out@ =~= full.take(MAX_INDEX_FILES as int));
    }
    Some(out)
}

/// What a directory entry is.
#[derive(Debug, Clone, Copy, PartialEq, Eq, Structural)]
pub enum EntryKind {
    Dir,
    File,
    Other,
}

/// One entry of a directory.
pub struct DirEntry {
    pub name: String,
    pub path: String,
    pub kind: EntryKind,
}

/// Model of [`DirEntry`].
pub struct DirEntryV {
    pub name: Seq<char>,
    pub path: Seq<char>,
    pub kind: EntryKind,
}

impl DeepView for DirEntry {
    type V = DirEntryV;

    open spec fn deep_view(&self) -> DirEntryV {
        DirEntryV { name: self.name@, path: self.path@, kind: self.kind }
    }
}

/// Directories that hold no project files.
pub open spec fn ignored_dirs() -> Seq<Seq<char>> {
    seq![
        "node_modules"@,
        ".git"@,
        ".next"@,
        "dist"@,
        "build"@,
        "__pycache__"@,
        ".turbo"@,
        ".cache"@,
        "coverage"@,
        ".pytest_cache"@,
        ".mypy_cache"@,
        "target"@,
        "vendor"@,
        ".svn"@,
    ]
}

/// A directory the walk does not enter.
pub open spec fn skipped_dir(name: Seq<char>) -> bool {
    ignored_dirs().contains(name) || begins(name, "."@)
}

fn skip_dir(name: &str) -> (r: bool)
    ensures
        r == skipped_dir(name@),
{
    let r = same(name, "node_modules") || same(name, ".git") || same(name, ".next") || same(
        name,
        "dist",
    ) || same(name, "build") || same(name, "__pycache__") || same(name, ".turbo") || same(
        name,
        ".cache",
    ) || same(name, "coverage") || same(name, ".pytest_cache") || same(name, ".mypy_cache")
        || same(name, "target") || same(name, "vendor") || same(name, ".svn");
    proof {
        let s = ignored_dirs();
        if r {
            assert(s[0] == "node_modules"@ && s[1] == ".git"@ && s[2] == ".next"@ && s[3]
                == "dist"@ && s[4] == "build"@ && s[5] == "__pycache__"@ && s[6] == ".turbo"@
                && s[7] == ".cache"@ && s[8] == "coverage"@ && s[9] == ".pytest_cache"@ && s[10]
                == ".mypy_cache"@ && s[11] == "target"@ && s[12] == "vendor"@ && s[13]
                == ".svn"@);
        }
    }
    r || starts(name, ".")
}

/// A directory still to be walked: its path, its path from the root of the walk,
/// and its depth.
pub struct Pending {
    pub dir: String,
    pub rel: String,
    pub depth: usize,
}

/// Model of [`Pending`].
pub struct PendingV {
    pub dir: Seq<char>,
    pub rel: Seq<char>,
    pub depth: usize,
}

impl DeepView for Pending {
    type V = PendingV;

    open spec fn deep_view(&self) -> PendingV {
        PendingV { dir: self.dir@, rel: self.rel@, depth: self.depth }
    }
}

/// A breadth-first walk of a project directory.
pub struct Walk {
    /// Files found so far, relative to the root.
    pub files: Vec<String>,
    /// Directories still to be walked, next one first.
    pub queue: Vec<Pending>,
}

/// Model of [`Walk`].
pub struct WalkV {
    pub files: Seq<Seq<char>>,
    pub queue: Seq<PendingV>,
}

impl DeepView for Walk {
    type V = WalkV;

    open spec fn deep_view(&self) -> WalkV {
        WalkV { files: self.files.deep_view(), queue: self.queue.deep_view() }
    }
}

/// `name` below `rel`.
pub open spec fn rel_path(rel: Seq<char>, name: Seq<char>) -> Seq<char> {
    if rel.len() == 0 {
        name
    } else {
        rel + "/"@ + name
    }
}

impl WalkV {
    /// Whether the walk is over: nothing is left, the next directory lies too
    /// deep, or the index is full.
    pub open spec fn over(self) -> bool {
        self.queue.len() == 0 || self.queue[0].depth > MAX_DEPTH || self.files.len()
            >= MAX_INDEX_FILES
    }

    /// The walk after one entry of the directory `at`.
    pub open spec fn with_entry(self, at: PendingV, e: DirEntryV) -> WalkV {
        match e.kind {
            EntryKind::Dir => if skipped_dir(e.name) {
                self
            } else {
                WalkV {
                    queue: self.queue.push(
                        PendingV {
                            dir: e.path,
                            rel: rel_path(at.rel, e.name),
                            depth: (at.depth + 1) as usize,
                        },
                    ),
                    ..self
                }
            },
            EntryKind::File => WalkV { files: self.files.push(rel_path(at.rel, e.name)), ..self },
            EntryKind::Other => self,
        }
    }

    /// The walk after the entries of the directory `at`; a full index ends it.
    pub open spec fn with_entries(self, at: PendingV, entries: Seq<DirEntryV>) -> WalkV
        decreases entries.len(),
    {
        if entries.len() == 0 {
            self
        } else {
            let next = self.with_entry(at, entries[0]);
            if entries[0].kind == EntryKind::File && next.files.len() >= MAX_INDEX_FILES {
                next
            } else {
                next.with_entries(at, entries.drop_first())
            }
        }
    }

    /// The queue goes level by level: never back to a lower one, and never past
    /// the next one.
    pub open spec fn level_by_level(self) -> bool {
        forall|i: int, j: int|
            0 <= i < j < self.queue.len() ==> (#[trigger] self.queue[i]).depth <= (
            #[trigger] self.queue[j]).depth <= self.queue[i].depth + 1
    }
}

impl Walk {
    /// A walk of `root` that has not begun.
    pub fn new(root: &str) -> (out: Self)
        ensures
            out.deep_view() == (WalkV {
                files: Seq::empty(),
                queue: seq![PendingV { dir: root@, rel: Seq::empty(), depth: 0 }],
            }),
            out.deep_view().level_by_level(),
    {
        let rel = String::new();
        assert(rel@ =~= Seq::empty());
        let mut queue: Vec<Pending> = Vec::new();
        queue.push(Pending { dir: root.to_owned(), rel, depth: 0 });
        let files: Vec<String> = Vec::new();
        assert(queue.deep_view() =~= seq![
            PendingV { dir: root@, rel: Seq::empty(), depth: 0 },
        ]);
        Walk { files, queue }
    }

    /// The next directory to list, which leaves the queue; nothing once the walk
    /// is over.
    pub fn next_dir(&mut self) -> (out: Option<Pending>)
        ensures
            match out {
                Some(at) => {
                    let w = old(self).deep_view();
                    &&& !w.over()
                    &&& at.deep_view() == w.queue[0]
                    &&& final(self).deep_view() == (WalkV { queue: w.queue.remove(0), ..w })
                },
                None => old(self).deep_view().over() && final(self).deep_view() == old(
                    self,
                ).deep_view(),
            },
            old(self).deep_view().level_by_level() ==> final(self).deep_view().level_by_level(),
    {
        let ghost w = self.deep_view();
        if self.queue.len() == 0 || self.files.len() >= MAX_INDEX_FILES {
            return None;
        }
        assert(w.queue[0] == self.queue@[0].deep_view());
        if self.queue[0].depth > MAX_DEPTH {
            return None;
        }
        let at = self.queue.remove(0);
        assert(self.deep_view().queue =~= w.queue.remove(0));
        Some(at)
    }

    /// Takes in the entries of a listed directory.
    pub fn visit(&mut self, at: &Pending, entries: &Vec<DirEntry>)
        requires
            at.depth <= MAX_DEPTH,
        ensures
            final(self).deep_view() == old(self).deep_view().with_entries(
                at.deep_view(),
                entries.deep_view(),
            ),
    {
        let ghost all = entries.deep_view();
        let ghost start = self.deep_view();
        assert(all.skip(0) =~= all);
        let mut i: usize = 0;
        while i < entries.len()
            invariant
                i <= entries@.len(),
                at.depth <= MAX_DEPTH,
                all == entries.deep_view(),
                start == old(self).deep_view(),
                start.with_entries(at.deep_view(), all) == self.deep_view().with_entries(
                    at.deep_view(),
                    all.skip(i as int),
                ),
            decreases entries@.len() - i,
        {
            let e = &entries[i];
            assert(all.skip(i as int)[0] == e.deep_view());
            assert(all.skip(i as int).drop_first() =~= all.skip(i + 1));
            let mut rel = at.rel.clone();
            if !at.rel.as_str().is_empty() {
                rel.append("/");
            }
            rel.append(e.name.as_str());
            assert(rel@ =~= rel_path(at.rel@, e.name@));
            match e.kind {
                EntryKind::Dir => {
                    if !skip_dir(e.name.as_str()) {
                        self.queue.push(
                            Pending { dir: e.path.clone(), rel, depth: at.depth + 1 },
                        );
                    }
                },
                EntryKind::File => {
                    self.files.push(rel);
                    if self.files.len() >= MAX_INDEX_FILES {
                        return ;
                    }
                },
                EntryKind::Other => {},
            }
            i += 1;
        }
    }

    /// The files found, sorted.
    pub fn finish(&self) -> (out: Vec<String>)
        ensures
            out.deep_view() == sorted_texts(self.deep_view().files),
    {
        sort_texts(&self.files)
    }
}

/// Texts as rows to sort.
pub open spec fn text_rows(texts: Seq<Seq<char>>) -> Seq<RowV> {
    texts.map_values(|t: Seq<char>| RowV { rank: 0, text: t, index: 0 })
}

/// `texts` in order.
pub open spec fn sorted_texts(texts: Seq<Seq<char>>) -> Seq<Seq<char>> {
    sorted_rows(text_rows(texts)).map_values(|r: RowV| r.text)
}

fn sort_texts(texts: &Vec<String>) -> (out: Vec<String>)
    ensures
        out.deep_view() == sorted_texts(texts.deep_view()),
{
    let ghost all = texts.deep_view();
    let mut rows: Vec<Row> = Vec::new();
    let mut i: usize = 0;
    while i < texts.len()
        invariant
            i <= texts@.len(),
            all == texts.deep_view(),
            rows.deep_view() == text_rows(all.take(i as int)),
        decreases texts@.len() - i,
    {
        rows.push(Row { rank: 0, text: texts[i].clone(), index: 0 });
        assert(all.take(i + 1) =~= all.take(i as int).push(texts@[i as int]@));
        assert(rows.deep_view() =~= text_rows(all.take(i + 1)));
        i += 1;
    }
    assert(all.take(i as int) =~= all);
    let order = sort_rows(&rows);
    let ghost sorted = sorted_rows(rows.deep_view());
    let mut out: Vec<String> = Vec::new();
    let mut k: usize = 0;
    while k < order.len()
        invariant
            k <= order@.len(),
            within(order@, rows@.len()),
            sorted == picked(rows.deep_view(), order@),
            out@.len() == k,
            forall|m: int| 0 <= m < k ==> (#[trigger] out@[m])@ == sorted[m].text,
        decreases order@.len() - k,
    {
        assert(sorted[k as int] == rows@[order@[k as int] as int].deep_view());
        out.push(rows[order[k]].text.clone());
        k += 1;
    }
    assert(out.deep_view() =~= sorted_texts(texts.deep_view()));
    out
}

/// The file index as an event.
pub fn files_event(cwd: &str, files: Vec<String>) -> (out: Event)
    ensures
        out.deep_view() == (EventV::Files { cwd: cwd@, files: files.deep_view() }),
{
    Event::Files { cwd: cwd.to_owned(), files }
}

// ── Directory browser ───────────────────────────────────────────────────────

/// The first [`MAX_BROWSE_ENTRIES`] directories among `entries`: name and path.
pub open spec fn subdirs(entries: Seq<DirEntryV>) -> Seq<(Seq<char>, Seq<char>)>
    decreases entries.len(),
{
    if entries.len() == 0 {
        Seq::empty()
    } else {
        let before = subdirs(entries.drop_last());
        let e = entries.last();
        if e.kind == EntryKind::Dir && before.len() < MAX_BROWSE_ENTRIES {
            before.push((e.name, e.path))
        } else {
            before
        }
    }
}

/// Directories as rows to sort: by name, then in the order found.
pub open spec fn dir_rows(dirs: Seq<(Seq<char>, Seq<char>)>) -> Seq<RowV> {
    Seq::new(dirs.len(), |i: int| RowV { rank: 0, text: dirs[i].0, index: i })
}

/// Directories by name.
pub open spec fn sorted_dirs(dirs: Seq<(Seq<char>, Seq<char>)>) -> Seq<(Seq<char>, Seq<char>)> {
    sorted_rows(dir_rows(dirs)).map_values(|r: RowV| dirs[r.index])
}

/// The listing of the directory `path` with these entries: its sub-directories
/// by name, and where it lies.
pub fn browse_event(path: &str, entries: &Vec<DirEntry>) -> (out: Event)
    ensures
        out.deep_view() == (EventV::DirListing {
            path: path@,
            parent: above(path@),
            dirs: sorted_dirs(subdirs(entries.deep_view())),
        }),
{
    let ghost all = entries.deep_view();
    let mut dirs: Vec<(String, String)> = Vec::new();
    let mut rows: Vec<Row> = Vec::new();
    assert(all.take(0) =~= Seq::empty());
    assert(rows.deep_view() =~= dir_rows(dirs.deep_view()));
    let mut i: usize = 0;
    while i < entries.len()
        invariant
            i <= entries@.len(),
            all == entries.deep_view(),
            dirs.deep_view() == subdirs(all.take(i as int)),
            rows.deep_view() == dir_rows(dirs.deep_view()),
            rows@.len() == dirs@.len(),
            forall|k: int| 0 <= k < rows@.len() ==> (#[trigger] rows@[k]).index == k,
        decreases entries@.len() - i,
    {
        assert(all.take(i + 1).drop_last() =~= all.take(i as int));
        assert(all.take(i + 1).last() == entries@[i as int].deep_view());
        if entries[i].kind == EntryKind::Dir && dirs.len() < MAX_BROWSE_ENTRIES {
            rows.push(Row { rank: 0, text: entries[i].name.clone(), index: dirs.len() });
            dirs.push((entries[i].name.clone(), entries[i].path.clone()));
            assert(rows.deep_view() =~= dir_rows(dirs.deep_view()));
        }
        i += 1;
    }
    assert(all.take(i as int) =~= all);
    let order = sort_rows(&rows);
    let ghost found = dirs.deep_view();
    let ghost sorted = sorted_rows(rows.deep_view());
    let mut out: Vec<(String, String)> = Vec::new();
    let mut k: usize = 0;
    while k < order.len()
        invariant
            k <= order@.len(),
            within(order@, rows@.len()),
            rows@.len() == dirs@.len(),
            found == dirs.deep_view(),
            sorted == picked(rows.deep_view(), order@),
            forall|m: int| 0 <= m < rows@.len() ==> (#[trigger] rows@[m]).index == m,
            out@.len() == k,
            forall|m: int|
                0 <= m < k ==> (#[trigger] out@[m]).deep_view() == found[sorted[m].index],
        decreases order@.len() - k,
    {
        assert(sorted[k as int] == rows@[order@[k as int] as int].deep_view());
        let at: usize = rows[order[k]].index;
        assert(found[at as int] == dirs@[at as int].deep_view());
        out.push((dirs[at].0.clone(), dirs[at].1.clone()));
        k += 1;
    }
    assert(out.deep_view() =~= sorted_dirs(found));
    Event::DirListing { path: path.to_owned(), parent: parent(path), dirs: out }
}

// ── Laws ────────────────────────────────────────────────────────────────────

/// A message never has more than [`MAX_REFS`] references.
pub proof fn law_refs_are_few(message: Seq<char>)
    ensures
        refs_of(message).len() <= MAX_REFS,
{
}

/// A message without references is sent as it is, without images and notices.
pub proof fn law_plain_message_unchanged(
    message: Seq<char>,
    cwd: Option<Seq<char>>,
    looks: Seq<FileLookupV>,
    lang: Lang,
)
    requires
        refs_of(message).len() == 0,
    ensures
        with_blocks(message, expansion_of(refs_of(message), cwd, looks, lang).blocks) == message,
        expansion_of(refs_of(message), cwd, looks, lang).images.len() == 0,
        expansion_of(refs_of(message), cwd, looks, lang).notices.len() == 0,
{
}

/// An `@` inside a word is no reference.
pub proof fn law_at_inside_word(word: Seq<char>, fresh: bool)
    requires
        word.len() > 0,
        fresh ==> word[0] != '@',
        forall|i: int| 0 <= i < word.len() ==> !is_ascii_white(#[trigger] word[i]),
    ensures
        refs_from(word, fresh).len() == 0,
    decreases word.len(),
{
    if word.len() > 1 {
        let rest = word.drop_first();
        assert forall|i: int| 0 <= i < rest.len() implies !is_ascii_white(#[trigger] rest[i]) by {
            assert(rest[i] == word[i + 1]);
        }
        assert(!is_ascii_white(word[0]));
        law_at_inside_word(rest, false);
    } else {
        assert(!is_ascii_white(word[0]));
        assert(refs_from(word.drop_first(), false).len() == 0);
    }
}

proof fn lemma_token_len_is(s: Seq<char>, n: int)
    requires
        0 <= n <= s.len(),
        n < s.len() ==> is_ascii_white(s[n]),
        forall|k: int| 0 <= k < n ==> !is_ascii_white(#[trigger] s[k]),
    ensures
        token_len(s) == n,
    decreases s.len(),
{
    if n > 0 {
        let rest = s.drop_first();
        assert(rest[0] == s[1] || rest.len() == 0);
        assert forall|k: int| 0 <= k < n - 1 implies !is_ascii_white(#[trigger] rest[k]) by {
            assert(rest[k] == s[k + 1]);
        }
        if n < s.len() {
            assert(rest[n - 1] == s[n]);
        }
        assert(!is_ascii_white(s[0]));
        lemma_token_len_is(rest, n - 1);
    }
}

proof fn lemma_token_len_in_front(a: Seq<char>, b: Seq<char>)
    requires
        a.len() > 0,
        is_ascii_white(a.last()),
    ensures
        token_len(a + b) == token_len(a),
        token_len(a) < a.len(),
        0 <= token_len(a),
    decreases a.len(),
{
    assert((a + b)[0] == a[0]);
    if !is_ascii_white(a[0]) {
        assert(a.len() > 1);
        assert(a.drop_first().last() == a.last());
        assert((a + b).drop_first() =~= a.drop_first() + b);
        lemma_token_len_in_front(a.drop_first(), b);
    }
}

proof fn lemma_find_in_front(a: Seq<char>, b: Seq<char>, c: char)
    requires
        !b.contains(c),
    ensures
        find(a, c) < a.len() ==> find(a + b, c) == find(a, c),
        find(a, c) >= a.len() ==> find(a + b, c) == (a + b).len(),
    decreases a.len(),
{
    if a.len() == 0 {
        assert(a + b =~= b);
        crate::text::lemma_find_bounds(b, c);
    } else {
        assert((a + b)[0] == a[0]);
        if a[0] != c {
            assert((a + b).drop_first() =~= a.drop_first() + b);
            lemma_find_in_front(a.drop_first(), b, c);
        }
    }
}

/// Text in front that ends with white space keeps its references and takes none
/// away from what follows.
pub proof fn lemma_refs_behind(front: Seq<char>, rest: Seq<char>, fresh: bool)
    requires
        !rest.contains('"'),
        front.len() > 0 ==> is_ascii_white(front.last()),
    ensures
        refs_from(front + rest, fresh) == refs_from(front, fresh) + refs_from(
            rest,
            fresh || front.len() > 0,
        ),
    decreases front.len(),
{
    let s = front + rest;
    if front.len() == 0 {
        assert(s =~= rest);
        assert(refs_from(front, fresh) + refs_from(rest, fresh) =~= refs_from(rest, fresh));
    } else {
        assert(s[0] == front[0]);
        if front[0] == '@' && fresh {
            assert(front.len() > 1);
            assert(s[1] == front[1]);
            let body = front.skip(1);
            assert(body.last() == front.last());
            assert(s.skip(1) =~= body + rest);
            lemma_token_len_in_front(body, rest);
            let quoted = front.skip(2);
            assert(s.skip(2) =~= quoted + rest);
            lemma_find_in_front(quoted, rest, '"');
            crate::text::lemma_find_bounds(quoted, '"');
            let end = find(quoted, '"');
            let n = token_len(body);
            if front[1] == '"' && end < quoted.len() {
                assert(quoted[end] == front[end + 2]);
                assert(end + 3 < front.len());
                let less = front.skip(end + 3);
                assert(less.last() == front.last());
                assert(s.skip(end + 3) =~= less + rest);
                assert(s.skip(2).take(end) =~= quoted.take(end));
                lemma_refs_behind(less, rest, false);
                assert(refs_from(s, fresh) =~= refs_from(front, fresh) + refs_from(rest, true));
            } else {
                let less = front.skip(n + 1);
                assert(less.last() == front.last());
                assert(s.skip(n + 1) =~= less + rest);
                assert(s.skip(1).take(n) =~= body.take(n));
                lemma_refs_behind(less, rest, false);
                assert(refs_from(s, fresh) =~= refs_from(front, fresh) + refs_from(rest, true));
            }
        } else {
            let less = front.drop_first();
            assert(s.drop_first() =~= less + rest);
            if less.len() > 0 {
                assert(less.last() == front.last());
            } else {
                assert(front[0] == front.last());
            }
            lemma_refs_behind(less, rest, is_ascii_white(front[0]));
            assert(refs_from(s, fresh) == refs_from(less + rest, is_ascii_white(front[0])));
        }
    }
}

/// Without an `@` there is no reference.
pub proof fn lemma_no_refs(s: Seq<char>, fresh: bool)
    requires
        !s.contains('@'),
    ensures
        refs_from(s, fresh).len() == 0,
    decreases s.len(),
{
    if s.len() > 0 {
        assert(s.contains(s[0]));
        assert(!s.drop_first().contains('@')) by {
            assert forall|k: int| 0 <= k < s.drop_first().len() implies s.drop_first()[k] != '@' by {
                assert(s.contains(s[k + 1]));
            }
        }
        lemma_no_refs(s.drop_first(), is_ascii_white(s[0]));
    }
}

/// `@path` is a reference to the path, whether it ends the text or white space
/// follows.
pub proof fn lemma_single_ref(path: Seq<char>, tail: Seq<char>)
    requires
        path.len() > 0,
        !path.contains('"'),
        forall|k: int| 0 <= k < path.len() ==> !is_ascii_white(#[trigger] path[k]),
        tail.len() > 0 ==> is_ascii_white(tail[0]),
        !tail.contains('@'),
    ensures
        refs_from(seq!['@'] + path + tail, true) == seq![path],
{
    let s = seq!['@'] + path + tail;
    assert(s[0] == '@');
    assert(s[1] == path[0]);
    assert(path.contains(path[0]));
    let body = s.skip(1);
    assert(body =~= path + tail);
    assert forall|k: int| 0 <= k < path.len() implies !is_ascii_white(#[trigger] body[k]) by {
        assert(body[k] == path[k]);
    }
    if tail.len() > 0 {
        assert(body[path.len() as int] == tail[0]);
    }
    lemma_token_len_is(body, path.len() as int);
    assert(body.take(path.len() as int) =~= path);
    let rest = s.skip(path.len() as int + 1);
    assert(rest =~= tail);
    lemma_no_refs(tail, false);
    assert(refs_from(s, true) =~= seq![path]);
}

/// A file that is not there gives one notice and nothing else.
pub proof fn law_missing_file_gives_notice(
    acc: ExpansionV,
    reference: Seq<char>,
    cwd: Option<Seq<char>>,
    look: FileLookupV,
    lang: Lang,
)
    requires
        look.len is None,
    ensures
        with_ref(acc, reference, cwd, look, lang).notices.len() == acc.notices.len() + 1,
        with_ref(acc, reference, cwd, look, lang).blocks == acc.blocks,
        with_ref(acc, reference, cwd, look, lang).images == acc.images,
{
}

/// Taking in a directory keeps the walk breadth-first: its sub-directories come
/// after everything on its own level.
pub proof fn law_walk_is_breadth_first(walk: WalkV, at: PendingV, entries: Seq<DirEntryV>)
    requires
        walk.level_by_level(),
        at.depth <= MAX_DEPTH,
        forall|i: int|
            0 <= i < walk.queue.len() ==> at.depth <= (#[trigger] walk.queue[i]).depth <= at.depth
                + 1,
    ensures
        walk.with_entries(at, entries).level_by_level(),
        forall|i: int|
            0 <= i < walk.with_entries(at, entries).queue.len() ==> at.depth <= (
            #[trigger] walk.with_entries(at, entries).queue[i]).depth <= at.depth + 1,
    decreases entries.len(),
{
    if entries.len() > 0 {
        let next = walk.with_entry(at, entries[0]);
        assert(next.level_by_level());
        if !(entries[0].kind == EntryKind::File && next.files.len() >= MAX_INDEX_FILES) {
            law_walk_is_breadth_first(next, at, entries.drop_first());
        }
    }
}

/// The index never holds more than [`MAX_INDEX_FILES`] files.
pub proof fn law_walk_is_bounded(walk: WalkV, at: PendingV, entries: Seq<DirEntryV>)
    requires
        walk.files.len() < MAX_INDEX_FILES,
    ensures
        walk.with_entries(at, entries).files.len() <= MAX_INDEX_FILES,
    decreases entries.len(),
{
    if entries.len() > 0 {
        let next = walk.with_entry(at, entries[0]);
        if !(entries[0].kind == EntryKind::File && next.files.len() >= MAX_INDEX_FILES) {
            law_walk_is_bounded(next, at, entries.drop_first());
        }
    }
}

/// Taking in a directory queues those of its sub-directories only that are not
/// ignored.
pub proof fn law_ignored_dirs_stay_out(walk: WalkV, at: PendingV, entries: Seq<DirEntryV>, i: int)
    requires
        walk.queue.len() <= i < walk.with_entries(at, entries).queue.len(),
    ensures
        exists|k: int|
            #![trigger entries[k]]
            0 <= k < entries.len() && entries[k].kind == EntryKind::Dir && !skipped_dir(
                entries[k].name,
            ) && walk.with_entries(at, entries).queue[i].dir == entries[k].path
                && walk.with_entries(at, entries).queue[i].rel == rel_path(at.rel, entries[k].name),
    decreases entries.len(),
{
    let next = walk.with_entry(at, entries[0]);
    let rest = entries.drop_first();
    let done = entries[0].kind == EntryKind::File && next.files.len() >= MAX_INDEX_FILES;
    if i < next.queue.len() {
        if !done {
            lemma_walk_keeps_queue(next, at, rest, i);
        }
        assert(entries[0].kind == EntryKind::Dir);
    } else {
        law_ignored_dirs_stay_out(next, at, rest, i);
        let k = choose|k: int|
            #![trigger rest[k]]
            0 <= k < rest.len() && rest[k].kind == EntryKind::Dir && !skipped_dir(rest[k].name)
                && next.with_entries(at, rest).queue[i].dir == rest[k].path && next.with_entries(
                at,
                rest,
            ).queue[i].rel == rel_path(at.rel, rest[k].name);
        assert(entries[k + 1] == rest[k]);
    }
}

proof fn lemma_walk_keeps_queue(walk: WalkV, at: PendingV, entries: Seq<DirEntryV>, i: int)
    requires
        0 <= i < walk.queue.len(),
    ensures
        walk.with_entries(at, entries).queue.len() > i,
        walk.with_entries(at, entries).queue[i] == walk.queue[i],
    decreases entries.len(),
{
    if entries.len() > 0 {
        let next = walk.with_entry(at, entries[0]);
        if !(entries[0].kind == EntryKind::File && next.files.len() >= MAX_INDEX_FILES) {
            lemma_walk_keeps_queue(next, at, entries.drop_first(), i);
        }
    }
}

/// The extensions of images are told apart.
proof fn lemma_extension_names()
    ensures
        "png"@.len() == 3,
        "png"@[0] == 'p',
        "jpg"@.len() == 3,
        "jpg"@[0] == 'j',
        "jpeg"@.len() == 4,
        "jpeg"@[0] == 'j',
        "webp"@.len() == 4,
        "webp"@[0] == 'w',
        "gif"@.len() == 3,
        "gif"@[0] == 'g',
{
    reveal_strlit("png");
    reveal_strlit("jpg");
    reveal_strlit("jpeg");
    reveal_strlit("webp");
    reveal_strlit("gif");
}

/// What references expand to does not change when more of them follow: their blocks,
/// images and notices stay in front.
pub proof fn law_expansion_only_grows(
    refs: Seq<Seq<char>>,
    n: int,
    cwd: Option<Seq<char>>,
    looks: Seq<FileLookupV>,
    lang: Lang,
)
    requires
        0 <= n <= refs.len(),
    ensures
        ({
            let some = expansion_of(refs.take(n), cwd, looks, lang);
            let all = expansion_of(refs, cwd, looks, lang);
            &&& some.blocks.is_prefix_of(all.blocks)
            &&& some.images.is_prefix_of(all.images)
            &&& some.notices.is_prefix_of(all.notices)
        }),
    decreases refs.len(),
{
    if n == refs.len() {
        assert(refs.take(n) =~= refs);
    } else {
        let less = refs.drop_last();
        law_expansion_only_grows(less, n, cwd, looks, lang);
        assert(less.take(n) =~= refs.take(n));
    }
}

/// A referenced text file that is there, not empty and not too large goes into the
/// message as a block of its own, with its path and its whole content, right behind the
/// blocks of the references before it, and without a notice.
pub proof fn law_text_file_is_sent(
    refs: Seq<Seq<char>>,
    i: int,
    cwd: Option<Seq<char>>,
    looks: Seq<FileLookupV>,
    len: u64,
    content: Seq<char>,
    lang: Lang,
)
    requires
        0 <= i < refs.len(),
        looks[i].len == Some(len),
        0 < len <= 524288,
        looks[i].text == Some(content),
        image_mime(ref_path(refs[i], cwd)) is None,
    ensures
        ({
            let before = expansion_of(refs.take(i), cwd, looks, lang);
            let all = expansion_of(refs, cwd, looks, lang);
            let block = "<file name=\""@ + ref_path(refs[i], cwd) + "\">\n"@ + content
                + "\n</file>\n"@;
            &&& (before.blocks + block).is_prefix_of(all.blocks)
            &&& expansion_of(refs.take(i + 1), cwd, looks, lang).images == before.images
            &&& expansion_of(refs.take(i + 1), cwd, looks, lang).notices == before.notices
        }),
{
    assert(refs.take(i + 1).drop_last() =~= refs.take(i));
    assert(refs.take(i + 1).last() == refs[i]);
    law_expansion_only_grows(refs, i + 1, cwd, looks, lang);
}

/// A referenced image that is there, not empty and not too large is attached, with its
/// type and all its bytes, and named by a block of its own, right behind those of the
/// references before it.
pub proof fn law_image_file_is_sent(
    refs: Seq<Seq<char>>,
    i: int,
    cwd: Option<Seq<char>>,
    looks: Seq<FileLookupV>,
    len: u64,
    bytes: Seq<u8>,
    mime: Seq<char>,
    lang: Lang,
)
    requires
        0 <= i < refs.len(),
        looks[i].len == Some(len),
        0 < len <= 8388608,
        looks[i].bytes == Some(bytes),
        image_mime(ref_path(refs[i], cwd)) == Some(mime),
    ensures
        ({
            let before = expansion_of(refs.take(i), cwd, looks, lang);
            let all = expansion_of(refs, cwd, looks, lang);
            let block = "<file name=\""@ + ref_path(refs[i], cwd) + "\"></file>\n"@;
            &&& (before.blocks + block).is_prefix_of(all.blocks)
            &&& before.images.push(
                ImageAttachmentV { mime, base64: base64_of(bytes) },
            ).is_prefix_of(all.images)
            &&& expansion_of(refs.take(i + 1), cwd, looks, lang).notices == before.notices
        }),
{
    assert(refs.take(i + 1).drop_last() =~= refs.take(i));
    assert(refs.take(i + 1).last() == refs[i]);
    law_expansion_only_grows(refs, i + 1, cwd, looks, lang);
}

/// A reference whose file is not there, is too large or could not be read gives one
/// notice that names it, and neither a block nor an image. One whose file is empty gives
/// nothing at all.
pub proof fn law_unsent_file_is_noted(
    refs: Seq<Seq<char>>,
    i: int,
    cwd: Option<Seq<char>>,
    looks: Seq<FileLookupV>,
    lang: Lang,
)
    requires
        0 <= i < refs.len(),
    ensures
        ({
            let before = expansion_of(refs.take(i), cwd, looks, lang);
            let after = expansion_of(refs.take(i + 1), cwd, looks, lang);
            let picture = image_mime(ref_path(refs[i], cwd)) is Some;
            let note = |zh: Seq<char>, en: Seq<char>|
                after == (ExpansionV {
                    notices: before.notices.push(
                        filled(
                            match lang {
                                Lang::Zh => zh,
                                Lang::En => en,
                            },
                            seq![("reference"@, refs[i])],
                        ),
                    ),
                    ..before
                });
            match looks[i].len {
                None => note("未找到文件：{reference}"@, "file not found: {reference}"@),
                Some(len) => {
                    &&& len == 0 ==> after == before
                    &&& picture && len > 8388608 ==> note(
                        "图片过大，已跳过：{reference}"@,
                        "image too large, skipped: {reference}"@,
                    )
                    &&& picture && 0 < len <= 8388608 && looks[i].bytes is None ==> note(
                        "读取失败：{reference}"@,
                        "read failed: {reference}"@,
                    )
                    &&& !picture && len > 524288 ==> note(
                        "文件过大（>512KB），已跳过：{reference}"@,
                        "file too large (>512KB), skipped: {reference}"@,
                    )
                    &&& !picture && 0 < len <= 524288 && looks[i].text is None ==> note(
                        "读取失败（非文本？）：{reference}"@,
                        "read failed (not text?): {reference}"@,
                    )
                },
            }
        }),
{
    assert(refs.take(i + 1).drop_last() =~= refs.take(i));
    assert(refs.take(i + 1).last() == refs[i]);
}

/// What is read of a file is what its reference needs: the bytes of an image, the text
/// of another file, and nothing of one that is empty or too large.
pub proof fn law_what_is_read_is_sent(path: Seq<char>, len: u64)
    ensures
        plan_for(path, len) == ReadPlan::Bytes <==> image_mime(path) is Some && 0 < len <= 8388608,
        plan_for(path, len) == ReadPlan::Text <==> image_mime(path) is None && 0 < len <= 524288,
{
}

/// The message that is sent holds the text of the user first and then every block; a
/// message without blocks is sent as it is.
pub proof fn law_message_keeps_text_and_blocks(message: Seq<char>, blocks: Seq<char>)
    ensures
        blocks.len() == 0 ==> with_blocks(message, blocks) == message,
        trimmed(message).len() == 0 && blocks.len() > 0 ==> with_blocks(message, blocks) == blocks,
        trimmed(message).len() > 0 && blocks.len() > 0 ==> with_blocks(message, blocks) == message
            + seq!['\n', '\n'] + blocks,
{
    reveal_strlit("\n\n");
    assert("\n\n"@ =~= seq!['\n', '\n']);
}

/// A reference counts from the session's directory, unless it is an absolute path or
/// there is no such directory.
pub proof fn law_reference_counts_from_directory(reference: Seq<char>, dir: Seq<char>)
    requires
        reference.len() > 0,
        dir.len() > 0,
    ensures
        reference[0] == '/' ==> ref_path(reference, Some(dir)) == reference,
        reference[0] != '/' && dir.last() != '/' ==> ref_path(reference, Some(dir)) == dir
            + seq!['/'] + reference,
        reference[0] != '/' && dir.last() == '/' ==> ref_path(reference, Some(dir)) == dir
            + reference,
        ref_path(reference, None) == reference,
{
}

/// An image is known by its extension, in upper or lower case; other extensions are no
/// images.
pub proof fn law_images_are_known_by_extension(
    front: Seq<char>,
    name: Seq<char>,
    ext: Seq<char>,
)
    requires
        front.len() > 0 ==> front.last() == '/',
        name.len() > 0,
        !name.contains('/'),
        ext.len() > 0,
        !ext.contains('/'),
        !ext.contains('.'),
    ensures
        ({
            let mime = image_mime(front + name + seq!['.'] + ext);
            let e = lower(ext);
            &&& e == "png"@ ==> mime == Some("image/png"@)
            &&& e == "jpg"@ || e == "jpeg"@ ==> mime == Some("image/jpeg"@)
            &&& e == "webp"@ ==> mime == Some("image/webp"@)
            &&& e == "gif"@ ==> mime == Some("image/gif"@)
            &&& e != "png"@ && e != "jpg"@ && e != "jpeg"@ && e != "webp"@ && e != "gif"@
                ==> mime is None
        }),
{
    lemma_extension_names();
    crate::paths::law_extension_is_behind_last_dot(front, name, ext);
}

proof fn lemma_ref_in_front(path: Seq<char>, tail: Seq<char>)
    requires
        path.len() > 0,
        path[0] != '"',
        forall|k: int| 0 <= k < path.len() ==> !is_ascii_white(#[trigger] path[k]),
        tail.len() > 0 ==> is_ascii_white(tail[0]),
    ensures
        refs_from(seq!['@'] + path + tail, true) == seq![path] + refs_from(tail, false),
{
    let s = seq!['@'] + path + tail;
    assert(s[0] == '@');
    assert(s[1] == path[0]);
    let body = s.skip(1);
    assert(body =~= path + tail);
    assert forall|k: int| 0 <= k < path.len() implies !is_ascii_white(#[trigger] body[k]) by {
        assert(body[k] == path[k]);
    }
    if tail.len() > 0 {
        assert(body[path.len() as int] == tail[0]);
    }
    lemma_token_len_is(body, path.len() as int);
    assert(body.take(path.len() as int) =~= path);
    assert(s.skip(path.len() as int + 1) =~= tail);
}

proof fn lemma_plain_front(front: Seq<char>, rest: Seq<char>, fresh: bool)
    requires
        !front.contains('"'),
        front.len() > 0 ==> is_ascii_white(front.last()),
    ensures
        refs_from(front + rest, fresh) == refs_from(front, fresh) + refs_from(
            rest,
            fresh || front.len() > 0,
        ),
    decreases front.len(),
{
    let s = front + rest;
    if front.len() == 0 {
        assert(s =~= rest);
        assert(refs_from(front, fresh) + refs_from(rest, fresh) =~= refs_from(rest, fresh));
    } else {
        assert(s[0] == front[0]);
        if front[0] == '@' && fresh {
            assert(front.len() > 1);
            assert(s[1] == front[1]);
            assert(front.contains(front[1]));
            let body = front.skip(1);
            assert(body.last() == front.last());
            assert(s.skip(1) =~= body + rest);
            lemma_token_len_in_front(body, rest);
            let n = token_len(body);
            let less = front.skip(n + 1);
            assert(less.last() == front.last());
            assert(s.skip(n + 1) =~= less + rest);
            assert(s.skip(1).take(n) =~= body.take(n));
            assert(!less.contains('"')) by {
                assert forall|k: int| 0 <= k < less.len() implies less[k] != '"' by {
                    assert(front.contains(front[k + n + 1]));
                }
            }
            lemma_plain_front(less, rest, false);
            assert(refs_from(s, fresh) =~= refs_from(front, fresh) + refs_from(rest, true));
        } else {
            let less = front.drop_first();
            assert(s.drop_first() =~= less + rest);
            if less.len() > 0 {
                assert(less.last() == front.last());
            } else {
                assert(front[0] == front.last());
            }
            assert(!less.contains('"')) by {
                assert forall|k: int| 0 <= k < less.len() implies less[k] != '"' by {
                    assert(front.contains(front[k + 1]));
                }
            }
            lemma_plain_front(less, rest, is_ascii_white(front[0]));
            assert(refs_from(s, fresh) == refs_from(less + rest, is_ascii_white(front[0])));
        }
    }
}

/// `@path` at the start of a word is a reference to the path, up to the next white space;
/// the references before and behind it are found as if it were not there.
pub proof fn law_plain_reference_is_found(front: Seq<char>, path: Seq<char>, rest: Seq<char>)
    requires
        !front.contains('"'),
        front.len() > 0 ==> is_ascii_white(front.last()),
        path.len() > 0,
        path[0] != '"',
        forall|k: int| 0 <= k < path.len() ==> !is_ascii_white(#[trigger] path[k]),
        rest.len() > 0 ==> is_ascii_white(rest[0]),
    ensures
        refs_from(front + seq!['@'] + path + rest, true) == refs_from(front, true) + seq![path]
            + refs_from(rest, false),
{
    let word = seq!['@'] + path + rest;
    assert(front + seq!['@'] + path + rest =~= front + word);
    lemma_plain_front(front, word, true);
    lemma_ref_in_front(path, rest);
    assert(refs_from(front, true) + (seq![path] + refs_from(rest, false)) =~= refs_from(front, true)
        + seq![path] + refs_from(rest, false));
}

/// `@"path"` at the start of a word is a reference to the path between the quotes,
/// white space and all.
pub proof fn law_quoted_reference_is_found(front: Seq<char>, path: Seq<char>, rest: Seq<char>)
    requires
        !front.contains('"'),
        front.len() > 0 ==> is_ascii_white(front.last()),
        path.len() > 0,
        !path.contains('"'),
    ensures
        refs_from(front + seq!['@', '"'] + path + seq!['"'] + rest, true) == refs_from(front, true)
            + seq![path] + refs_from(rest, false),
{
    let s = seq!['@', '"'] + path + seq!['"'] + rest;
    assert(front + seq!['@', '"'] + path + seq!['"'] + rest =~= front + s);
    lemma_plain_front(front, s, true);
    assert(s[0] == '@' && s[1] == '"');
    let quoted = s.skip(2);
    assert(quoted =~= path + seq!['"'] + rest);
    crate::text::lemma_find_bounds(quoted, '"');
    let n = path.len() as int;
    assert(quoted[n] == '"');
    assert forall|k: int| 0 <= k < n implies quoted[k] != '"' by {
        assert(path.contains(path[k]));
    }
    assert(find(quoted, '"') == n);
    assert(quoted.take(n) =~= path);
    assert(s.skip(n + 3) =~= rest);
    assert(refs_from(s, true) =~= seq![path] + refs_from(rest, false));
    assert(refs_from(front, true) + (seq![path] + refs_from(rest, false)) =~= refs_from(front, true)
        + seq![path] + refs_from(rest, false));
}

/// The references of a message are those found in it, the first twelve of them.
pub proof fn law_first_references_count(message: Seq<char>)
    ensures
        refs_from(message, true).len() <= 12 ==> refs_of(message) == refs_from(message, true),
        refs_from(message, true).len() > 12 ==> refs_of(message).len() == 12 && refs_of(
            message,
        ).is_prefix_of(refs_from(message, true)),
{
}

proof fn lemma_find_zero(name: Seq<u8>, rest: Seq<u8>)
    requires
        !name.contains(0),
        rest.len() > 0 ==> rest[0] == 0,
    ensures
        find_byte(name + rest, 0) == name.len(),
    decreases name.len(),
{
    let s = name + rest;
    if name.len() == 0 {
        assert(s =~= rest);
    } else {
        assert(name.contains(name[0]));
        assert(s[0] == name[0]);
        let less = name.drop_first();
        assert(s.drop_first() =~= less + rest);
        assert(!less.contains(0)) by {
            assert forall|k: int| 0 <= k < less.len() implies less[k] != 0 by {
                assert(name.contains(name[k + 1]));
            }
        }
        lemma_find_zero(less, rest);
    }
}

/// Each name that `git` printed is listed, in order; names end with a zero byte, which
/// the last one may lack, and empty ones are left out.
pub proof fn law_git_names_are_listed(name: Seq<u8>, rest: Seq<u8>)
    requires
        !name.contains(0),
    ensures
        zero_separated(name + seq![0u8] + rest) == (if name.len() > 0 {
            seq![lossy_text(name)]
        } else {
            Seq::empty()
        }) + zero_separated(rest),
        name.len() > 0 ==> zero_separated(name) == seq![lossy_text(name)],
        zero_separated(Seq::empty()).len() == 0,
{
    let s = name + seq![0u8] + rest;
    assert(s =~= name + (seq![0u8] + rest));
    lemma_find_zero(name, seq![0u8] + rest);
    assert(s.take(name.len() as int) =~= name);
    assert(s.skip(name.len() as int + 1) =~= rest);
    lemma_find_zero(name, Seq::empty());
    assert(name + Seq::<u8>::empty() =~= name);
}

/// The index holds the first five thousand files, or all if there are no more.
pub proof fn law_index_holds_the_first_files(files: Seq<Seq<char>>)
    ensures
        files.len() <= 5000 ==> index_cut(files) == files,
        files.len() > 5000 ==> index_cut(files).len() == 5000 && index_cut(files).is_prefix_of(files),
{
}

/// The browser lists the directories among the entries, in the order found, each with
/// its name and path, up to two hundred; files are left out.
pub proof fn law_browser_lists_directories(entries: Seq<DirEntryV>, e: DirEntryV)
    ensures
        ({
            let before = subdirs(entries);
            subdirs(entries.push(e)) == (if e.kind == EntryKind::Dir && before.len() < 200 {
                before.push((e.name, e.path))
            } else {
                before
            })
        }),
        subdirs(Seq::empty()).len() == 0,
{
    assert(entries.push(e).drop_last() =~= entries);
}

/// Sorting the directories keeps each of them and puts them in the order of their names.
pub proof fn law_browser_sorts_by_name(dirs: Seq<(Seq<char>, Seq<char>)>)
    ensures
        sorted_dirs(dirs).len() == dirs.len(),
        forall|i: int| 0 <= i < dirs.len() ==> sorted_dirs(dirs).contains(#[trigger] dirs[i]),
        forall|i: int, j: int|
            0 <= i < j < dirs.len() ==> crate::text::text_less(
                (#[trigger] sorted_dirs(dirs)[i]).0,
                (#[trigger] sorted_dirs(dirs)[j]).0,
            ) || sorted_dirs(dirs)[i].0 == sorted_dirs(dirs)[j].0,
{
    broadcast use vstd::multiset::group_multiset_axioms;

    let rows = dir_rows(dirs);
    let sorted = sorted_rows(rows);
    crate::order::law_sorted_rows(rows);
    rows.to_multiset_ensures();
    sorted.to_multiset_ensures();
    assert forall|i: int| 0 <= i < dirs.len() implies sorted_dirs(dirs).contains(
        #[trigger] dirs[i],
    ) by {
        assert(rows.contains(rows[i]));
        assert(sorted.to_multiset().count(rows[i]) > 0);
        assert(sorted.contains(rows[i]));
        let k = sorted.index_of(rows[i]);
        assert(sorted_dirs(dirs)[k] == dirs[i]);
    }
    assert forall|k: int| 0 <= k < sorted.len() implies 0 <= (#[trigger] sorted[k]).index
        < dirs.len() && sorted[k].rank == 0 && sorted[k].text == dirs[sorted[k].index].0 by {
        assert(sorted.contains(sorted[k]));
        assert(rows.to_multiset().count(sorted[k]) > 0);
        assert(rows.contains(sorted[k]));
    }
    assert forall|i: int, j: int| 0 <= i < j < dirs.len() implies crate::text::text_less(
        (#[trigger] sorted_dirs(dirs)[i]).0,
        (#[trigger] sorted_dirs(dirs)[j]).0,
    ) || sorted_dirs(dirs)[i].0 == sorted_dirs(dirs)[j].0 by {
        assert(crate::order::row_leq(sorted[i], sorted[j]));
    }
}

/// A file is named by its path from the root of the walk: the names on the way, with a
/// slash between two.
pub proof fn law_paths_count_from_the_root(rel: Seq<char>, name: Seq<char>)
    ensures
        rel.len() == 0 ==> rel_path(rel, name) == name,
        rel.len() > 0 ==> rel_path(rel, name) == rel + seq!['/'] + name,
{
    reveal_strlit("/");
    assert("/"@ =~= seq!['/']);
}

/// A walk goes on as long as there is a directory no deeper than eight levels and there
/// is room for a file.
pub proof fn law_walk_goes_on_while_it_can(walk: WalkV)
    ensures
        walk.over() <==> walk.queue.len() == 0 || walk.queue[0].depth > 8 || walk.files.len()
            >= 5000,
{
}

/// Each entry of a directory is taken in: a file is found, a directory that is not ignored
/// waits one level deeper, behind all others, and anything else is passed over.
pub proof fn law_entries_are_taken_in(walk: WalkV, at: PendingV, e: DirEntryV, rest: Seq<DirEntryV>)
    requires
        at.depth <= 8,
        walk.files.len() < 4999,
    ensures
        ({
            let after = walk.with_entries(at, seq![e] + rest);
            &&& e.kind == EntryKind::File ==> after == (WalkV {
                files: walk.files.push(rel_path(at.rel, e.name)),
                ..walk
            }).with_entries(at, rest)
            &&& e.kind == EntryKind::Dir && !skipped_dir(e.name) ==> after == (WalkV {
                queue: walk.queue.push(
                    PendingV {
                        dir: e.path,
                        rel: rel_path(at.rel, e.name),
                        depth: (at.depth + 1) as usize,
                    },
                ),
                ..walk
            }).with_entries(at, rest)
            &&& e.kind == EntryKind::Other || (e.kind == EntryKind::Dir && skipped_dir(e.name))
                ==> after == walk.with_entries(at, rest)
        }),
        walk.with_entries(at, Seq::empty()) == walk,
{
    let all = seq![e] + rest;
    assert(all[0] == e);
    assert(all.drop_first() =~= rest);
}

/// A queue whose directories skip a level, or go back to one, does not go level by level.
pub proof fn law_levels_come_in_order(walk: WalkV, i: int, j: int)
    requires
        0 <= i < j < walk.queue.len(),
        walk.level_by_level(),
    ensures
        walk.queue[j].depth == walk.queue[i].depth || walk.queue[j].depth == walk.queue[i].depth + 1,
{
}

} // verus!
