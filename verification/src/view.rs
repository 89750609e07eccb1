//! What the panel shows, as plain values: texts, choices and highlights.

use vstd::prelude::*;
use vstd::string::*;
use vstd::utf8::encode_utf8;

use crate::ids::{content_id, stable_id};
use crate::panel::{
    BrowseState, BrowseStateV, PanelV, PendingUi, PendingUiV, PiEntry, PiEntryKind, PiEntryKindV,
    PiEntryV, PiPanelState, PiStatus, PiStatusV, StreamBlock, StreamBlockV,
};
use crate::popup::{Popup, PopupV, MAX_VISIBLE};
use crate::protocol::{ModelInfoV, SessionInfo, SessionInfoV, SessionStats, SessionStatsV};
use crate::text::{clip, clipped, decimal, decimal_text, same, trim, trimmed};
use crate::web::{find_session, session_at};

verus! {

broadcast use {crate::model::group_views, vstd::std_specs::hash::group_hash_axioms};

/// How many options of a question and how many directories are shown.
pub const MAX_CHOICES: usize = 8;

// ── Status strip ────────────────────────────────────────────────────────────

/// The connection status in words.
pub open spec fn status_text(status: PiStatusV) -> Seq<char> {
    match status {
        PiStatusV::Idle => "未连接"@,
        PiStatusV::Connecting => "正在连接 pi-web…"@,
        PiStatusV::Ready { session, streaming } => (if streaming {
            "● 生成中"@
        } else {
            "○ 空闲"@
        }) + " · 会话 "@ + clipped(session, 8),
        PiStatusV::Error(e) => "连接失败："@ + e,
    }
}

/// The caption of the button that connects, where there is one.
pub open spec fn connect_caption(status: PiStatusV) -> Option<Seq<char>> {
    match status {
        PiStatusV::Idle => Some("连接"@),
        PiStatusV::Error(_) => Some("重连"@),
        _ => None,
    }
}

/// The hint shown in place of an empty transcript.
pub open spec fn empty_hint(status: PiStatusV, any_session: bool) -> Seq<char> {
    match status {
        PiStatusV::Error(
            _,
        ) => "未连接。\n· pi-web 后端：先启动 pi-web（默认 http://127.0.0.1:30141）\n· rpc 后端：在状态条把后端切到 rpc（只需本机 pi，无需 pi-web）\n端点可用 OCS_PI_ENDPOINT 覆盖，模式可用 OCS_PI_MODE=auto|web|rpc 覆盖。"@,
        PiStatusV::Ready { .. } => if any_session {
            "暂无消息 — 在下方输入框发送第一条"@
        } else {
            "pi-web 没有会话。\n在网页端新建一个会话后，本面板会自动跟随。"@
        },
        PiStatusV::Connecting => "正在连接…"@,
        PiStatusV::Idle => "未连接 — 点击上方「连接」开始"@,
    }
}

/// The label of a session in the picker.
pub open spec fn session_caption(s: SessionInfoV) -> Seq<char> {
    if s.label.len() == 0 {
        "（无标题会话）"@
    } else {
        s.label
    }
}

/// The label of a session in the picker.
pub fn session_label_text(s: &SessionInfo) -> (out: String)
    ensures
        out@ == session_caption(s.deep_view()),
{
    if s.label.as_str().is_empty() {
        "（无标题会话）".to_owned()
    } else {
        s.label.clone()
    }
}

// ── Entries ─────────────────────────────────────────────────────────────────

/// The badge next to a tool row.
#[derive(Debug, Clone, Copy, PartialEq, Eq, Structural)]
pub enum Badge {
    Running,
    Done,
    Failed,
}

impl Badge {
    pub open spec fn text(self) -> Seq<char> {
        match self {
            Badge::Running => "运行中…"@,
            Badge::Done => "完成"@,
            Badge::Failed => "出错"@,
        }
    }

    pub fn label(self) -> (out: &'static str)
        ensures
            out@ == self.text(),
    {
        match self {
            Badge::Running => "运行中…",
            Badge::Done => "完成",
            Badge::Failed => "出错",
        }
    }
}

/// The badge of a tool call.
pub open spec fn badge_of(done: bool, is_error: bool) -> Badge {
    if !done {
        Badge::Running
    } else if is_error {
        Badge::Failed
    } else {
        Badge::Done
    }
}

/// The badge of a tool call.
pub fn tool_badge(done: bool, is_error: bool) -> (out: Badge)
    ensures
        out == badge_of(done, is_error),
{
    if !done {
        Badge::Running
    } else if is_error {
        Badge::Failed
    } else {
        Badge::Done
    }
}

/// What a collapsible or plain entry shows: a title, a badge, and a body where
/// there is one to show.
#[derive(Debug, PartialEq)]
pub struct EntryText {
    pub title: String,
    pub badge: Option<Badge>,
    pub body: Option<String>,
}

/// Model of [`EntryText`].
pub struct EntryTextV {
    pub title: Seq<char>,
    pub badge: Option<Badge>,
    pub body: Option<Seq<char>>,
}

impl DeepView for EntryText {
    type V = EntryTextV;

    open spec fn deep_view(&self) -> EntryTextV {
        EntryTextV { title: self.title@, badge: self.badge, body: self.body.deep_view() }
    }
}

/// A body that shows only if the entry is expanded and there is something.
pub open spec fn folded(text: Seq<char>, expanded: bool) -> Option<Seq<char>> {
    if expanded && text.len() > 0 {
        Some(text)
    } else {
        None
    }
}

/// What an entry shows. A message that only carried an image shows a placeholder.
pub open spec fn entry_text(e: PiEntryV) -> EntryTextV {
    match e.kind {
        PiEntryKindV::User(t) => EntryTextV {
            title: "你"@,
            badge: None,
            body: Some(
                if t.len() == 0 {
                    "📷 截图"@
                } else {
                    t
                },
            ),
        },
        PiEntryKindV::Assistant(body) => EntryTextV {
            title: "Pi"@,
            badge: None,
            body: Some(body.text),
        },
        PiEntryKindV::Thinking(t) => EntryTextV {
            title: "思考"@,
            badge: None,
            body: folded(t, e.expanded),
        },
        PiEntryKindV::Tool { id: _, name, output, done, is_error } => EntryTextV {
            title: "工具 · "@ + name,
            badge: Some(badge_of(done, is_error)),
            body: folded(output, e.expanded),
        },
        PiEntryKindV::Notice(n) => EntryTextV { title: Seq::empty(), badge: None, body: Some(n) },
    }
}

fn fold(text: &String, expanded: bool) -> (out: Option<String>)
    ensures
        out.deep_view() == folded(text@, expanded),
{
    if expanded && !text.as_str().is_empty() {
        Some(text.clone())
    } else {
        None
    }
}

/// What an entry shows.
pub fn entry_view(e: &PiEntry) -> (out: EntryText)
    ensures
        out.deep_view() == entry_text(e.deep_view()),
{
    match &e.kind {
        PiEntryKind::User(t) => {
            let body = if t.as_str().is_empty() {
                "📷 截图".to_owned()
            } else {
                t.clone()
            };
            EntryText { title: "你".to_owned(), badge: None, body: Some(body) }
        },
        PiEntryKind::Assistant(body) => EntryText {
            title: "Pi".to_owned(),
            badge: None,
            body: Some(body.text.clone()),
        },
        PiEntryKind::Thinking(t) => EntryText {
            title: "思考".to_owned(),
            badge: None,
            body: fold(t, e.expanded),
        },
        PiEntryKind::Tool { id: _, name, output, done, is_error } => {
            let mut title = "工具 · ".to_owned();
            title.append(name.as_str());
            EntryText {
                title,
                badge: Some(tool_badge(*done, *is_error)),
                body: fold(output, e.expanded),
            }
        },
        PiEntryKind::Notice(n) => {
            let title = String::new();
            assert(title@ =~= Seq::empty());
            EntryText { title, badge: None, body: Some(n.clone()) }
        },
    }
}

/// The marker in front of a collapsible row.
pub fn fold_marker(expanded: bool) -> (out: &'static str)
    ensures
        out@ == (if expanded {
            "▾"@
        } else {
            "▸"@
        }),
{
    if expanded {
        "▾"
    } else {
        "▸"
    }
}

/// The id by which a live thinking block is expanded: the same for every delta.
pub open spec fn live_id(idx: usize) -> u64 {
    content_id("t"@, "live-"@ + decimal(idx as nat), 0)
}

/// The id by which a live thinking block is expanded.
pub fn live_block_id(idx: usize) -> (id: u64)
    ensures
        id == live_id(idx),
{
    let mut key = "live-".to_owned();
    key.append(decimal_text(idx as u64).as_str());
    stable_id("t", key.as_str(), 0)
}

/// A block of the live message as it is shown: a thinking block can be expanded
/// by its id, a text block shows a placeholder until its first text arrives.
#[allow(inconsistent_fields)]
#[derive(Debug, PartialEq)]
pub enum LiveBlock {
    Thinking { title: &'static str, id: u64, expanded: bool, body: Option<String> },
    Text { title: &'static str, body: String },
}

/// Model of [`LiveBlock`].
#[allow(inconsistent_fields)]
pub enum LiveBlockV {
    Thinking { title: Seq<char>, id: u64, expanded: bool, body: Option<Seq<char>> },
    Text { title: Seq<char>, body: Seq<char> },
}

impl DeepView for LiveBlock {
    type V = LiveBlockV;

    open spec fn deep_view(&self) -> LiveBlockV {
        match self {
            LiveBlock::Thinking { title, id, expanded, body } => LiveBlockV::Thinking {
                title: title@,
                id: *id,
                expanded: *expanded,
                body: body.deep_view(),
            },
            LiveBlock::Text { title, body } => LiveBlockV::Text { title: title@, body: body@ },
        }
    }
}

/// How a block of the live message is shown; `open` holds the expanded ids.
pub open spec fn live_text(block: StreamBlockV, open: Set<u64>) -> LiveBlockV {
    match block {
        StreamBlockV::Thinking { idx, text } => LiveBlockV::Thinking {
            title: "思考中…"@,
            id: live_id(idx),
            expanded: open.contains(live_id(idx)),
            body: folded(text, open.contains(live_id(idx))),
        },
        StreamBlockV::Text { idx: _, text } => LiveBlockV::Text {
            title: "Pi"@,
            body: if text.len() == 0 {
                "…"@
            } else {
                text
            },
        },
    }
}

/// The cell of a table row under the column `index`; rows may be short.
pub fn table_cell(row: &Vec<String>, index: usize) -> (out: String)
    ensures
        out@ == (if index < row@.len() {
            row@[index as int]@
        } else {
            Seq::empty()
        }),
{
    if index < row.len() {
        row[index].clone()
    } else {
        let none = String::new();
        assert(none@ =~= Seq::empty());
        none
    }
}

// ── Composer ────────────────────────────────────────────────────────────────

/// A key the composer reacts to.
#[derive(Debug, Clone, Copy, PartialEq, Eq, Structural)]
pub enum ComposerKey {
    Up,
    Down,
    Enter,
    Tab,
    Escape,
    /// The paste shortcut.
    Paste,
    Other,
}

/// What a key press in the composer means.
#[derive(Debug, Clone, Copy, PartialEq, Eq, Structural)]
pub enum KeyMeaning {
    MenuUp,
    MenuDown,
    MenuAccept,
    MenuClose,
    Send,
    Paste,
    /// What the editor makes of it.
    Edit,
}

/// What a key press in the composer means. An open popup owns the navigation
/// keys; Enter without Shift sends.
pub open spec fn key_meaning(
    focused: bool,
    menu_open: bool,
    key: ComposerKey,
    shift: bool,
) -> KeyMeaning {
    let plain_enter = key == ComposerKey::Enter && !shift;
    if !focused {
        KeyMeaning::Edit
    } else if menu_open && key == ComposerKey::Up {
        KeyMeaning::MenuUp
    } else if menu_open && key == ComposerKey::Down {
        KeyMeaning::MenuDown
    } else if menu_open && (plain_enter || key == ComposerKey::Tab) {
        KeyMeaning::MenuAccept
    } else if menu_open && key == ComposerKey::Escape {
        KeyMeaning::MenuClose
    } else if plain_enter {
        KeyMeaning::Send
    } else if key == ComposerKey::Paste {
        KeyMeaning::Paste
    } else {
        KeyMeaning::Edit
    }
}

/// What a key press in the composer means.
pub fn read_key(focused: bool, menu_open: bool, key: ComposerKey, shift: bool) -> (out: KeyMeaning)
    ensures
        out == key_meaning(focused, menu_open, key, shift),
{
    let plain_enter = key == ComposerKey::Enter && !shift;
    if !focused {
        KeyMeaning::Edit
    } else if menu_open && key == ComposerKey::Up {
        KeyMeaning::MenuUp
    } else if menu_open && key == ComposerKey::Down {
        KeyMeaning::MenuDown
    } else if menu_open && (plain_enter || key == ComposerKey::Tab) {
        KeyMeaning::MenuAccept
    } else if menu_open && key == ComposerKey::Escape {
        KeyMeaning::MenuClose
    } else if plain_enter {
        KeyMeaning::Send
    } else if key == ComposerKey::Paste {
        KeyMeaning::Paste
    } else {
        KeyMeaning::Edit
    }
}

/// The first model with this provider and id; the number of models if there is
/// none.
pub open spec fn model_at(
    models: Seq<ModelInfoV>,
    provider: Seq<char>,
    id: Seq<char>,
) -> int
    decreases models.len(),
{
    if models.len() == 0 || (models[0].provider == provider && models[0].id == id) {
        0
    } else {
        1 + model_at(models.drop_first(), provider, id)
    }
}

/// The first list under this key; nothing if there is none.
pub open spec fn levels_for(
    levels: Seq<(Seq<char>, Seq<Seq<char>>)>,
    key: Seq<char>,
) -> Seq<Seq<char>>
    decreases levels.len(),
{
    if levels.len() == 0 {
        Seq::empty()
    } else if levels[0].0 == key {
        levels[0].1
    } else {
        levels_for(levels.drop_first(), key)
    }
}

/// Where `text` first stands in `list`; the length of the list if it does not.
pub open spec fn text_at(list: Seq<Seq<char>>, text: Seq<char>) -> int
    decreases list.len(),
{
    if list.len() == 0 || list[0] == text {
        0
    } else {
        1 + text_at(list.drop_first(), text)
    }
}

/// Where `text` first stands in `list`; the length of the list if it does not.
pub fn find_text_in(list: &Vec<String>, text: &str) -> (at: usize)
    ensures
        at == text_at(list.deep_view(), text@),
        at <= list@.len(),
{
    let ghost all = list.deep_view();
    assert(all.skip(0) =~= all);
    let mut i: usize = 0;
    while i < list.len()
        invariant
            i <= list@.len(),
            all == list.deep_view(),
            text_at(all, text@) == i + text_at(all.skip(i as int), text@),
        decreases list@.len() - i,
    {
        assert(all.skip(i as int)[0] == list@[i as int]@);
        if same(list[i].as_str(), text) {
            return i;
        }
        assert(all.skip(i as int).drop_first() =~= all.skip(i + 1));
        i += 1;
    }
    i
}

/// How many KB an image takes, from the length of its base64.
pub open spec fn image_kb(base64_len: nat) -> nat {
    base64_len * 3 / 4 / 1024
}

/// The chip of an attached image: its size in KB and, if known, in pixels.
pub open spec fn chip_text(base64_len: nat, size: Option<(u32, u32)>) -> Seq<char> {
    "📷 截图（"@ + decimal(image_kb(base64_len)) + " KB）"@ + (match size {
        Some((w, h)) => " "@ + decimal(w as nat) + "×"@ + decimal(h as nat),
        None => Seq::empty(),
    })
}

/// The hint below the composer.
pub open spec fn hint_text(streaming: bool, queued: Option<usize>) -> Seq<char> {
    let hint = if streaming {
        "Pi 生成中…Enter 会排队为后续消息"@
    } else {
        "Enter 发送 / Shift+Enter 换行"@
    };
    match queued {
        Some(n) => if n > 0 {
            "已排队 "@ + decimal(n as nat) + " 条 · "@ + hint
        } else {
            hint
        },
        None => hint,
    }
}

/// The counts of an accounting line, already shortened for display.
pub struct ShortStats {
    pub input: String,
    pub output: String,
    pub cache_read: String,
    pub cache_write: String,
    pub tokens: String,
    pub window: String,
    /// The cost with its decimals, if known.
    pub cost: Option<String>,
}

/// Model of [`ShortStats`].
pub struct ShortStatsV {
    pub input: Seq<char>,
    pub output: Seq<char>,
    pub cache_read: Seq<char>,
    pub cache_write: Seq<char>,
    pub tokens: Seq<char>,
    pub window: Seq<char>,
    pub cost: Option<Seq<char>>,
}

impl DeepView for ShortStats {
    type V = ShortStatsV;

    open spec fn deep_view(&self) -> ShortStatsV {
        ShortStatsV {
            input: self.input@,
            output: self.output@,
            cache_read: self.cache_read@,
            cache_write: self.cache_write@,
            tokens: self.tokens@,
            window: self.window@,
            cost: self.cost.deep_view(),
        }
    }
}

/// Whether there is accounting worth a line.
pub open spec fn stats_shown(stats: SessionStatsV) -> bool {
    stats.input > 0 || stats.context_tokens is Some
}

/// How much of the context window is used: as reported, else computed.
pub open spec fn used_percent(stats: SessionStatsV, tokens: u64, window: u64) -> Option<nat> {
    match stats.context_percent {
        Some(p) => Some(p as nat),
        None => if window > 0 {
            Some((tokens as nat) * 100 / (window as nat))
        } else {
            None
        },
    }
}

/// Whether the used share, where it has to be computed, can be.
pub open spec fn percent_fits(stats: SessionStatsV) -> bool {
    match (stats.context_percent, stats.context_tokens, stats.context_window) {
        (None, Some(tokens), Some(window)) => window > 0 ==> tokens * 100 <= u64::MAX,
        _ => true,
    }
}

/// The accounting line.
pub open spec fn stats_text(stats: SessionStatsV, short: ShortStatsV) -> Seq<char> {
    let base = "↑"@ + short.input + " ↓"@ + short.output + " · 缓存 "@ + short.cache_read + "/"@
        + short.cache_write;
    let context = match (stats.context_tokens, stats.context_window) {
        (Some(tokens), Some(window)) => base + " · 上下文 "@ + (match used_percent(
            stats,
            tokens,
            window,
        ) {
            Some(p) => decimal(p) + "%"@,
            None => Seq::empty(),
        }) + "（"@ + short.tokens + "/"@ + short.window + "）"@,
        _ => base,
    };
    match short.cost {
        Some(c) => context + " · $"@ + c,
        None => context,
    }
}

/// The accounting line, where there is one.
pub fn stats_line(stats: &SessionStats, short: &ShortStats) -> (out: Option<String>)
    requires
        percent_fits(stats.deep_view()),
    ensures
        out.deep_view() == (if stats_shown(stats.deep_view()) {
            Some(stats_text(stats.deep_view(), short.deep_view()))
        } else {
            None
        }),
{
    if !(stats.input > 0 || stats.context_tokens.is_some()) {
        return None;
    }
    let mut line = "↑".to_owned();
    line.append(short.input.as_str());
    line.append(" ↓");
    line.append(short.output.as_str());
    line.append(" · 缓存 ");
    line.append(short.cache_read.as_str());
    line.append("/");
    line.append(short.cache_write.as_str());
    if let (Some(tokens), Some(window)) = (stats.context_tokens, stats.context_window) {
        line.append(" · 上下文 ");
        let mut percent = String::new();
        assert(percent@ =~= Seq::empty());
        match stats.context_percent {
            Some(p) => {
                percent = decimal_text(p as u64);
                percent.append("%");
            },
            None => {
                if window > 0 {
                    percent = decimal_text(tokens * 100 / window);
                    percent.append("%");
                }
            },
        }
        line.append(percent.as_str());
        line.append("（");
        line.append(short.tokens.as_str());
        line.append("/");
        line.append(short.window.as_str());
        line.append("）");
    }
    if let Some(c) = &short.cost {
        line.append(" · $");
        line.append(c.as_str());
    }
    Some(line)
}

// ── Popup, browser and questions ────────────────────────────────────────────

/// The first visible row of a popup whose highlight is at `active`.
pub open spec fn window_start(active: int) -> int {
    if active < MAX_VISIBLE {
        0
    } else {
        active - (MAX_VISIBLE - 1)
    }
}

/// A command as a popup row: its name and, behind it, where it comes from and
/// what it does.
pub open spec fn command_row(c: crate::protocol::CommandInfoV) -> (Seq<char>, Seq<char>) {
    (
        "/"@ + c.name,
        if c.source.len() == 0 {
            c.description
        } else {
            "["@ + c.source + "] "@ + c.description
        },
    )
}

/// The rows of the commands at `matches`.
pub open spec fn command_rows(
    commands: Seq<crate::protocol::CommandInfoV>,
    matches: Seq<usize>,
) -> Seq<(Seq<char>, Seq<char>)>
    decreases matches.len(),
{
    if matches.len() == 0 {
        Seq::empty()
    } else {
        let before = command_rows(commands, matches.drop_last());
        if matches.last() < commands.len() {
            before.push(command_row(commands[matches.last() as int]))
        } else {
            before
        }
    }
}

/// The visible part of a list whose highlight is at `active`.
pub open spec fn visible<T>(list: Seq<T>, active: int) -> Seq<T> {
    let start = window_start(active);
    let end = start + MAX_VISIBLE;
    if start >= list.len() {
        Seq::empty()
    } else if end >= list.len() {
        list.skip(start)
    } else {
        list.subrange(start, end)
    }
}

/// The visible rows of a popup: label and hint.
pub open spec fn popup_text(p: PanelV, popup: PopupV) -> Seq<(Seq<char>, Seq<char>)> {
    match popup {
        PopupV::Slash { matches, active, .. } => command_rows(
            p.commands,
            visible(matches, active as int),
        ),
        PopupV::At { matches, active, .. } => visible(matches, active as int).map_values(
            |path: Seq<char>| ("@"@ + path, Seq::<char>::empty()),
        ),
    }
}

fn bounds(len: usize, active: usize) -> (out: (usize, usize))
    ensures
        out.0 <= out.1 <= len,
        forall|s: Seq<usize>|
            s.len() == len ==> #[trigger] visible(s, active as int) == s.subrange(
                out.0 as int,
                out.1 as int,
            ),
        forall|s: Seq<Seq<char>>|
            s.len() == len ==> #[trigger] visible(s, active as int) == s.subrange(
                out.0 as int,
                out.1 as int,
            ),
{
    let start: usize = if active < MAX_VISIBLE {
        0
    } else {
        active - (MAX_VISIBLE - 1)
    };
    if start >= len {
        assert forall|s: Seq<usize>| s.len() == len implies #[trigger] visible(s, active as int)
            == s.subrange(len as int, len as int) by {
            assert(s.subrange(len as int, len as int) =~= Seq::empty());
        }
        assert forall|s: Seq<Seq<char>>| s.len() == len implies #[trigger] visible(
            s,
            active as int,
        ) == s.subrange(len as int, len as int) by {
            assert(s.subrange(len as int, len as int) =~= Seq::empty());
        }
        return (len, len);
    }
    let end: usize = if len - start <= MAX_VISIBLE {
        len
    } else {
        start + MAX_VISIBLE
    };
    assert forall|s: Seq<usize>| s.len() == len implies #[trigger] visible(s, active as int)
        == s.subrange(start as int, end as int) by {
        assert(s.subrange(start as int, end as int) =~= visible(s, active as int));
    }
    assert forall|s: Seq<Seq<char>>| s.len() == len implies #[trigger] visible(s, active as int)
        == s.subrange(start as int, end as int) by {
        assert(s.subrange(start as int, end as int) =~= visible(s, active as int));
    }
    (start, end)
}

/// What is asked in a dialog.
#[derive(Debug, PartialEq)]
pub enum Dialog {
    /// Choose one of the options; a long list scrolls.
    Select { options: Vec<String>, scroll: bool },
    Confirm,
    /// Answer with free text; `editor` is the tall variant. Other questions get a
    /// submit button without a text field.
    Text { field: bool, editor: bool },
}

/// Model of [`Dialog`].
pub enum DialogV {
    Select { options: Seq<Seq<char>>, scroll: bool },
    Confirm,
    Text { field: bool, editor: bool },
}

impl DeepView for Dialog {
    type V = DialogV;

    open spec fn deep_view(&self) -> DialogV {
        match self {
            Dialog::Select { options, scroll } => DialogV::Select {
                options: options.deep_view(),
                scroll: *scroll,
            },
            Dialog::Confirm => DialogV::Confirm,
            Dialog::Text { field, editor } => DialogV::Text { field: *field, editor: *editor },
        }
    }
}

/// The dialog of a question.
pub open spec fn dialog_of(q: PendingUiV) -> DialogV {
    if q.method == "select"@ {
        DialogV::Select {
            options: if q.options.len() <= MAX_CHOICES {
                q.options
            } else {
                q.options.take(MAX_CHOICES as int)
            },
            scroll: q.options.len() > 3,
        }
    } else if q.method == "confirm"@ {
        DialogV::Confirm
    } else {
        DialogV::Text {
            field: q.method == "input"@ || q.method == "editor"@,
            editor: q.method == "editor"@,
        }
    }
}

/// The dialog of a question.
pub fn ui_request_view(q: &PendingUi) -> (out: Dialog)
    ensures
        out.deep_view() == dialog_of(q.deep_view()),
{
    if same(q.method.as_str(), "select") {
        let ghost all = q.options.deep_view();
        assert(all.len() == q.options@.len());
        let mut options: Vec<String> = Vec::new();
        assert(all.take(0) =~= Seq::empty());
        let mut i: usize = 0;
        while i < q.options.len() && i < MAX_CHOICES
            invariant
                i <= q.options@.len(),
                i <= MAX_CHOICES,
                all == q.options.deep_view(),
                options.deep_view() == all.take(i as int),
            decreases q.options@.len() - i,
        {
            options.push(q.options[i].clone());
            assert(all.take(i + 1) =~= all.take(i as int).push(q.options@[i as int]@));
            i += 1;
        }
        if i == q.options.len() {
            assert(all.take(i as int) =~= all);
        }
        Dialog::Select { options, scroll: q.options.len() > 3 }
    } else if same(q.method.as_str(), "confirm") {
        Dialog::Confirm
    } else {
        let editor = same(q.method.as_str(), "editor");
        Dialog::Text { field: editor || same(q.method.as_str(), "input"), editor }
    }
}

/// What the directory browser shows: a note, and the rows with their targets.
pub open spec fn browse_note(b: BrowseStateV) -> Option<Seq<char>> {
    if b.loading {
        Some("读取目录…"@)
    } else if b.dirs.len() == 0 {
        Some("（没有子目录）"@)
    } else {
        None
    }
}

/// The rows of the directory browser: caption and target of each.
pub open spec fn browse_rows(b: BrowseStateV) -> Seq<(Seq<char>, Seq<char>)> {
    let shown = if b.dirs.len() <= MAX_CHOICES {
        b.dirs
    } else {
        b.dirs.take(MAX_CHOICES as int)
    };
    shown.map_values(|d: (Seq<char>, Seq<char>)| ("📁 "@ + d.0, d.1))
}

/// What the directory browser shows.
pub fn browse_view(b: &BrowseState) -> (out: (Option<&'static str>, Vec<(String, String)>))
    ensures
        out.0.deep_view() == browse_note(b.deep_view()),
        out.1.deep_view() == browse_rows(b.deep_view()),
{
    let ghost all = b.dirs.deep_view();
    assert(all.len() == b.dirs@.len());
    let note: Option<&'static str> = if b.loading {
        Some("读取目录…")
    } else if b.dirs.len() == 0 {
        Some("（没有子目录）")
    } else {
        None
    };
    let mut rows: Vec<(String, String)> = Vec::new();
    let mut i: usize = 0;
    while i < b.dirs.len() && i < MAX_CHOICES
        invariant
            i <= b.dirs@.len(),
            i <= MAX_CHOICES,
            all == b.dirs.deep_view(),
            rows.deep_view() == all.take(i as int).map_values(
                |d: (Seq<char>, Seq<char>)| ("📁 "@ + d.0, d.1),
            ),
        decreases b.dirs@.len() - i,
    {
        let mut caption = "📁 ".to_owned();
        caption.append(b.dirs[i].0.as_str());
        rows.push((caption, b.dirs[i].1.clone()));
        assert(all.take(i + 1) =~= all.take(i as int).push(b.dirs@[i as int].deep_view()));
        assert(rows.deep_view() =~= all.take(i + 1).map_values(
            |d: (Seq<char>, Seq<char>)| ("📁 "@ + d.0, d.1),
        ));
        i += 1;
    }
    if i == b.dirs.len() {
        assert(all.take(i as int) =~= all);
    }
    (note, rows)
}

impl PiPanelState {
    /// The connection status in words.
    pub fn status_label(&self) -> (out: String)
        ensures
            out@ == status_text(self.deep_view().status),
    {
        match &self.status {
            PiStatus::Idle => "未连接".to_owned(),
            PiStatus::Connecting => "正在连接 pi-web…".to_owned(),
            PiStatus::Ready { session, streaming } => {
                let mut out = if *streaming {
                    "● 生成中".to_owned()
                } else {
                    "○ 空闲".to_owned()
                };
                out.append(" · 会话 ");
                out.append(clip(session.as_str(), 8).as_str());
                out
            },
            PiStatus::Error(e) => {
                let mut out = "连接失败：".to_owned();
                out.append(e.as_str());
                out
            },
        }
    }

    /// The caption of the button that connects, where there is one.
    pub fn reconnect_label(&self) -> (out: Option<&'static str>)
        ensures
            out.deep_view() == connect_caption(self.deep_view().status),
    {
        match &self.status {
            PiStatus::Idle => Some("连接"),
            PiStatus::Error(_) => Some("重连"),
            _ => None,
        }
    }

    /// The hint shown in place of an empty transcript.
    pub fn empty_state(&self) -> (out: &'static str)
        ensures
            out@ == empty_hint(self.deep_view().status, self.deep_view().sessions.len() > 0),
    {
        assert(self.sessions.deep_view().len() == self.sessions@.len());
        match &self.status {
            PiStatus::Error(
                _,
            ) => "未连接。\n· pi-web 后端：先启动 pi-web（默认 http://127.0.0.1:30141）\n· rpc 后端：在状态条把后端切到 rpc（只需本机 pi，无需 pi-web）\n端点可用 OCS_PI_ENDPOINT 覆盖，模式可用 OCS_PI_MODE=auto|web|rpc 覆盖。",
            PiStatus::Ready { .. } => if self.sessions.len() > 0 {
                "暂无消息 — 在下方输入框发送第一条"
            } else {
                "pi-web 没有会话。\n在网页端新建一个会话后，本面板会自动跟随。"
            },
            PiStatus::Connecting => "正在连接…",
            PiStatus::Idle => "未连接 — 点击上方「连接」开始",
        }
    }

    /// Whether there is nothing to show.
    pub fn nothing_to_show(&self) -> (r: bool)
        ensures
            r == (self.deep_view().entries.len() == 0 && self.deep_view().streaming.len() == 0),
    {
        assert(self.entries.deep_view().len() == self.entries@.len());
        assert(self.streaming.blocks.deep_view().len() == self.streaming.blocks@.len());
        self.entries.len() == 0 && self.streaming.blocks.len() == 0
    }

    /// Which session the picker shows as selected.
    pub fn selected_session(&self) -> (out: Option<usize>)
        ensures
            out == match self.deep_view().active {
                Some(id) => {
                    let at = session_at(self.deep_view().sessions, id);
                    if at < self.deep_view().sessions.len() {
                        Some(at as usize)
                    } else {
                        None::<usize>
                    }
                },
                None => None::<usize>,
            },
    {
        assert(self.sessions.deep_view().len() == self.sessions@.len());
        match &self.active {
            Some(id) => {
                let at: usize = find_session(&self.sessions, id.as_str());
                if at < self.sessions.len() {
                    Some(at)
                } else {
                    None
                }
            },
            None => None,
        }
    }

    /// Whether there is something to send.
    pub fn can_send(&self) -> (r: bool)
        ensures
            r == (trimmed(self.deep_view().input).len() > 0 || self.deep_view().pending_image is Some),
    {
        !trim(self.input.as_str()).as_str().is_empty() || self.pending_image.is_some()
    }

    /// Whether the popup has something to choose from.
    pub fn menu_open(&self) -> (r: bool)
        ensures
            r == (self.deep_view().popup matches Some(p) && p.len() > 0),
    {
        match &self.popup {
            Some(p) => p.len() > 0,
            None => false,
        }
    }

    /// Whether the context can be compacted now.
    pub fn can_compact(&self) -> (r: bool)
        ensures
            r == !self.deep_view().is_streaming(),
    {
        !self.is_streaming()
    }

    /// The chip of the attached image.
    pub fn attachment_label(&self) -> (out: Option<String>)
        requires
            self.deep_view().pending_image matches Some(i) ==> encode_utf8(i.base64).len() * 3
                <= usize::MAX,
        ensures
            out.deep_view() == match self.deep_view().pending_image {
                Some(i) => Some(
                    chip_text(encode_utf8(i.base64).len(), self.pending_image_size),
                ),
                None => None,
            },
    {
        match &self.pending_image {
            Some(image) => {
                let len: usize = image.base64.as_str().as_bytes().len();
                let kb: usize = len * 3 / 4 / 1024;
                let mut out = "📷 截图（".to_owned();
                out.append(decimal_text(kb as u64).as_str());
                out.append(" KB）");
                let mut dims = String::new();
                assert(dims@ =~= Seq::empty());
                if let Some((w, h)) = self.pending_image_size {
                    dims = " ".to_owned();
                    dims.append(decimal_text(w as u64).as_str());
                    dims.append("×");
                    dims.append(decimal_text(h as u64).as_str());
                }
                out.append(dims.as_str());
                Some(out)
            },
            None => None,
        }
    }

    /// The hint below the composer.
    pub fn hint(&self) -> (out: String)
        ensures
            out@ == hint_text(self.deep_view().is_streaming(), self.queued_followups),
    {
        let hint = if self.is_streaming() {
            "Pi 生成中…Enter 会排队为后续消息"
        } else {
            "Enter 发送 / Shift+Enter 换行"
        };
        if let Some(n) = self.queued_followups {
            if n > 0 {
                let mut out = "已排队 ".to_owned();
                out.append(decimal_text(n as u64).as_str());
                out.append(" 条 · ");
                out.append(hint);
                return out;
            }
        }
        hint.to_owned()
    }

    /// Which model the picker shows as selected.
    pub fn selected_model(&self) -> (out: Option<usize>)
        ensures
            out == match self.deep_view().current_model {
                Some((provider, id)) => {
                    let at = model_at(self.deep_view().models, provider, id);
                    if at < self.deep_view().models.len() {
                        Some(at as usize)
                    } else {
                        None::<usize>
                    }
                },
                None => None::<usize>,
            },
    {
        let ghost all = self.models.deep_view();
        assert(all.len() == self.models@.len());
        let (provider, id) = match &self.current_model {
            Some((p, i)) => (p, i),
            None => {
                return None;
            },
        };
        assert(all.skip(0) =~= all);
        let mut i: usize = 0;
        while i < self.models.len()
            invariant
                i <= self.models@.len(),
                all == self.models.deep_view(),
                all.len() == self.models@.len(),
                self.deep_view().current_model == Some((provider@, id@)),
                model_at(all, provider@, id@) == i + model_at(
                    all.skip(i as int),
                    provider@,
                    id@,
                ),
            decreases self.models@.len() - i,
        {
            assert(all.skip(i as int)[0] == self.models@[i as int].deep_view());
            if same(self.models[i].provider.as_str(), provider.as_str()) && same(
                self.models[i].id.as_str(),
                id.as_str(),
            ) {
                return Some(i);
            }
            assert(all.skip(i as int).drop_first() =~= all.skip(i + 1));
            i += 1;
        }
        None
    }

    /// The thinking levels of the model that the session uses.
    pub fn levels(&self) -> (out: Vec<String>)
        ensures
            out.deep_view() == match self.deep_view().current_model {
                Some((provider, id)) => levels_for(
                    self.deep_view().thinking_levels,
                    provider + ":"@ + id,
                ),
                None => Seq::empty(),
            },
    {
        let ghost all = self.thinking_levels.deep_view();
        let key = match &self.current_model {
            Some((p, i)) => {
                let mut key = p.clone();
                key.append(":");
                key.append(i.as_str());
                key
            },
            None => {
                return Vec::new();
            },
        };
        assert(all.skip(0) =~= all);
        let mut i: usize = 0;
        while i < self.thinking_levels.len()
            invariant
                i <= self.thinking_levels@.len(),
                all == self.thinking_levels.deep_view(),
                self.deep_view().current_model matches Some((provider, id)) && key@ == provider
                    + ":"@ + id,
                levels_for(all, key@) == levels_for(all.skip(i as int), key@),
            decreases self.thinking_levels@.len() - i,
        {
            assert(all.skip(i as int)[0] == self.thinking_levels@[i as int].deep_view());
            if same(self.thinking_levels[i].0.as_str(), key.as_str()) {
                let list = &self.thinking_levels[i].1;
                let ghost texts = list.deep_view();
                let mut out: Vec<String> = Vec::new();
                assert(texts.take(0) =~= Seq::empty());
                let mut k: usize = 0;
                while k < list.len()
                    invariant
                        k <= list@.len(),
                        texts == list.deep_view(),
                        out.deep_view() == texts.take(k as int),
                    decreases list@.len() - k,
                {
                    out.push(list[k].clone());
                    assert(texts.take(k + 1) =~= texts.take(k as int).push(list@[k as int]@));
                    k += 1;
                }
                assert(texts.take(k as int) =~= texts);
                return out;
            }
            assert(all.skip(i as int).drop_first() =~= all.skip(i + 1));
            i += 1;
        }
        Vec::new()
    }

    /// Which of `levels` the session uses.
    pub fn selected_level(&self, levels: &Vec<String>) -> (out: Option<usize>)
        ensures
            out == match self.deep_view().current_thinking {
                Some(level) => {
                    let at = text_at(levels.deep_view(), level);
                    if at < levels.deep_view().len() {
                        Some(at as usize)
                    } else {
                        None::<usize>
                    }
                },
                None => None::<usize>,
            },
    {
        assert(levels.deep_view().len() == levels@.len());
        match &self.current_thinking {
            Some(level) => {
                let at: usize = find_text_in(levels, level.as_str());
                if at < levels.len() {
                    Some(at)
                } else {
                    None
                }
            },
            None => None,
        }
    }

    /// The visible rows of the popup: label and hint of each.
    pub fn popup_rows(&self, popup: &Popup) -> (out: Vec<(String, String)>)
        ensures
            out.deep_view() == popup_text(self.deep_view(), popup.deep_view()),
    {
        let mut out: Vec<(String, String)> = Vec::new();
        match popup {
            Popup::Slash { query: _, matches, active } => {
                let ghost all = matches.deep_view();
                let ghost commands = self.commands.deep_view();
                assert(all.len() == matches@.len());
                assert(commands.len() == self.commands@.len());
                let (start, end) = bounds(matches.len(), *active);
                let ghost rows = visible(all, *active as int);
                assert(rows == all.subrange(start as int, end as int));
                assert(rows.take(0) =~= Seq::empty());
                let mut i: usize = start;
                while i < end
                    invariant
                        start <= i <= end <= matches@.len(),
                        all == matches.deep_view(),
                        commands == self.commands.deep_view(),
                        commands.len() == self.commands@.len(),
                        rows == all.subrange(start as int, end as int),
                        out.deep_view() == command_rows(commands, rows.take(i - start)),
                    decreases end - i,
                {
                    assert(rows.take(i + 1 - start).drop_last() =~= rows.take(i - start));
                    assert(rows.take(i + 1 - start).last() == matches@[i as int]);
                    let at: usize = matches[i];
                    if at < self.commands.len() {
                        let c = &self.commands[at];
                        assert(commands[at as int] == c.deep_view());
                        let mut label = "/".to_owned();
                        label.append(c.name.as_str());
                        let hint = if c.source.as_str().is_empty() {
                            c.description.clone()
                        } else {
                            let mut h = "[".to_owned();
                            h.append(c.source.as_str());
                            h.append("] ");
                            h.append(c.description.as_str());
                            h
                        };
                        out.push((label, hint));
                    }
                    i += 1;
                }
                assert(rows.take(i - start) =~= rows);
            },
            Popup::At { query: _, matches, active } => {
                let ghost all = matches.deep_view();
                assert(all.len() == matches@.len());
                let (start, end) = bounds(matches.len(), *active);
                let ghost rows = visible(all, *active as int);
                assert(rows == all.subrange(start as int, end as int));
                let mut i: usize = start;
                while i < end
                    invariant
                        start <= i <= end <= matches@.len(),
                        all == matches.deep_view(),
                        rows == all.subrange(start as int, end as int),
                        out.deep_view() == rows.take(i - start).map_values(
                            |path: Seq<char>| ("@"@ + path, Seq::<char>::empty()),
                        ),
                    decreases end - i,
                {
                    assert(all[i as int] == matches@[i as int]@);
                    assert(rows.take(i + 1 - start) =~= rows.take(i - start).push(
                        matches@[i as int]@,
                    ));
                    let mut label = "@".to_owned();
                    label.append(matches[i].as_str());
                    let none = String::new();
                    assert(none@ =~= Seq::empty());
                    out.push((label, none));
                    assert(out.deep_view() =~= rows.take(i + 1 - start).map_values(
                        |path: Seq<char>| ("@"@ + path, Seq::<char>::empty()),
                    ));
                    i += 1;
                }
                assert(rows.take(i - start) =~= rows);
            },
        }
        out
    }

    /// How a block of the live message is shown.
    pub fn streaming_view(&self, block: &StreamBlock) -> (out: LiveBlock)
        ensures
            out.deep_view() == live_text(block.deep_view(), self.deep_view().live_expanded),
    {
        match block {
            StreamBlock::Thinking { idx, text } => {
                let id: u64 = live_block_id(*idx);
                let expanded = self.live_expanded.contains(&id);
                LiveBlock::Thinking { title: "思考中…", id, expanded, body: fold(text, expanded) }
            },
            StreamBlock::Text { idx: _, text } => {
                let body = if text.as_str().is_empty() {
                    "…".to_owned()
                } else {
                    text.clone()
                };
                LiveBlock::Text { title: "Pi", body }
            },
        }
    }
}

/// Which visible row of a popup is highlighted.
pub fn highlighted_row(popup: &Popup) -> (out: usize)
    ensures
        out == popup.deep_view().active() - window_start(popup.deep_view().active()),
        out < MAX_VISIBLE,
{
    let active: usize = popup.active();
    if active < MAX_VISIBLE {
        active
    } else {
        MAX_VISIBLE - 1
    }
}

// ── Laws ────────────────────────────────────────────────────────────────────

/// The highlighted match is among the visible ones, in the highlighted row.
pub proof fn law_highlight_is_visible<T>(matches: Seq<T>, active: int)
    requires
        0 <= active < matches.len(),
    ensures
        ({
            let row = active - window_start(active);
            &&& 0 <= row < visible(matches, active).len()
            &&& visible(matches, active)[row] == matches[active]
            &&& visible(matches, active).len() <= MAX_VISIBLE
        }),
{
}

/// Enter without Shift sends or accepts, and never only edits, while the
/// composer has the focus.
pub proof fn law_plain_enter_never_edits(menu_open: bool)
    ensures
        key_meaning(true, menu_open, ComposerKey::Enter, false) == (if menu_open {
            KeyMeaning::MenuAccept
        } else {
            KeyMeaning::Send
        }),
        key_meaning(true, menu_open, ComposerKey::Enter, true) == KeyMeaning::Edit,
{
}

/// An entry shows what it holds: the text of a message, a notice as it is, and the
/// thought or the output of a tool only while it is expanded. A tool shows its name, and
/// whether it runs, is done or has failed.
pub proof fn law_entries_show_what_they_hold(e: PiEntryV)
    ensures
        ({
            let shown = entry_text(e);
            match e.kind {
                PiEntryKindV::User(t) => shown.badge is None && shown.body is Some && (t.len() > 0
                    ==> shown.body == Some(t)) && (t.len() == 0 ==> shown.body == Some("📷 截图"@)),
                PiEntryKindV::Assistant(body) => shown.badge is None && shown.body == Some(body.text),
                PiEntryKindV::Thinking(t) => shown.badge is None && shown.body == (if e.expanded
                    && t.len() > 0 {
                    Some(t)
                } else {
                    None
                }),
                PiEntryKindV::Tool { name, output, done, is_error, .. } => {
                    &&& shown.title == "工具 · "@ + name
                    &&& shown.badge == Some(
                        if !done {
                            Badge::Running
                        } else if is_error {
                            Badge::Failed
                        } else {
                            Badge::Done
                        },
                    )
                    &&& shown.body == (if e.expanded && output.len() > 0 {
                        Some(output)
                    } else {
                        None
                    })
                },
                PiEntryKindV::Notice(t) => shown.badge is None && shown.body == Some(t),
            }
        }),
{
}

/// A live block shows its text as it streams in; a thought only while it is expanded, by
/// an id that depends on its place alone.
pub proof fn law_live_blocks_show_their_text(idx: usize, text: Seq<char>, more: Seq<char>, open: Set<u64>)
    requires
        text.len() > 0,
        more.len() > 0,
    ensures
        live_text(StreamBlockV::Text { idx, text }, open)->Text_body == text,
        live_text(StreamBlockV::Thinking { idx, text }, open)->Thinking_id == live_text(
            StreamBlockV::Thinking { idx, text: more },
            open,
        )->Thinking_id,
        ({
            let shown = live_text(StreamBlockV::Thinking { idx, text }, open);
            let opened = open.contains(shown->Thinking_id);
            &&& shown->Thinking_expanded == opened
            &&& opened ==> shown->Thinking_body == Some(text)
            &&& !opened ==> shown->Thinking_body is None
        }),
{
}

/// The status says whether a run is streaming and which session it is, or why there is no
/// connection; a lost connection can be made again.
pub proof fn law_status_is_told(session: Seq<char>, error: Seq<char>)
    ensures
        session.len() <= 8 ==> status_text(PiStatusV::Ready { session, streaming: true })
            == "● 生成中"@ + " · 会话 "@ + session,
        session.len() <= 8 ==> status_text(PiStatusV::Ready { session, streaming: false })
            == "○ 空闲"@ + " · 会话 "@ + session,
        session.len() > 8 ==> status_text(PiStatusV::Ready { session, streaming: false })
            == "○ 空闲"@ + " · 会话 "@ + session.take(8),
        status_text(PiStatusV::Error(error)) == "连接失败："@ + error,
        connect_caption(PiStatusV::Error(error)) is Some,
        connect_caption(PiStatusV::Idle) is Some,
        connect_caption(PiStatusV::Connecting) is None,
        connect_caption(PiStatusV::Ready { session, streaming: true }) is None,
{
}

/// An open popup takes the keys that move in it, accept and close; otherwise they edit.
/// Without the focus every key edits.
pub proof fn law_popup_takes_its_keys(key: ComposerKey, shift: bool, menu_open: bool)
    ensures
        key_meaning(true, true, ComposerKey::Up, shift) == KeyMeaning::MenuUp,
        key_meaning(true, true, ComposerKey::Down, shift) == KeyMeaning::MenuDown,
        key_meaning(true, true, ComposerKey::Tab, shift) == KeyMeaning::MenuAccept,
        key_meaning(true, true, ComposerKey::Escape, shift) == KeyMeaning::MenuClose,
        key_meaning(true, menu_open, ComposerKey::Paste, shift) == KeyMeaning::Paste,
        key != ComposerKey::Enter && key != ComposerKey::Paste ==> key_meaning(
            true,
            false,
            key,
            shift,
        ) == KeyMeaning::Edit,
        key_meaning(true, menu_open, ComposerKey::Other, shift) == KeyMeaning::Edit,
        key_meaning(false, menu_open, key, shift) == KeyMeaning::Edit,
{
}

/// The model in use is found by its provider and its id, behind whatever other models.
pub proof fn law_model_is_found(
    front: Seq<ModelInfoV>,
    model: ModelInfoV,
    rest: Seq<ModelInfoV>,
)
    requires
        forall|i: int|
            0 <= i < front.len() ==> (#[trigger] front[i]).provider != model.provider || front[i].id
                != model.id,
    ensures
        model_at(front + seq![model] + rest, model.provider, model.id) == front.len(),
        model_at(front, model.provider, model.id) == front.len(),
    decreases front.len(),
{
    let all = front + seq![model] + rest;
    if front.len() > 0 {
        let less = front.drop_first();
        assert(front[0].provider != model.provider || front[0].id != model.id);
        assert(all[0] == front[0]);
        assert(all.drop_first() =~= less + seq![model] + rest);
        assert forall|i: int| 0 <= i < less.len() implies (#[trigger] less[i]).provider
            != model.provider || less[i].id != model.id by {
            assert(less[i] == front[i + 1]);
        }
        law_model_is_found(less, model, rest);
    } else {
        assert(all[0] == model);
    }
}

/// The levels of a model are those listed under its key, and the level in use is found
/// among them, behind whatever others.
pub proof fn law_levels_are_found(
    front: Seq<(Seq<char>, Seq<Seq<char>>)>,
    key: Seq<char>,
    levels: Seq<Seq<char>>,
    rest: Seq<(Seq<char>, Seq<Seq<char>>)>,
)
    requires
        forall|i: int| 0 <= i < front.len() ==> (#[trigger] front[i]).0 != key,
    ensures
        levels_for(front + seq![(key, levels)] + rest, key) == levels,
        levels_for(front, key).len() == 0,
    decreases front.len(),
{
    let all = front + seq![(key, levels)] + rest;
    if front.len() > 0 {
        let less = front.drop_first();
        assert(front[0].0 != key);
        assert(all[0] == front[0]);
        assert(all.drop_first() =~= less + seq![(key, levels)] + rest);
        assert forall|i: int| 0 <= i < less.len() implies (#[trigger] less[i]).0 != key by {
            assert(less[i] == front[i + 1]);
        }
        law_levels_are_found(less, key, levels, rest);
    } else {
        assert(all[0] == (key, levels));
    }
}

/// A text is found in a list where it first stands.
pub proof fn law_text_is_found(front: Seq<Seq<char>>, text: Seq<char>, rest: Seq<Seq<char>>)
    requires
        forall|i: int| 0 <= i < front.len() ==> #[trigger] front[i] != text,
    ensures
        text_at(front + seq![text] + rest, text) == front.len(),
        text_at(front, text) == front.len(),
    decreases front.len(),
{
    let all = front + seq![text] + rest;
    if front.len() > 0 {
        let less = front.drop_first();
        assert(front[0] != text);
        assert(all[0] == front[0]);
        assert(all.drop_first() =~= less + seq![text] + rest);
        assert forall|i: int| 0 <= i < less.len() implies #[trigger] less[i] != text by {
            assert(less[i] == front[i + 1]);
        }
        law_text_is_found(less, text, rest);
    } else {
        assert(all[0] == text);
    }
}

/// The visible rows of the popup are the matches of its window: each command with its
/// name, where it comes from and what it does, and each file with its path.
pub proof fn law_popup_shows_its_matches(
    p: PanelV,
    query: Seq<char>,
    files: Seq<Seq<char>>,
    active: usize,
    k: int,
)
    ensures
        ({
            let rows = popup_text(p, PopupV::At { query, matches: files, active });
            let window = visible(files, active as int);
            &&& rows.len() == window.len()
            &&& 0 <= k < rows.len() ==> rows[k].0 == "@"@ + window[k] && rows[k].1.len() == 0
        }),
        files.len() <= 8 && active < 8 ==> visible(files, active as int) == files,
{
    if files.len() <= 8 && active < 8 {
        assert(files.skip(0) =~= files);
    }
}

/// A command's row is its name behind a slash, and what it does behind where it comes
/// from.
pub proof fn law_command_rows_tell_commands(
    commands: Seq<crate::protocol::CommandInfoV>,
    matches: Seq<usize>,
    at: usize,
)
    ensures
        at < commands.len() ==> command_rows(commands, matches.push(at)) == command_rows(
            commands,
            matches,
        ).push(
            (
                "/"@ + commands[at as int].name,
                if commands[at as int].source.len() == 0 {
                    commands[at as int].description
                } else {
                    "["@ + commands[at as int].source + "] "@ + commands[at as int].description
                },
            ),
        ),
        at >= commands.len() ==> command_rows(commands, matches.push(at)) == command_rows(
            commands,
            matches,
        ),
        command_rows(commands, Seq::empty()).len() == 0,
{
    assert(matches.push(at).drop_last() =~= matches);
}

/// Each way of asking has its own dialog: options to choose from, the first eight of them
/// and scrolled if there are many, a confirmation, a line of text, and a page of text.
pub proof fn law_questions_have_dialogs(q: PendingUiV)
    ensures
        q.method == "select"@ ==> (dialog_of(q) matches DialogV::Select { options, scroll }
            && options.is_prefix_of(q.options) && (q.options.len() <= 8 ==> options == q.options)
            && (q.options.len() > 8 ==> options.len() == 8) && scroll == (q.options.len() > 3)),
        q.method == "confirm"@ ==> dialog_of(q) is Confirm,
        q.method == "input"@ ==> dialog_of(q) == (DialogV::Text { field: true, editor: false }),
        q.method == "editor"@ ==> dialog_of(q) == (DialogV::Text { field: true, editor: true }),
{
    reveal_strlit("select");
    reveal_strlit("confirm");
    reveal_strlit("input");
    reveal_strlit("editor");
    assert("select"@[0] == 's' && "editor"@[0] == 'e');
    assert("confirm"@.len() == 7 && "input"@.len() == 5 && "select"@.len() == 6);
}

/// The browser lists the directories by their names, each leading to its own path, the
/// first eight of them; it says so while it reads and if there are none.
pub proof fn law_browser_rows_lead_to_directories(b: BrowseStateV, i: int)
    ensures
        b.dirs.len() <= 8 ==> browse_rows(b).len() == b.dirs.len(),
        b.dirs.len() > 8 ==> browse_rows(b).len() == 8,
        0 <= i < browse_rows(b).len() ==> browse_rows(b)[i] == ("📁 "@ + b.dirs[i].0, b.dirs[i].1),
        b.loading || b.dirs.len() == 0 <==> browse_note(b) is Some,
{
}

/// The hint says how many prompts wait, if any do, and what Enter does.
pub proof fn law_hint_counts_waiting_prompts(streaming: bool, n: usize)
    ensures
        hint_text(streaming, None) == hint_text(streaming, Some(0)),
        n > 0 ==> hint_text(streaming, Some(n)) == "已排队 "@ + decimal(n as nat) + " 条 · "@
            + hint_text(streaming, None),
        hint_text(true, None) == "Pi 生成中…Enter 会排队为后续消息"@,
        hint_text(false, None) == "Enter 发送 / Shift+Enter 换行"@,
{
}

/// The share of the context in use is the reported one, or else the tokens in percent of
/// the window; without a window there is none.
pub proof fn law_share_is_reported_or_computed(stats: SessionStatsV, tokens: u64, window: u64)
    ensures
        stats.context_percent matches Some(p) ==> used_percent(stats, tokens, window) == Some(
            p as nat,
        ),
        stats.context_percent is None && window > 0 ==> (used_percent(stats, tokens, window)
            matches Some(p) && p * window <= tokens * 100 < (p + 1) * window),
        stats.context_percent is None && window == 0 ==> used_percent(stats, tokens, window) is None,
{
    if stats.context_percent is None && window > 0 {
        let x = tokens as int * 100;
        let w = window as int;
        vstd::arithmetic::div_mod::lemma_fundamental_div_mod(x, w);
        vstd::arithmetic::div_mod::lemma_mod_bound(x, w);
        let p = x / w;
        assert(p * w <= x < (p + 1) * w) by (nonlinear_arith)
            requires
                x == w * p + x % w,
                0 <= x % w < w,
        ;
    }
}

/// A session shows its label, or that it has none.
pub proof fn law_sessions_show_labels(s: SessionInfoV)
    ensures
        s.label.len() > 0 ==> session_caption(s) == s.label,
        s.label.len() == 0 ==> session_caption(s) == "（无标题会话）"@,
{
}

/// The accounting line tells the tokens in and out and those of the cache, then the
/// context if it is known, then the cost if it is known.
pub proof fn law_accounting_is_told(stats: SessionStatsV, short: ShortStatsV)
    ensures
        ({
            let base = "↑"@ + short.input + " ↓"@ + short.output + " · 缓存 "@ + short.cache_read
                + "/"@ + short.cache_write;
            &&& stats.context_tokens is None && short.cost is None ==> stats_text(stats, short)
                == base
            &&& stats.context_tokens is None ==> (short.cost matches Some(c) ==> stats_text(
                stats,
                short,
            ) == base + " · $"@ + c)
            &&& stats.context_tokens matches Some(tokens) ==> (stats.context_window matches Some(
                window,
            ) ==> (used_percent(stats, tokens, window) matches Some(p) ==> short.cost is None
                ==> stats_text(stats, short) == base + " · 上下文 "@ + (decimal(p) + "%"@) + "（"@
                + short.tokens + "/"@ + short.window + "）"@))
        }),
        stats_shown(stats) <==> stats.input > 0 || stats.context_tokens is Some,
{
}

/// The chip of an image tells its size in KB, and in pixels if they are known.
pub proof fn law_chip_tells_size(n: nat, w: u32, h: u32)
    ensures
        chip_text(n, None) == "📷 截图（"@ + decimal(n * 3 / 4 / 1024) + " KB）"@,
        chip_text(n, Some((w, h))) == chip_text(n, None) + (" "@ + decimal(w as nat) + "×"@
            + decimal(h as nat)),
{
    assert(chip_text(n, None) =~= "📷 截图（"@ + decimal(n * 3 / 4 / 1024) + " KB）"@);
}

/// Entries, blocks and badges are named in words, and a live thought is known by its
/// place in the message.
pub proof fn law_parts_are_named(e: PiEntryV, idx: usize, text: Seq<char>, open: Set<u64>)
    ensures
        e.kind is User ==> entry_text(e).title == "你"@,
        e.kind is Assistant ==> entry_text(e).title == "Pi"@,
        e.kind is Thinking ==> entry_text(e).title == "思考"@,
        e.kind is Notice ==> entry_text(e).title.len() == 0,
        Badge::Running.text() == "运行中…"@,
        Badge::Done.text() == "完成"@,
        Badge::Failed.text() == "出错"@,
        live_text(StreamBlockV::Text { idx, text }, open)->Text_title == "Pi"@,
        live_text(StreamBlockV::Text { idx, text: Seq::empty() }, open)->Text_body == "…"@,
        live_text(StreamBlockV::Thinking { idx, text }, open)->Thinking_title == "思考中…"@,
        live_text(StreamBlockV::Thinking { idx, text }, open)->Thinking_id == content_id(
            "t"@,
            "live-"@ + decimal(idx as nat),
            0,
        ),
{
}

/// Where there is nothing to show yet, the panel says why, and how to connect.
pub proof fn law_empty_panel_says_why(session: Seq<char>, streaming: bool, error: Seq<char>)
    ensures
        status_text(PiStatusV::Idle) == "未连接"@,
        status_text(PiStatusV::Connecting) == "正在连接 pi-web…"@,
        connect_caption(PiStatusV::Idle) == Some("连接"@),
        connect_caption(PiStatusV::Error(error)) == Some("重连"@),
        empty_hint(PiStatusV::Idle, true) == "未连接 — 点击上方「连接」开始"@,
        empty_hint(PiStatusV::Connecting, true) == "正在连接…"@,
        empty_hint(PiStatusV::Ready { session, streaming }, true) == "暂无消息 — 在下方输入框发送第一条"@,
        empty_hint(PiStatusV::Ready { session, streaming }, false)
            == "pi-web 没有会话。\n在网页端新建一个会话后，本面板会自动跟随。"@,
        empty_hint(PiStatusV::Error(error), true)
            == "未连接。\n· pi-web 后端：先启动 pi-web（默认 http://127.0.0.1:30141）\n· rpc 后端：在状态条把后端切到 rpc（只需本机 pi，无需 pi-web）\n端点可用 OCS_PI_ENDPOINT 覆盖，模式可用 OCS_PI_MODE=auto|web|rpc 覆盖。"@,
{
}

/// The browser says that it reads, or that there is nothing below.
pub proof fn law_browser_says_what_it_does(b: BrowseStateV)
    ensures
        b.loading ==> browse_note(b) == Some("读取目录…"@),
        !b.loading && b.dirs.len() == 0 ==> browse_note(b) == Some("（没有子目录）"@),
{
}

} // verus!
