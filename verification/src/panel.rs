//! The panel's state: how events of the backend, and what the user does, change
//! what is shown and what is asked of the backend.

use std::collections::HashSet;

use vstd::prelude::*;

use crate::ids::{content_id, stable_id, LIVE_ID_BASE};
use crate::popup::{
    command_matches, completion, completion_of, file_matches, match_commands, match_files, Completion,
    CompletionV, Popup, PopupV,
};
use crate::protocol::{
    Command, CommandInfo, CommandInfoV, CommandV, DeltaKind, Entry, EntryV, Event, EventV,
    ImageAttachment, ImageAttachmentV, ModelInfo, ModelInfoV, Part, PartV, SessionInfo, SessionInfoV,
    SessionStats, SessionStatsV, Status, StatusV,
};
use crate::tables::{body_of, AssistantBody, AssistantBodyV};
use crate::text::same;
use crate::web::{copy_option, find_session, session_at};

verus! {

broadcast use {crate::model::group_views, vstd::std_specs::hash::group_hash_axioms};

/// How many live entry ids there are.
pub const MAX_LIVE_IDS: u64 = 0xbfff_ffff_ffff_ffff;

// ── Parts of the state ──────────────────────────────────────────────────────

/// What a transcript entry shows.
#[derive(Debug, PartialEq)]
pub enum PiEntryKind {
    User(String),
    Assistant(AssistantBody),
    Thinking(String),
    Tool { id: String, name: String, output: String, done: bool, is_error: bool },
    Notice(String),
}

/// Model of [`PiEntryKind`].
pub enum PiEntryKindV {
    User(Seq<char>),
    Assistant(AssistantBodyV),
    Thinking(Seq<char>),
    Tool { id: Seq<char>, name: Seq<char>, output: Seq<char>, done: bool, is_error: bool },
    Notice(Seq<char>),
}

impl DeepView for PiEntryKind {
    type V = PiEntryKindV;

    open spec fn deep_view(&self) -> PiEntryKindV {
        match self {
            PiEntryKind::User(t) => PiEntryKindV::User(t@),
            PiEntryKind::Assistant(b) => PiEntryKindV::Assistant(b.deep_view()),
            PiEntryKind::Thinking(t) => PiEntryKindV::Thinking(t@),
            PiEntryKind::Tool { id, name, output, done, is_error } => PiEntryKindV::Tool {
                id: id@,
                name: name@,
                output: output@,
                done: *done,
                is_error: *is_error,
            },
            PiEntryKind::Notice(n) => PiEntryKindV::Notice(n@),
        }
    }
}

/// A transcript entry and whether it is expanded.
#[derive(Debug, PartialEq)]
pub struct PiEntry {
    pub id: u64,
    pub kind: PiEntryKind,
    pub expanded: bool,
}

/// Model of [`PiEntry`].
pub struct PiEntryV {
    pub id: u64,
    pub kind: PiEntryKindV,
    pub expanded: bool,
}

impl DeepView for PiEntry {
    type V = PiEntryV;

    open spec fn deep_view(&self) -> PiEntryV {
        PiEntryV { id: self.id, kind: self.kind.deep_view(), expanded: self.expanded }
    }
}

/// A block of the assistant message that is streaming in.
#[derive(Debug, PartialEq)]
pub enum StreamBlock {
    Thinking { idx: usize, text: String },
    Text { idx: usize, text: String },
}

/// Model of [`StreamBlock`].
pub enum StreamBlockV {
    Thinking { idx: usize, text: Seq<char> },
    Text { idx: usize, text: Seq<char> },
}

impl DeepView for StreamBlock {
    type V = StreamBlockV;

    open spec fn deep_view(&self) -> StreamBlockV {
        match self {
            StreamBlock::Thinking { idx, text } => StreamBlockV::Thinking { idx: *idx, text: text@ },
            StreamBlock::Text { idx, text } => StreamBlockV::Text { idx: *idx, text: text@ },
        }
    }
}

/// The assistant message that is streaming in.
#[derive(Debug, PartialEq)]
pub struct StreamingMsg {
    pub blocks: Vec<StreamBlock>,
}

/// A pending extension question.
#[derive(Debug, PartialEq)]
pub struct PendingUi {
    pub id: String,
    pub method: String,
    pub title: String,
    pub message: Option<String>,
    pub options: Vec<String>,
}

/// Model of [`PendingUi`].
pub struct PendingUiV {
    pub id: Seq<char>,
    pub method: Seq<char>,
    pub title: Seq<char>,
    pub message: Option<Seq<char>>,
    pub options: Seq<Seq<char>>,
}

impl DeepView for PendingUi {
    type V = PendingUiV;

    open spec fn deep_view(&self) -> PendingUiV {
        PendingUiV {
            id: self.id@,
            method: self.method@,
            title: self.title@,
            message: self.message.deep_view(),
            options: self.options.deep_view(),
        }
    }
}

/// New-session directory browser.
#[derive(Debug, PartialEq)]
pub struct BrowseState {
    pub path: String,
    pub parent: Option<String>,
    /// Name and path of each sub-directory.
    pub dirs: Vec<(String, String)>,
    pub loading: bool,
}

/// Model of [`BrowseState`].
pub struct BrowseStateV {
    pub path: Seq<char>,
    pub parent: Option<Seq<char>>,
    pub dirs: Seq<(Seq<char>, Seq<char>)>,
    pub loading: bool,
}

impl DeepView for BrowseState {
    type V = BrowseStateV;

    open spec fn deep_view(&self) -> BrowseStateV {
        BrowseStateV {
            path: self.path@,
            parent: self.parent.deep_view(),
            dirs: self.dirs.deep_view(),
            loading: self.loading,
        }
    }
}

/// Connection status shown in the status strip.
#[derive(Debug, PartialEq)]
pub enum PiStatus {
    /// No worker was started yet.
    Idle,
    Connecting,
    Ready { session: String, streaming: bool },
    Error(String),
}

/// Model of [`PiStatus`].
pub enum PiStatusV {
    Idle,
    Connecting,
    Ready { session: Seq<char>, streaming: bool },
    Error(Seq<char>),
}

impl DeepView for PiStatus {
    type V = PiStatusV;

    open spec fn deep_view(&self) -> PiStatusV {
        match self {
            PiStatus::Idle => PiStatusV::Idle,
            PiStatus::Connecting => PiStatusV::Connecting,
            PiStatus::Ready { session, streaming } => PiStatusV::Ready {
                session: session@,
                streaming: *streaming,
            },
            PiStatus::Error(e) => PiStatusV::Error(e@),
        }
    }
}

/// Which worker is to be started.
#[derive(Debug, PartialEq)]
pub enum Start {
    Web { endpoint: String },
    Rpc { bin: String, cwd: String },
    /// The server if it answers, else a child process.
    Auto { endpoint: String, bin: String, cwd: String },
}

/// Model of [`Start`].
pub enum StartV {
    Web { endpoint: Seq<char> },
    Rpc { bin: Seq<char>, cwd: Seq<char> },
    Auto { endpoint: Seq<char>, bin: Seq<char>, cwd: Seq<char> },
}

impl DeepView for Start {
    type V = StartV;

    open spec fn deep_view(&self) -> StartV {
        match self {
            Start::Web { endpoint } => StartV::Web { endpoint: endpoint@ },
            Start::Rpc { bin, cwd } => StartV::Rpc { bin: bin@, cwd: cwd@ },
            Start::Auto { endpoint, bin, cwd } => StartV::Auto {
                endpoint: endpoint@,
                bin: bin@,
                cwd: cwd@,
            },
        }
    }
}

/// State of one document's panel.
pub struct PiPanelState {
    /// Base URL of the local server, without a trailing slash.
    pub endpoint: String,
    /// Connection status.
    pub status: PiStatus,
    /// Session list, newest activity first.
    pub sessions: Vec<SessionInfo>,
    /// The session being followed.
    pub active: Option<String>,
    /// The transcript.
    pub entries: Vec<PiEntry>,
    /// The assistant message that is streaming in.
    pub streaming: StreamingMsg,
    /// Composer text.
    pub input: String,
    /// The selected part of it, in characters; empty at the cursor.
    pub caret: (usize, usize),
    /// Texts shown before the agent echoed them, in the order sent.
    pub pending_echoes: Vec<String>,
    /// Length of the agent's follow-up queue, if known.
    pub queued_followups: Option<usize>,
    /// Model catalog.
    pub models: Vec<ModelInfo>,
    /// Provider and id of the model the session uses.
    pub current_model: Option<(String, String)>,
    /// Thinking levels per `provider:id`.
    pub thinking_levels: Vec<(String, Vec<String>)>,
    /// The thinking level the session uses.
    pub current_thinking: Option<String>,
    /// Slash commands.
    pub commands: Vec<CommandInfo>,
    /// File index: directory and files.
    pub files: Option<(String, Vec<String>)>,
    /// The directory whose index is being fetched.
    pub files_requested: Option<String>,
    /// Completion popup above the composer.
    pub popup: Option<Popup>,
    /// New-session directory browser.
    pub browse: Option<BrowseState>,
    /// Extension question that awaits an answer.
    pub pending_ui: Option<PendingUi>,
    /// Label of the backend that serves the panel.
    pub backend: String,
    /// Session accounting.
    pub stats: Option<SessionStats>,
    /// Free-text answer to an extension question.
    pub ui_answer: String,
    /// Backend mode: `auto`, `web` or `rpc`.
    pub mode: String,
    /// The agent's executable.
    pub pi_bin: String,
    /// Project directory of the child process.
    pub project_cwd: String,
    /// The user's home directory, if known.
    pub home: Option<String>,
    /// Image attached to the next message.
    pub pending_image: Option<ImageAttachment>,
    /// Its width and height.
    pub pending_image_size: Option<(u32, u32)>,
    /// Summary of the canvas selection.
    pub selection_label: String,
    /// The selection that the summary was made from.
    pub selection_fingerprint: u64,
    /// Ids of expanded live blocks, which are no entries yet.
    pub live_expanded: HashSet<u64>,
    /// How many live entry ids were given out.
    pub next_id: u64,
    /// Whether a worker runs.
    pub worker: bool,
    /// Commands for the worker, in the order given.
    pub outbox: Vec<Command>,
}

/// Model of [`PiPanelState`].
#[verifier::ext_equal]
pub struct PanelV {
    pub endpoint: Seq<char>,
    pub status: PiStatusV,
    pub sessions: Seq<SessionInfoV>,
    pub active: Option<Seq<char>>,
    pub entries: Seq<PiEntryV>,
    pub streaming: Seq<StreamBlockV>,
    pub input: Seq<char>,
    pub caret: (usize, usize),
    pub pending_echoes: Seq<Seq<char>>,
    pub queued_followups: Option<usize>,
    pub models: Seq<ModelInfoV>,
    pub current_model: Option<(Seq<char>, Seq<char>)>,
    pub thinking_levels: Seq<(Seq<char>, Seq<Seq<char>>)>,
    pub current_thinking: Option<Seq<char>>,
    pub commands: Seq<CommandInfoV>,
    pub files: Option<(Seq<char>, Seq<Seq<char>>)>,
    pub files_requested: Option<Seq<char>>,
    pub popup: Option<PopupV>,
    pub browse: Option<BrowseStateV>,
    pub pending_ui: Option<PendingUiV>,
    pub backend: Seq<char>,
    pub stats: Option<SessionStatsV>,
    pub ui_answer: Seq<char>,
    pub mode: Seq<char>,
    pub pi_bin: Seq<char>,
    pub project_cwd: Seq<char>,
    pub home: Option<Seq<char>>,
    pub pending_image: Option<ImageAttachmentV>,
    pub pending_image_size: Option<(u32, u32)>,
    pub selection_label: Seq<char>,
    pub selection_fingerprint: u64,
    pub live_expanded: Set<u64>,
    pub next_id: u64,
    pub worker: bool,
    pub outbox: Seq<CommandV>,
}

impl DeepView for PiPanelState {
    type V = PanelV;

    open spec fn deep_view(&self) -> PanelV {
        PanelV {
            endpoint: self.endpoint@,
            status: self.status.deep_view(),
            sessions: self.sessions.deep_view(),
            active: self.active.deep_view(),
            entries: self.entries.deep_view(),
            streaming: self.streaming.blocks.deep_view(),
            input: self.input@,
            caret: self.caret,
            pending_echoes: self.pending_echoes.deep_view(),
            queued_followups: self.queued_followups,
            models: self.models.deep_view(),
            current_model: self.current_model.deep_view(),
            thinking_levels: self.thinking_levels.deep_view(),
            current_thinking: self.current_thinking.deep_view(),
            commands: self.commands.deep_view(),
            files: self.files.deep_view(),
            files_requested: self.files_requested.deep_view(),
            popup: self.popup.deep_view(),
            browse: self.browse.deep_view(),
            pending_ui: self.pending_ui.deep_view(),
            backend: self.backend@,
            stats: self.stats.deep_view(),
            ui_answer: self.ui_answer@,
            mode: self.mode@,
            pi_bin: self.pi_bin@,
            project_cwd: self.project_cwd@,
            home: self.home.deep_view(),
            pending_image: self.pending_image.deep_view(),
            pending_image_size: self.pending_image_size,
            selection_label: self.selection_label@,
            selection_fingerprint: self.selection_fingerprint,
            live_expanded: self.live_expanded@,
            next_id: self.next_id,
            worker: self.worker,
            outbox: self.outbox.deep_view(),
        }
    }
}

// ── What happens to the state ───────────────────────────────────────────────

/// The entry of a tool call.
pub open spec fn is_tool(e: PiEntryV, id: Seq<char>) -> bool {
    match e.kind {
        PiEntryKindV::Tool { id: tid, .. } => tid == id,
        _ => false,
    }
}

/// The message of a user.
pub open spec fn is_user(e: PiEntryV, text: Seq<char>) -> bool {
    match e.kind {
        PiEntryKindV::User(t) => t == text,
        _ => false,
    }
}

/// A notice.
pub open spec fn is_notice(e: PiEntryV, text: Seq<char>) -> bool {
    match e.kind {
        PiEntryKindV::Notice(t) => t == text,
        _ => false,
    }
}

/// Where the last entry of the tool call `id` is, or -1.
pub open spec fn last_tool(entries: Seq<PiEntryV>, id: Seq<char>) -> int
    decreases entries.len(),
{
    if entries.len() == 0 {
        -1
    } else if is_tool(entries.last(), id) {
        entries.len() - 1
    } else {
        last_tool(entries.drop_last(), id)
    }
}

/// Where the last message `text` of the user is, or -1.
pub open spec fn last_user(entries: Seq<PiEntryV>, text: Seq<char>) -> int
    decreases entries.len(),
{
    if entries.len() == 0 {
        -1
    } else if is_user(entries.last(), text) {
        entries.len() - 1
    } else {
        last_user(entries.drop_last(), text)
    }
}

pub proof fn lemma_last_tool(entries: Seq<PiEntryV>, id: Seq<char>)
    ensures
        -1 <= last_tool(entries, id) < entries.len(),
        last_tool(entries, id) >= 0 ==> is_tool(entries[last_tool(entries, id)], id),
        forall|i: int|
            last_tool(entries, id) < i < entries.len() ==> !is_tool(#[trigger] entries[i], id),
    decreases entries.len(),
{
    if entries.len() > 0 && !is_tool(entries.last(), id) {
        lemma_last_tool(entries.drop_last(), id);
        assert forall|i: int| last_tool(entries, id) < i < entries.len() implies !is_tool(
            #[trigger] entries[i],
            id,
        ) by {
            if i < entries.len() - 1 {
                assert(entries.drop_last()[i] == entries[i]);
            }
        }
    }
}

pub proof fn lemma_last_user(entries: Seq<PiEntryV>, text: Seq<char>)
    ensures
        -1 <= last_user(entries, text) < entries.len(),
        last_user(entries, text) >= 0 ==> is_user(entries[last_user(entries, text)], text),
    decreases entries.len(),
{
    if entries.len() > 0 && !is_user(entries.last(), text) {
        lemma_last_user(entries.drop_last(), text);
    }
}

/// Where the first entry with this id is; the number of entries if there is none.
pub open spec fn entry_at(entries: Seq<PiEntryV>, id: u64) -> int
    decreases entries.len(),
{
    if entries.len() == 0 || entries[0].id == id {
        0
    } else {
        1 + entry_at(entries.drop_first(), id)
    }
}

pub proof fn lemma_entry_at(entries: Seq<PiEntryV>, id: u64)
    ensures
        0 <= entry_at(entries, id) <= entries.len(),
        entry_at(entries, id) < entries.len() ==> entries[entry_at(entries, id)].id == id,
        forall|i: int| 0 <= i < entry_at(entries, id) ==> (#[trigger] entries[i]).id != id,
    decreases entries.len(),
{
    if entries.len() > 0 && entries[0].id != id {
        lemma_entry_at(entries.drop_first(), id);
        assert forall|i: int| 0 <= i < entry_at(entries, id) implies (#[trigger] entries[i]).id
            != id by {
            if i > 0 {
                assert(entries[i] == entries.drop_first()[i - 1]);
            }
        }
    }
}

/// Whether the entry with this id is expanded.
pub open spec fn expanded_at(entries: Seq<PiEntryV>, id: u64) -> bool {
    let at = entry_at(entries, id);
    0 <= at < entries.len() && entries[at].expanded
}

/// Tag, key and content of a stored entry.
pub open spec fn stored(entry: EntryV) -> (Seq<char>, Seq<char>, PiEntryKindV) {
    match entry {
        EntryV::User(t) => ("u"@, t, PiEntryKindV::User(t)),
        EntryV::Assistant(t) => ("a"@, t, PiEntryKindV::Assistant(body_of(t))),
        EntryV::Thinking(t) => ("t"@, t, PiEntryKindV::Thinking(t)),
        EntryV::Tool { id, name, output, done, is_error } => (
            "tool"@,
            id,
            PiEntryKindV::Tool { id, name, output, done, is_error },
        ),
        EntryV::Notice(n) => ("n"@, n, PiEntryKindV::Notice(n)),
    }
}

/// A stored entry as it is shown: its id comes from its content, and what was
/// expanded before stays so.
pub open spec fn shown(entry: EntryV, before: Seq<PiEntryV>) -> PiEntryV {
    let (tag, key, kind) = stored(entry);
    let id = content_id(tag, key, 0);
    PiEntryV { id, kind, expanded: expanded_at(before, id) }
}

/// The block an unfinished part streams into.
pub open spec fn live_block(part: (usize, PartV)) -> Option<StreamBlockV> {
    match part.1 {
        PartV::Thinking(t) => Some(StreamBlockV::Thinking { idx: part.0, text: t }),
        PartV::Text(t) => Some(StreamBlockV::Text { idx: part.0, text: t }),
        PartV::ToolCall { .. } => None,
    }
}

/// The blocks of `parts`.
pub open spec fn live_blocks(parts: Seq<(usize, PartV)>) -> Seq<StreamBlockV>
    decreases parts.len(),
{
    if parts.len() == 0 {
        Seq::empty()
    } else {
        match live_block(parts.last()) {
            Some(b) => live_blocks(parts.drop_last()).push(b),
            None => live_blocks(parts.drop_last()),
        }
    }
}

/// Whether a delta of this kind and index belongs to `block`.
pub open spec fn takes_delta(block: StreamBlockV, kind: DeltaKind, idx: usize) -> bool {
    match block {
        StreamBlockV::Text { idx: i, .. } => kind == DeltaKind::Text && i == idx,
        StreamBlockV::Thinking { idx: i, .. } => kind == DeltaKind::Thinking && i == idx,
    }
}

/// Where the first block that takes the delta is; the number of blocks if there
/// is none.
pub open spec fn block_at(blocks: Seq<StreamBlockV>, kind: DeltaKind, idx: usize) -> int
    decreases blocks.len(),
{
    if blocks.len() == 0 || takes_delta(blocks[0], kind, idx) {
        0
    } else {
        1 + block_at(blocks.drop_first(), kind, idx)
    }
}

pub proof fn lemma_block_at(blocks: Seq<StreamBlockV>, kind: DeltaKind, idx: usize)
    ensures
        0 <= block_at(blocks, kind, idx) <= blocks.len(),
        block_at(blocks, kind, idx) < blocks.len() ==> takes_delta(
            blocks[block_at(blocks, kind, idx)],
            kind,
            idx,
        ),
        forall|i: int|
            0 <= i < block_at(blocks, kind, idx) ==> !takes_delta(#[trigger] blocks[i], kind, idx),
    decreases blocks.len(),
{
    if blocks.len() > 0 && !takes_delta(blocks[0], kind, idx) {
        lemma_block_at(blocks.drop_first(), kind, idx);
        assert forall|i: int| 0 <= i < block_at(blocks, kind, idx) implies !takes_delta(
            #[trigger] blocks[i],
            kind,
            idx,
        ) by {
            if i > 0 {
                assert(blocks[i] == blocks.drop_first()[i - 1]);
            }
        }
    }
}

/// `block` with more text.
pub open spec fn grown(block: StreamBlockV, chunk: Seq<char>) -> StreamBlockV {
    match block {
        StreamBlockV::Text { idx, text } => StreamBlockV::Text { idx, text: text + chunk },
        StreamBlockV::Thinking { idx, text } => StreamBlockV::Thinking { idx, text: text + chunk },
    }
}

/// The blocks after a delta: it goes on where it belongs, or begins a block.
pub open spec fn after_delta(
    blocks: Seq<StreamBlockV>,
    kind: DeltaKind,
    idx: usize,
    chunk: Seq<char>,
) -> Seq<StreamBlockV> {
    let at = block_at(blocks, kind, idx);
    if 0 <= at < blocks.len() {
        blocks.update(at, grown(blocks[at], chunk))
    } else {
        blocks.push(
            match kind {
                DeltaKind::Text => StreamBlockV::Text { idx, text: chunk },
                DeltaKind::Thinking => StreamBlockV::Thinking { idx, text: chunk },
            },
        )
    }
}

impl PanelV {
    /// Whether an agent run is streaming.
    pub open spec fn is_streaming(self) -> bool {
        self.status matches PiStatusV::Ready { streaming, .. } && streaming
    }

    /// With a command handed to the worker, if one runs.
    pub open spec fn sent(self, command: CommandV) -> PanelV {
        if self.worker {
            PanelV { outbox: self.outbox.push(command), ..self }
        } else {
            self
        }
    }

    /// With a new live entry.
    pub open spec fn pushed(self, kind: PiEntryKindV) -> PanelV {
        PanelV {
            next_id: (self.next_id + 1) as u64,
            entries: self.entries.push(
                PiEntryV {
                    id: (LIVE_ID_BASE + self.next_id + 1) as u64,
                    kind,
                    expanded: false,
                },
            ),
            ..self
        }
    }

    /// With an entry for the tool call `id`, if there is none yet.
    pub open spec fn with_tool(self, id: Seq<char>, name: Seq<char>) -> PanelV {
        if last_tool(self.entries, id) >= 0 {
            self
        } else {
            PanelV {
                entries: self.entries.push(
                    PiEntryV {
                        id: content_id("tool"@, id, 0),
                        kind: PiEntryKindV::Tool {
                            id,
                            name,
                            output: Seq::empty(),
                            done: false,
                            is_error: false,
                        },
                        expanded: false,
                    },
                ),
                ..self
            }
        }
    }

    /// With this output of the tool call `id`.
    pub open spec fn tool_set(
        self,
        id: Seq<char>,
        name: Seq<char>,
        output: Seq<char>,
        done: bool,
        is_error: bool,
    ) -> PanelV {
        let kind = PiEntryKindV::Tool { id, name, output, done, is_error };
        let at = last_tool(self.entries, id);
        if 0 <= at < self.entries.len() {
            PanelV {
                entries: self.entries.update(at, PiEntryV { kind, ..self.entries[at] }),
                ..self
            }
        } else {
            PanelV {
                entries: self.entries.push(
                    PiEntryV { id: content_id("tool"@, id, 0), kind, expanded: false },
                ),
                ..self
            }
        }
    }

    /// With entries for the tool calls among `parts`.
    pub open spec fn with_tools(self, parts: Seq<(usize, PartV)>) -> PanelV
        decreases parts.len(),
    {
        if parts.len() == 0 {
            self
        } else {
            let before = self.with_tools(parts.drop_last());
            match parts.last().1 {
                PartV::ToolCall { id, name } => before.with_tool(id, name),
                _ => before,
            }
        }
    }

    /// With the parts of a finished message.
    pub open spec fn with_final(self, parts: Seq<(usize, PartV)>) -> PanelV
        decreases parts.len(),
    {
        if parts.len() == 0 {
            self
        } else {
            let before = self.with_final(parts.drop_last());
            match parts.last().1 {
                PartV::Thinking(t) => if t.len() > 0 {
                    before.pushed(PiEntryKindV::Thinking(t))
                } else {
                    before
                },
                PartV::Text(t) => if t.len() > 0 {
                    before.pushed(PiEntryKindV::Assistant(body_of(t)))
                } else {
                    before
                },
                PartV::ToolCall { id, name } => before.with_tool(id, name),
            }
        }
    }

    /// The directory of the followed session, if known.
    pub open spec fn active_cwd(self) -> Option<Seq<char>> {
        match self.active {
            Some(id) => {
                let at = session_at(self.sessions, id);
                if 0 <= at < self.sessions.len() {
                    self.sessions[at].cwd
                } else {
                    None
                }
            },
            None => None,
        }
    }

    /// With the file index of the session's directory asked for, unless it is
    /// here or on its way.
    pub open spec fn files_asked(self) -> PanelV {
        match self.active_cwd() {
            Some(cwd) => {
                let have = match self.files {
                    Some((c, _)) => c == cwd,
                    None => false,
                };
                if have || self.files_requested == Some(cwd) {
                    self
                } else {
                    (PanelV { files_requested: Some(cwd), ..self }).sent(
                        CommandV::FetchFiles { cwd },
                    )
                }
            },
            None => self,
        }
    }

    /// With the popup that the composer text asks for.
    pub open spec fn refreshed(self) -> PanelV {
        match completion_of(self.input) {
            CompletionV::Slash(query) => PanelV {
                popup: Some(
                    PopupV::Slash {
                        query,
                        matches: command_matches(self.commands, query),
                        active: 0,
                    },
                ),
                ..self
            },
            CompletionV::At(query) => {
                let p = self.files_asked();
                let matches = match p.files {
                    Some((_, files)) => file_matches(files, query),
                    None => Seq::empty(),
                };
                PanelV { popup: Some(PopupV::At { query, matches, active: 0 }), ..p }
            },
            CompletionV::Nothing => PanelV { popup: None, ..self },
        }
    }

    /// After a message of the user arrived from the agent. It takes back the
    /// bubble shown in advance, is dropped if it is empty or stands there
    /// already, and is shown otherwise.
    pub open spec fn after_user(self, text: Seq<char>) -> (PanelV, bool) {
        if self.pending_echoes.len() > 0 && self.pending_echoes[0] == text {
            (PanelV { pending_echoes: self.pending_echoes.remove(0), ..self }, false)
        } else if text.len() == 0 || (self.entries.len() > 0 && is_user(self.entries.last(), text)) {
            (self, false)
        } else {
            (self.pushed(PiEntryKindV::User(text)), true)
        }
    }

    /// After a rejected command: the last message shown in advance is taken back,
    /// and the reason is shown.
    pub open spec fn after_rejection(self, message: Seq<char>) -> PanelV {
        let p = if self.pending_echoes.len() > 0 {
            let echo = self.pending_echoes.last();
            let at = last_user(self.entries, echo);
            PanelV {
                pending_echoes: self.pending_echoes.drop_last(),
                entries: if 0 <= at < self.entries.len() {
                    self.entries.remove(at)
                } else {
                    self.entries
                },
                ..self
            }
        } else {
            self
        };
        p.pushed(PiEntryKindV::Notice("发送失败："@ + message))
    }

    /// After the connection status changed. A ready session's accounting is asked
    /// for right away.
    pub open spec fn after_status(self, status: StatusV) -> PanelV {
        match status {
            StatusV::Connecting => PanelV { status: PiStatusV::Connecting, ..self },
            StatusV::Ready { session, streaming } => PanelV {
                active: Some(session),
                status: PiStatusV::Ready { session, streaming },
                ..self.sent(CommandV::FetchStats)
            },
            StatusV::Error(e) => PanelV { status: PiStatusV::Error(e), ..self },
        }
    }

    /// After a run started or ended. When one ends, the accounting is asked for.
    pub open spec fn after_streaming(self, v: bool) -> PanelV {
        let p = match self.status {
            PiStatusV::Ready { session, .. } => PanelV {
                status: PiStatusV::Ready { session, streaming: v },
                ..self
            },
            _ => self,
        };
        if self.is_streaming() && !v {
            p.sent(CommandV::FetchStats)
        } else {
            p
        }
    }

    /// After one event of the backend, and whether the transcript changed.
    pub open spec fn applied(self, ev: EventV) -> (PanelV, bool) {
        match ev {
            EventV::Status(s) => (self.after_status(s), false),
            EventV::Sessions(list) => (
                PanelV {
                    sessions: list,
                    active: if self.active is None && list.len() > 0 {
                        Some(list[0].id)
                    } else {
                        self.active
                    },
                    ..self
                },
                false,
            ),
            EventV::Replace(entries) => (
                PanelV {
                    entries: entries.map_values(|e: EntryV| shown(e, self.entries)),
                    streaming: Seq::empty(),
                    ..self
                },
                true,
            ),
            EventV::User(text) => self.after_user(text),
            EventV::Models { list, current, thinking_levels, thinking } => (
                PanelV {
                    models: list,
                    thinking_levels,
                    current_model: if current is Some {
                        current
                    } else {
                        self.current_model
                    },
                    current_thinking: if thinking is Some {
                        thinking
                    } else {
                        self.current_thinking
                    },
                    ..self
                },
                false,
            ),
            EventV::Commands(list) => ((PanelV { commands: list, ..self }).refreshed(), false),
            EventV::Files { cwd, files } => (
                (PanelV { files: Some((cwd, files)), files_requested: None, ..self }).refreshed(),
                false,
            ),
            EventV::DirListing { path, parent, dirs } => (
                PanelV {
                    browse: match self.browse {
                        Some(_) => Some(BrowseStateV { path, parent, dirs, loading: false }),
                        None => None,
                    },
                    ..self
                },
                false,
            ),
            EventV::ThinkingSet { level } => (
                PanelV { current_thinking: Some(level), ..self },
                false,
            ),
            EventV::Notice(message) => (self.pushed(PiEntryKindV::Notice(message)), true),
            EventV::Backend(label) => (PanelV { backend: label, ..self }, false),
            EventV::UiRequest { id, method, title, message, options, prefill } => (
                PanelV {
                    ui_answer: match prefill {
                        Some(t) => t,
                        None => Seq::empty(),
                    },
                    pending_ui: Some(PendingUiV { id, method, title, message, options }),
                    ..self
                },
                true,
            ),
            EventV::Stats(stats) => (PanelV { stats: Some(stats), ..self }, false),
            EventV::ModelSet { provider, id } => (
                PanelV { current_model: Some((provider, id)), ..self },
                false,
            ),
            EventV::MsgStart { parts } => (
                (PanelV { streaming: live_blocks(parts), ..self }).with_tools(parts),
                true,
            ),
            EventV::Delta { kind, idx, chunk } => (
                PanelV { streaming: after_delta(self.streaming, kind, idx, chunk), ..self },
                true,
            ),
            EventV::AssistantEnd { parts } => (
                PanelV { streaming: Seq::empty(), ..self.with_final(parts) },
                true,
            ),
            EventV::ToolCallStart { id, name } => (self.with_tool(id, name), true),
            EventV::ToolPartial { id, name, output } => (
                self.tool_set(id, name, output, false, false),
                true,
            ),
            EventV::ToolResult { id, name, output, is_error } => (
                self.tool_set(id, name, output, true, is_error),
                true,
            ),
            EventV::Queue { follow_up, .. } => (
                PanelV { queued_followups: Some(follow_up.len() as usize), ..self },
                false,
            ),
            EventV::Streaming(v) => (self.after_streaming(v), false),
            EventV::StreamError(msg) => if self.entries.len() > 0 && is_notice(
                self.entries.last(),
                msg,
            ) {
                (self, false)
            } else {
                (self.pushed(PiEntryKindV::Notice(msg)), true)
            },
            EventV::SendFailed { message } => (self.after_rejection(message), true),
        }
    }

    /// How many live entry ids an event may take.
    pub open spec fn ids_for(ev: EventV) -> nat {
        match ev {
            EventV::User(_) => 1,
            EventV::Notice(_) => 1,
            EventV::StreamError(_) => 1,
            EventV::SendFailed { .. } => 1,
            EventV::AssistantEnd { parts } => parts.len(),
            _ => 0,
        }
    }

    /// Whether `n` live entry ids are left.
    pub open spec fn has_ids(self, n: nat) -> bool {
        n == 0 || self.next_id + n <= MAX_LIVE_IDS
    }
}

proof fn lemma_with_tools_ids(p: PanelV, parts: Seq<(usize, PartV)>)
    ensures
        p.with_tools(parts).next_id == p.next_id,
    decreases parts.len(),
{
    if parts.len() > 0 {
        lemma_with_tools_ids(p, parts.drop_last());
    }
}

proof fn lemma_with_final_ids(p: PanelV, parts: Seq<(usize, PartV)>)
    requires
        p.has_ids(parts.len()),
    ensures
        p.next_id <= p.with_final(parts).next_id <= p.next_id + parts.len(),
    decreases parts.len(),
{
    if parts.len() > 0 {
        lemma_with_final_ids(p, parts.drop_last());
    }
}

/// An event takes no more ids than it may.
pub proof fn lemma_applied_ids(p: PanelV, ev: EventV)
    requires
        p.has_ids(PanelV::ids_for(ev)),
    ensures
        p.next_id <= p.applied(ev).0.next_id <= p.next_id + PanelV::ids_for(ev),
{
    match ev {
        EventV::MsgStart { parts } => {
            lemma_with_tools_ids(PanelV { streaming: live_blocks(parts), ..p }, parts);
        },
        EventV::AssistantEnd { parts } => {
            lemma_with_final_ids(p, parts);
        },
        _ => {},
    }
}

// ── Entries ─────────────────────────────────────────────────────────────────

fn find_last_tool(entries: &Vec<PiEntry>, id: &str) -> (out: Option<usize>)
    ensures
        match out {
            Some(at) => at < entries@.len() && at == last_tool(entries.deep_view(), id@),
            None => last_tool(entries.deep_view(), id@) == -1,
        },
{
    let ghost all = entries.deep_view();
    let mut n: usize = entries.len();
    assert(all.take(n as int) =~= all);
    while n > 0
        invariant
            n <= entries@.len(),
            all == entries.deep_view(),
            last_tool(all.take(n as int), id@) == last_tool(all, id@),
        decreases n,
    {
        let at: usize = n - 1;
        assert(all[at as int] == entries@[at as int].deep_view());
        assert(all.take(n as int).last() == all[at as int]);
        assert(all.take(n as int).drop_last() =~= all.take(at as int));
        if let PiEntryKind::Tool { id: tid, .. } = &entries[at].kind {
            if same(tid.as_str(), id) {
                return Some(at);
            }
        }
        n = at;
    }
    None
}

fn find_last_user(entries: &Vec<PiEntry>, text: &str) -> (out: Option<usize>)
    ensures
        match out {
            Some(at) => at < entries@.len() && at == last_user(entries.deep_view(), text@),
            None => last_user(entries.deep_view(), text@) == -1,
        },
{
    let ghost all = entries.deep_view();
    let mut n: usize = entries.len();
    assert(all.take(n as int) =~= all);
    while n > 0
        invariant
            n <= entries@.len(),
            all == entries.deep_view(),
            last_user(all.take(n as int), text@) == last_user(all, text@),
        decreases n,
    {
        let at: usize = n - 1;
        assert(all[at as int] == entries@[at as int].deep_view());
        assert(all.take(n as int).last() == all[at as int]);
        assert(all.take(n as int).drop_last() =~= all.take(at as int));
        if let PiEntryKind::User(t) = &entries[at].kind {
            if same(t.as_str(), text) {
                return Some(at);
            }
        }
        n = at;
    }
    None
}

fn find_entry(entries: &Vec<PiEntry>, id: u64) -> (at: usize)
    ensures
        at == entry_at(entries.deep_view(), id),
        at <= entries@.len(),
{
    let ghost all = entries.deep_view();
    assert(all.skip(0) =~= all);
    let mut i: usize = 0;
    while i < entries.len()
        invariant
            i <= entries@.len(),
            all == entries.deep_view(),
            entry_at(all, id) == i + entry_at(all.skip(i as int), id),
        decreases entries@.len() - i,
    {
        assert(all.skip(i as int)[0] == entries@[i as int].deep_view());
        if entries[i].id == id {
            return i;
        }
        assert(all.skip(i as int).drop_first() =~= all.skip(i + 1));
        i += 1;
    }
    i
}

/// How many live entry ids an event may take.
pub fn ids_needed(ev: &Event) -> (n: usize)
    ensures
        n == PanelV::ids_for(ev.deep_view()),
{
    match ev {
        Event::User(_) => 1,
        Event::Notice(_) => 1,
        Event::StreamError(_) => 1,
        Event::SendFailed { .. } => 1,
        Event::AssistantEnd { parts } => {
            assert(parts.deep_view().len() == parts@.len());
            parts.len()
        },
        _ => 0,
    }
}

/// A stored entry as it is shown; `before` is the transcript that it replaces.
pub fn stable_entry(entry: Entry, before: &Vec<PiEntry>) -> (out: PiEntry)
    ensures
        out.deep_view() == shown(entry.deep_view(), before.deep_view()),
{
    let (id, kind) = match entry {
        Entry::User(t) => (stable_id("u", t.as_str(), 0), PiEntryKind::User(t)),
        Entry::Assistant(t) => {
            let id: u64 = stable_id("a", t.as_str(), 0);
            (id, PiEntryKind::Assistant(AssistantBody::new(t)))
        },
        Entry::Thinking(t) => (stable_id("t", t.as_str(), 0), PiEntryKind::Thinking(t)),
        Entry::Tool { id, name, output, done, is_error } => (
            stable_id("tool", id.as_str(), 0),
            PiEntryKind::Tool { id, name, output, done, is_error },
        ),
        Entry::Notice(n) => (stable_id("n", n.as_str(), 0), PiEntryKind::Notice(n)),
    };
    let at: usize = find_entry(before, id);
    let ghost shown_before = before.deep_view();
    let expanded = if at < before.len() {
        assert(shown_before[at as int] == before@[at as int].deep_view());
        before[at].expanded
    } else {
        false
    };
    PiEntry { id, kind, expanded }
}

fn blocks_of(parts: &Vec<(usize, Part)>) -> (out: Vec<StreamBlock>)
    ensures
        out.deep_view() == live_blocks(parts.deep_view()),
{
    let ghost all = parts.deep_view();
    assert(all.take(0) =~= Seq::empty());
    let mut out: Vec<StreamBlock> = Vec::new();
    let mut i: usize = 0;
    while i < parts.len()
        invariant
            i <= parts@.len(),
            all == parts.deep_view(),
            out.deep_view() == live_blocks(all.take(i as int)),
        decreases parts@.len() - i,
    {
        assert(all.take(i + 1).drop_last() =~= all.take(i as int));
        assert(all.take(i + 1).last() == parts@[i as int].deep_view());
        let idx: usize = parts[i].0;
        match &parts[i].1 {
            Part::Thinking(t) => {
                out.push(StreamBlock::Thinking { idx, text: t.clone() });
            },
            Part::Text(t) => {
                out.push(StreamBlock::Text { idx, text: t.clone() });
            },
            Part::ToolCall { .. } => {},
        }
        i += 1;
    }
    assert(all.take(i as int) =~= all);
    out
}

fn block_takes(block: &StreamBlock, kind: DeltaKind, idx: usize) -> (r: bool)
    ensures
        r == takes_delta(block.deep_view(), kind, idx),
{
    match block {
        StreamBlock::Text { idx: i, .. } => match kind {
            DeltaKind::Text => *i == idx,
            DeltaKind::Thinking => false,
        },
        StreamBlock::Thinking { idx: i, .. } => match kind {
            DeltaKind::Text => false,
            DeltaKind::Thinking => *i == idx,
        },
    }
}

fn grow(block: StreamBlock, chunk: &str) -> (out: StreamBlock)
    ensures
        out.deep_view() == grown(block.deep_view(), chunk@),
{
    match block {
        StreamBlock::Text { idx, text } => {
            let mut t = text;
            t.append(chunk);
            StreamBlock::Text { idx, text: t }
        },
        StreamBlock::Thinking { idx, text } => {
            let mut t = text;
            t.append(chunk);
            StreamBlock::Thinking { idx, text: t }
        },
    }
}

fn add_delta(blocks: &mut Vec<StreamBlock>, kind: DeltaKind, idx: usize, chunk: String)
    ensures
        final(blocks).deep_view() == after_delta(old(blocks).deep_view(), kind, idx, chunk@),
{
    let ghost all = blocks.deep_view();
    assert(all.skip(0) =~= all);
    let mut i: usize = 0;
    while i < blocks.len()
        invariant
            i <= blocks@.len(),
            all == blocks.deep_view(),
            all == old(blocks).deep_view(),
            block_at(all, kind, idx) == i + block_at(all.skip(i as int), kind, idx),
        decreases blocks@.len() - i,
    {
        assert(all.skip(i as int)[0] == blocks@[i as int].deep_view());
        if block_takes(&blocks[i], kind, idx) {
            let block = blocks.remove(i);
            blocks.insert(i, grow(block, chunk.as_str()));
            assert(blocks.deep_view() =~= all.update(i as int, grown(all[i as int], chunk@)));
            return ;
        }
        assert(all.skip(i as int).drop_first() =~= all.skip(i + 1));
        i += 1;
    }
    let block = match kind {
        DeltaKind::Text => StreamBlock::Text { idx, text: chunk },
        DeltaKind::Thinking => StreamBlock::Thinking { idx, text: chunk },
    };
    blocks.push(block);
}

impl PiPanelState {
    /// A panel that was not started yet. What the environment does not set takes
    /// its default.
    pub fn new(
        endpoint: Option<&str>,
        mode: &str,
        bin: Option<&str>,
        cwd: Option<&str>,
        home: Option<&str>,
    ) -> (out: Self)
        ensures
            out.deep_view() == initial(
                endpoint.deep_view(),
                mode@,
                bin.deep_view(),
                cwd.deep_view(),
                home.deep_view(),
            ),
    {
        let endpoint = match endpoint {
            Some(e) => e.to_owned(),
            None => "http://127.0.0.1:30141".to_owned(),
        };
        let pi_bin = match bin {
            Some(b) => b.to_owned(),
            None => "pi".to_owned(),
        };
        let project_cwd = match cwd {
            Some(c) => c.to_owned(),
            None => match home {
                Some(h) => h.to_owned(),
                None => "/".to_owned(),
            },
        };
        let home: Option<String> = match home {
            Some(h) => Some(h.to_owned()),
            None => None,
        };
        let none = String::new();
        assert(none@ =~= Seq::empty());
        PiPanelState {
            endpoint,
            status: PiStatus::Idle,
            sessions: Vec::new(),
            active: None,
            entries: Vec::new(),
            streaming: StreamingMsg { blocks: Vec::new() },
            input: none.clone(),
            caret: (0, 0),
            pending_echoes: Vec::new(),
            queued_followups: None,
            models: Vec::new(),
            current_model: None,
            thinking_levels: Vec::new(),
            current_thinking: None,
            commands: Vec::new(),
            files: None,
            files_requested: None,
            popup: None,
            browse: None,
            pending_ui: None,
            backend: none.clone(),
            stats: None,
            ui_answer: none.clone(),
            mode: mode.to_owned(),
            pi_bin,
            project_cwd,
            home,
            pending_image: None,
            pending_image_size: None,
            selection_label: none,
            selection_fingerprint: 0,
            live_expanded: HashSet::new(),
            next_id: 0,
            worker: false,
            outbox: Vec::new(),
        }
    }

    /// A panel with every setting at its default.
    pub fn empty() -> (out: Self)
        ensures
            out.deep_view() == initial(None, "auto"@, None, None, None),
    {
        PiPanelState::new(None, "auto", None, None, None)
    }

    /// Whether an agent run is streaming.
    pub fn is_streaming(&self) -> (r: bool)
        ensures
            r == self.deep_view().is_streaming(),
    {
        match &self.status {
            PiStatus::Ready { streaming, .. } => *streaming,
            _ => false,
        }
    }

    /// Hands a command to the worker, if one runs.
    pub fn send_command(&mut self, command: Command)
        ensures
            final(self).deep_view() == old(self).deep_view().sent(command.deep_view()),
    {
        if self.worker {
            self.outbox.push(command);
        }
    }

    /// Takes the commands that wait for the worker.
    pub fn take_outbox(&mut self) -> (out: Vec<Command>)
        ensures
            out.deep_view() == old(self).deep_view().outbox,
            final(self).deep_view() == (PanelV {
                outbox: Seq::empty(),
                ..old(self).deep_view()
            }),
    {
        let mut out: Vec<Command> = Vec::new();
        out.append(&mut self.outbox);
        assert(out.deep_view() =~= old(self).deep_view().outbox);
        out
    }

    /// Whether `n` live entry ids are left.
    pub fn has_spare_ids(&self, n: u64) -> (r: bool)
        ensures
            r == self.deep_view().has_ids(n as nat),
    {
        n == 0 || (self.next_id <= MAX_LIVE_IDS && n <= MAX_LIVE_IDS - self.next_id)
    }

    /// Whether there are ids left for what `ev` brings.
    pub fn has_room(&self, ev: &Event) -> (r: bool)
        ensures
            r == self.deep_view().has_ids(PanelV::ids_for(ev.deep_view())),
    {
        self.has_spare_ids(ids_needed(ev) as u64)
    }

    /// Appends a live entry.
    pub fn push_kind(&mut self, kind: PiEntryKind) -> (id: u64)
        requires
            old(self).deep_view().has_ids(1),
        ensures
            final(self).deep_view() == old(self).deep_view().pushed(kind.deep_view()),
            id == LIVE_ID_BASE + old(self).next_id + 1,
    {
        self.next_id = self.next_id + 1;
        let id: u64 = LIVE_ID_BASE + self.next_id;
        self.entries.push(PiEntry { id, kind, expanded: false });
        id
    }

    /// Appends a notice.
    pub fn push_notice(&mut self, message: String)
        requires
            old(self).deep_view().has_ids(1),
        ensures
            final(self).deep_view() == old(self).deep_view().pushed(
                PiEntryKindV::Notice(message@),
            ),
    {
        let _: u64 = self.push_kind(PiEntryKind::Notice(message));
    }

    /// Finds or creates the entry of a tool call. Its id comes from the call, so
    /// that a backfill keeps it.
    fn ensure_tool(&mut self, id: &str, name: &str)
        ensures
            final(self).deep_view() == old(self).deep_view().with_tool(id@, name@),
    {
        if find_last_tool(&self.entries, id).is_none() {
            let output = String::new();
            assert(output@ =~= Seq::empty());
            self.entries.push(
                PiEntry {
                    id: stable_id("tool", id, 0),
                    kind: PiEntryKind::Tool {
                        id: id.to_owned(),
                        name: name.to_owned(),
                        output,
                        done: false,
                        is_error: false,
                    },
                    expanded: false,
                },
            );
        }
    }

    /// Updates the entry of a tool call, or creates it.
    fn set_tool(&mut self, id: &str, name: &str, output: String, done: bool, is_error: bool)
        ensures
            final(self).deep_view() == old(self).deep_view().tool_set(
                id@,
                name@,
                output@,
                done,
                is_error,
            ),
    {
        let ghost all = self.entries.deep_view();
        let kind = PiEntryKind::Tool {
            id: id.to_owned(),
            name: name.to_owned(),
            output,
            done,
            is_error,
        };
        match find_last_tool(&self.entries, id) {
            Some(at) => {
                assert(all[at as int] == self.entries@[at as int].deep_view());
                let entry = PiEntry {
                    id: self.entries[at].id,
                    kind,
                    expanded: self.entries[at].expanded,
                };
                self.entries.set(at, entry);
            },
            None => {
                self.entries.push(
                    PiEntry { id: stable_id("tool", id, 0), kind, expanded: false },
                );
            },
        }
    }

    fn apply_tools(&mut self, parts: &Vec<(usize, Part)>)
        ensures
            final(self).deep_view() == old(self).deep_view().with_tools(parts.deep_view()),
    {
        let ghost all = parts.deep_view();
        let ghost start = self.deep_view();
        assert(all.take(0) =~= Seq::empty());
        let mut i: usize = 0;
        while i < parts.len()
            invariant
                i <= parts@.len(),
                all == parts.deep_view(),
                start == old(self).deep_view(),
                self.deep_view() == start.with_tools(all.take(i as int)),
            decreases parts@.len() - i,
        {
            assert(all.take(i + 1).drop_last() =~= all.take(i as int));
            assert(all.take(i + 1).last() == parts@[i as int].deep_view());
            if let Part::ToolCall { id, name } = &parts[i].1 {
                self.ensure_tool(id.as_str(), name.as_str());
            }
            i += 1;
        }
        assert(all.take(i as int) =~= all);
    }

    fn apply_final(&mut self, parts: Vec<(usize, Part)>)
        requires
            old(self).deep_view().has_ids(parts.deep_view().len()),
        ensures
            final(self).deep_view() == old(self).deep_view().with_final(parts.deep_view()),
    {
        let ghost all = parts.deep_view();
        let ghost start = self.deep_view();
        let ghost total = parts@.len();
        assert(all.len() == total);
        assert(all.take(0) =~= Seq::empty());
        for item in it: parts
            invariant
                it.seq() == parts@,
                all == parts.deep_view(),
                total == parts@.len(),
                start == old(self).deep_view(),
                start.has_ids(total),
                self.next_id <= start.next_id + it.index(),
                self.deep_view() == start.with_final(all.take(it.index() as int)),
        {
            assert(all.take(it.index() + 1).drop_last() =~= all.take(it.index() as int));
            assert(all.take(it.index() + 1).last() == item.deep_view());
            match item.1 {
                Part::Thinking(t) => {
                    if !t.as_str().is_empty() {
                        let _: u64 = self.push_kind(PiEntryKind::Thinking(t));
                    }
                },
                Part::Text(t) => {
                    if !t.as_str().is_empty() {
                        let _: u64 = self.push_kind(
                            PiEntryKind::Assistant(AssistantBody::new(t)),
                        );
                    }
                },
                Part::ToolCall { id, name } => {
                    self.ensure_tool(id.as_str(), name.as_str());
                },
            }
        }
        assert(all.take(all.len() as int) =~= all);
    }

    /// The directory of the followed session, if known.
    pub fn active_cwd(&self) -> (out: Option<String>)
        ensures
            out.deep_view() == self.deep_view().active_cwd(),
    {
        match &self.active {
            Some(id) => {
                let at: usize = find_session(&self.sessions, id.as_str());
                let ghost all = self.sessions.deep_view();
                if at < self.sessions.len() {
                    assert(all[at as int] == self.sessions@[at as int].deep_view());
                    copy_option(&self.sessions[at].cwd)
                } else {
                    None
                }
            },
            None => None,
        }
    }

    fn ask_files(&mut self)
        ensures
            final(self).deep_view() == old(self).deep_view().files_asked(),
    {
        if let Some(cwd) = self.active_cwd() {
            let have = match &self.files {
                Some((c, _)) => same(c.as_str(), cwd.as_str()),
                None => false,
            };
            let asked = match &self.files_requested {
                Some(c) => same(c.as_str(), cwd.as_str()),
                None => false,
            };
            if !have && !asked {
                self.files_requested = Some(cwd.clone());
                self.send_command(Command::FetchFiles { cwd });
            }
        }
    }

    /// Recomputes the completion popup from the composer text: `/` at the start
    /// of the last line completes commands, a last word with `@` files.
    pub fn refresh_popup(&mut self)
        ensures
            final(self).deep_view() == old(self).deep_view().refreshed(),
    {
        match completion(self.input.as_str()) {
            Completion::Slash(query) => {
                let matches = match_commands(&self.commands, query.as_str());
                self.popup = Some(Popup::Slash { query, matches, active: 0 });
            },
            Completion::At(query) => {
                self.ask_files();
                let matches: Vec<String> = match &self.files {
                    Some((_, files)) => match_files(files, query.as_str()),
                    None => Vec::new(),
                };
                self.popup = Some(Popup::At { query, matches, active: 0 });
            },
            Completion::Nothing => {
                self.popup = None;
            },
        }
    }

    fn apply_user(&mut self, text: String) -> (changed: bool)
        requires
            old(self).deep_view().has_ids(1),
        ensures
            (final(self).deep_view(), changed) == old(self).deep_view().after_user(text@),
    {
        let ghost p = self.deep_view();
        if self.pending_echoes.len() > 0 {
            assert(p.pending_echoes[0] == self.pending_echoes@[0]@);
            if same(self.pending_echoes[0].as_str(), text.as_str()) {
                let _ = self.pending_echoes.remove(0);
                return false;
            }
        }
        if text.as_str().is_empty() {
            return false;
        }
        if self.entries.len() > 0 {
            let last: usize = self.entries.len() - 1;
            assert(p.entries.last() == self.entries@[last as int].deep_view());
            if let PiEntryKind::User(t) = &self.entries[last].kind {
                if same(t.as_str(), text.as_str()) {
                    return false;
                }
            }
        }
        let _: u64 = self.push_kind(PiEntryKind::User(text));
        true
    }

    fn apply_rejection(&mut self, message: String)
        requires
            old(self).deep_view().has_ids(1),
        ensures
            final(self).deep_view() == old(self).deep_view().after_rejection(message@),
    {
        let ghost p = self.deep_view();
        if self.pending_echoes.len() > 0 {
            let last: usize = self.pending_echoes.len() - 1;
            assert(p.pending_echoes.last() == self.pending_echoes@[last as int]@);
            let echo = self.pending_echoes.remove(last);
            assert(self.pending_echoes.deep_view() =~= p.pending_echoes.drop_last());
            if let Some(at) = find_last_user(&self.entries, echo.as_str()) {
                let _ = self.entries.remove(at);
            }
        }
        let mut text = "发送失败：".to_owned();
        text.append(message.as_str());
        let _: u64 = self.push_kind(PiEntryKind::Notice(text));
    }

    fn apply_status(&mut self, status: Status)
        ensures
            final(self).deep_view() == old(self).deep_view().after_status(status.deep_view()),
    {
        match status {
            Status::Connecting => {
                self.status = PiStatus::Connecting;
            },
            Status::Ready { session, streaming } => {
                self.send_command(Command::FetchStats);
                self.active = Some(session.clone());
                self.status = PiStatus::Ready { session, streaming };
            },
            Status::Error(e) => {
                self.status = PiStatus::Error(e);
            },
        }
    }

    fn apply_streaming(&mut self, v: bool)
        ensures
            final(self).deep_view() == old(self).deep_view().after_streaming(v),
    {
        let was = self.is_streaming();
        let session: Option<String> = match &self.status {
            PiStatus::Ready { session, .. } => Some(session.clone()),
            _ => None,
        };
        if let Some(session) = session {
            self.status = PiStatus::Ready { session, streaming: v };
        }
        if was && !v {
            self.send_command(Command::FetchStats);
        }
    }

    fn apply_replace(&mut self, entries: Vec<Entry>)
        ensures
            final(self).deep_view() == old(self).deep_view().applied(
                EventV::Replace(entries.deep_view()),
            ).0,
    {
        let ghost all = entries.deep_view();
        let ghost before = self.entries.deep_view();
        let mut out: Vec<PiEntry> = Vec::new();
        for e in it: entries
            invariant
                it.seq() == entries@,
                all == entries.deep_view(),
                before == self.entries.deep_view(),
                self.deep_view() == old(self).deep_view(),
                out.deep_view() == all.take(it.index() as int).map_values(
                    |e: EntryV| shown(e, before),
                ),
        {
            assert(all.take(it.index() + 1) =~= all.take(it.index() as int).push(e.deep_view()));
            out.push(stable_entry(e, &self.entries));
            assert(out.deep_view() =~= all.take(it.index() + 1).map_values(
                |e: EntryV| shown(e, before),
            ));
        }
        assert(all.take(all.len() as int) =~= all);
        self.entries = out;
        self.streaming = StreamingMsg { blocks: Vec::new() };
    }

    /// Folds one event of the backend into the state. Says whether the transcript
    /// changed.
    pub fn apply(&mut self, ev: Event) -> (changed: bool)
        requires
            old(self).deep_view().has_ids(PanelV::ids_for(ev.deep_view())),
        ensures
            (final(self).deep_view(), changed) == old(self).deep_view().applied(ev.deep_view()),
    {
        match ev {
            Event::Status(s) => {
                self.apply_status(s);
                false
            },
            Event::Sessions(list) => {
                let ghost all = list.deep_view();
                assert(all.len() == list@.len());
                if self.active.is_none() && list.len() > 0 {
                    assert(all[0] == list@[0].deep_view());
                    self.active = Some(list[0].id.clone());
                }
                self.sessions = list;
                false
            },
            Event::Replace(entries) => {
                self.apply_replace(entries);
                true
            },
            Event::User(text) => self.apply_user(text),
            Event::Models { list, current, thinking_levels, thinking } => {
                self.models = list;
                self.thinking_levels = thinking_levels;
                if current.is_some() {
                    self.current_model = current;
                }
                if thinking.is_some() {
                    self.current_thinking = thinking;
                }
                false
            },
            Event::Commands(list) => {
                self.commands = list;
                self.refresh_popup();
                false
            },
            Event::Files { cwd, files } => {
                self.files = Some((cwd, files));
                self.files_requested = None;
                self.refresh_popup();
                false
            },
            Event::DirListing { path, parent, dirs } => {
                if self.browse.is_some() {
                    self.browse = Some(BrowseState { path, parent, dirs, loading: false });
                }
                false
            },
            Event::ThinkingSet { level } => {
                self.current_thinking = Some(level);
                false
            },
            Event::Notice(message) => {
                self.push_notice(message);
                true
            },
            Event::Backend(label) => {
                self.backend = label;
                false
            },
            Event::UiRequest { id, method, title, message, options, prefill } => {
                self.ui_answer = match prefill {
                    Some(t) => t,
                    None => {
                        let none = String::new();
                        assert(none@ =~= Seq::empty());
                        none
                    },
                };
                self.pending_ui = Some(PendingUi { id, method, title, message, options });
                true
            },
            Event::Stats(stats) => {
                self.stats = Some(stats);
                false
            },
            Event::ModelSet { provider, id } => {
                self.current_model = Some((provider, id));
                false
            },
            Event::MsgStart { parts } => {
                self.streaming = StreamingMsg { blocks: blocks_of(&parts) };
                self.apply_tools(&parts);
                true
            },
            Event::Delta { kind, idx, chunk } => {
                add_delta(&mut self.streaming.blocks, kind, idx, chunk);
                true
            },
            Event::AssistantEnd { parts } => {
                self.apply_final(parts);
                self.streaming = StreamingMsg { blocks: Vec::new() };
                true
            },
            Event::ToolCallStart { id, name } => {
                self.ensure_tool(id.as_str(), name.as_str());
                true
            },
            Event::ToolPartial { id, name, output } => {
                self.set_tool(id.as_str(), name.as_str(), output, false, false);
                true
            },
            Event::ToolResult { id, name, output, is_error } => {
                self.set_tool(id.as_str(), name.as_str(), output, true, is_error);
                true
            },
            Event::Queue { steering: _, follow_up } => {
                assert(follow_up.deep_view().len() == follow_up@.len());
                self.queued_followups = Some(follow_up.len());
                false
            },
            Event::Streaming(v) => {
                self.apply_streaming(v);
                false
            },
            Event::StreamError(msg) => {
                let ghost p = self.deep_view();
                if self.entries.len() > 0 {
                    let last: usize = self.entries.len() - 1;
                    assert(p.entries.last() == self.entries@[last as int].deep_view());
                    if let PiEntryKind::Notice(n) = &self.entries[last].kind {
                        if same(n.as_str(), msg.as_str()) {
                            return false;
                        }
                    }
                }
                self.push_notice(msg);
                true
            },
            Event::SendFailed { message } => {
                self.apply_rejection(message);
                true
            },
        }
    }
}

/// The state of a panel that was not started yet.
pub open spec fn initial(
    endpoint: Option<Seq<char>>,
    mode: Seq<char>,
    bin: Option<Seq<char>>,
    cwd: Option<Seq<char>>,
    home: Option<Seq<char>>,
) -> PanelV {
    PanelV {
        endpoint: match endpoint {
            Some(e) => e,
            None => "http://127.0.0.1:30141"@,
        },
        status: PiStatusV::Idle,
        sessions: Seq::empty(),
        active: None,
        entries: Seq::empty(),
        streaming: Seq::empty(),
        input: Seq::empty(),
        caret: (0, 0),
        pending_echoes: Seq::empty(),
        queued_followups: None,
        models: Seq::empty(),
        current_model: None,
        thinking_levels: Seq::empty(),
        current_thinking: None,
        commands: Seq::empty(),
        files: None,
        files_requested: None,
        popup: None,
        browse: None,
        pending_ui: None,
        backend: Seq::empty(),
        stats: None,
        ui_answer: Seq::empty(),
        mode,
        pi_bin: match bin {
            Some(b) => b,
            None => "pi"@,
        },
        project_cwd: match cwd {
            Some(c) => c,
            None => match home {
                Some(h) => h,
                None => "/"@,
            },
        },
        home,
        pending_image: None,
        pending_image_size: None,
        selection_label: Seq::empty(),
        selection_fingerprint: 0,
        live_expanded: Set::empty(),
        next_id: 0,
        worker: false,
        outbox: Seq::empty(),
    }
}

} // verus!
