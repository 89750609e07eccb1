//! The vocabulary of the panel: what the agent tells it ([`Event`]), what it
//! asks for ([`Command`]), and the records both carry.
//!
//! Each type that holds text has a model with the same shape, whose name ends
//! in `V`; contracts speak of the models.

use vstd::prelude::*;

verus! {

/// One transcript entry.
#[derive(Debug, PartialEq)]
pub enum Entry {
    User(String),
    Assistant(String),
    Thinking(String),
    Tool {
        id: String,
        name: String,
        output: String,
        done: bool,
        is_error: bool,
    },
    Notice(String),
}

/// Model of [`Entry`].
pub enum EntryV {
    User(Seq<char>),
    Assistant(Seq<char>),
    Thinking(Seq<char>),
    Tool { id: Seq<char>, name: Seq<char>, output: Seq<char>, done: bool, is_error: bool },
    Notice(Seq<char>),
}

impl DeepView for Entry {
    type V = EntryV;

    open spec fn deep_view(&self) -> EntryV {
        match self {
            Entry::User(inner) => EntryV::User(inner@),
            Entry::Assistant(inner) => EntryV::Assistant(inner@),
            Entry::Thinking(inner) => EntryV::Thinking(inner@),
            Entry::Tool { id, name, output, done, is_error } => EntryV::Tool {
                id: id@,
                name: name@,
                output: output@,
                done: *done,
                is_error: *is_error,
            },
            Entry::Notice(inner) => EntryV::Notice(inner@),
        }
    }
}

/// One content block of an assistant message.
#[derive(Debug, PartialEq)]
pub enum Part {
    Text(String),
    Thinking(String),
    ToolCall { id: String, name: String },
}

/// Model of [`Part`].
pub enum PartV {
    Text(Seq<char>),
    Thinking(Seq<char>),
    ToolCall { id: Seq<char>, name: Seq<char> },
}

impl DeepView for Part {
    type V = PartV;

    open spec fn deep_view(&self) -> PartV {
        match self {
            Part::Text(inner) => PartV::Text(inner@),
            Part::Thinking(inner) => PartV::Thinking(inner@),
            Part::ToolCall { id, name } => PartV::ToolCall { id: id@, name: name@ },
        }
    }
}

/// Which kind of block a [`Event::Delta`] appends to.
#[derive(Debug, Clone, Copy, PartialEq, Eq, Structural)]
pub enum DeltaKind {
    Text,
    Thinking,
}

impl DeepView for DeltaKind {
    type V = DeltaKind;

    open spec fn deep_view(&self) -> DeltaKind {
        *self
    }
}

/// Connection state of a backend.
#[derive(Debug, PartialEq)]
pub enum Status {
    Connecting,
    Ready { session: String, streaming: bool },
    Error(String),
}

/// Model of [`Status`].
pub enum StatusV {
    Connecting,
    Ready { session: Seq<char>, streaming: bool },
    Error(Seq<char>),
}

impl DeepView for Status {
    type V = StatusV;

    open spec fn deep_view(&self) -> StatusV {
        match self {
            Status::Connecting => StatusV::Connecting,
            Status::Ready { session, streaming } => StatusV::Ready {
                session: session@,
                streaming: *streaming,
            },
            Status::Error(inner) => StatusV::Error(inner@),
        }
    }
}

/// A model the agent can use.
#[derive(Debug, PartialEq)]
pub struct ModelInfo {
    pub provider: String,
    pub id: String,
    /// Display name; may repeat across providers.
    pub name: String,
}

/// Model of [`ModelInfo`].
pub struct ModelInfoV {
    pub provider: Seq<char>,
    pub id: Seq<char>,
    pub name: Seq<char>,
}

impl DeepView for ModelInfo {
    type V = ModelInfoV;

    open spec fn deep_view(&self) -> ModelInfoV {
        ModelInfoV {
            provider: self.provider@,
            id: self.id@,
            name: self.name@,
        }
    }
}

/// An image carried with a prompt: raw base64, no data URL.
#[derive(Debug, PartialEq)]
pub struct ImageAttachment {
    pub mime: String,
    pub base64: String,
}

/// Model of [`ImageAttachment`].
pub struct ImageAttachmentV {
    pub mime: Seq<char>,
    pub base64: Seq<char>,
}

impl DeepView for ImageAttachment {
    type V = ImageAttachmentV;

    open spec fn deep_view(&self) -> ImageAttachmentV {
        ImageAttachmentV {
            mime: self.mime@,
            base64: self.base64@,
        }
    }
}

/// A session of the agent.
#[derive(Debug, PartialEq)]
pub struct SessionInfo {
    pub id: String,
    /// First line of the first message, at most 60 characters.
    pub label: String,
    /// Path of the session `.jsonl`, for history backfill.
    pub path: Option<String>,
    /// Working directory of the session.
    pub cwd: Option<String>,
}

/// Model of [`SessionInfo`].
pub struct SessionInfoV {
    pub id: Seq<char>,
    pub label: Seq<char>,
    pub path: Option<Seq<char>>,
    pub cwd: Option<Seq<char>>,
}

impl DeepView for SessionInfo {
    type V = SessionInfoV;

    open spec fn deep_view(&self) -> SessionInfoV {
        SessionInfoV {
            id: self.id@,
            label: self.label@,
            path: self.path.deep_view(),
            cwd: self.cwd.deep_view(),
        }
    }
}

/// Token, cost and context accounting of a session.
#[derive(Debug, PartialEq)]
pub struct SessionStats {
    pub input: u64,
    pub output: u64,
    pub cache_read: u64,
    pub cache_write: u64,
    /// The cost as JSON writes the number.
    pub cost: Option<String>,
    pub context_tokens: Option<u64>,
    pub context_window: Option<u64>,
    pub context_percent: Option<u8>,
}

/// Model of [`SessionStats`].
pub struct SessionStatsV {
    pub input: u64,
    pub output: u64,
    pub cache_read: u64,
    pub cache_write: u64,
    pub cost: Option<Seq<char>>,
    pub context_tokens: Option<u64>,
    pub context_window: Option<u64>,
    pub context_percent: Option<u8>,
}

impl DeepView for SessionStats {
    type V = SessionStatsV;

    open spec fn deep_view(&self) -> SessionStatsV {
        SessionStatsV {
            input: self.input,
            output: self.output,
            cache_read: self.cache_read,
            cache_write: self.cache_write,
            cost: self.cost.deep_view(),
            context_tokens: self.context_tokens,
            context_window: self.context_window,
            context_percent: self.context_percent,
        }
    }
}

/// A slash-invokable command.
#[derive(Debug, PartialEq)]
pub struct CommandInfo {
    pub name: String,
    pub description: String,
    /// `extension`, `prompt` or `skill`.
    pub source: String,
}

/// Model of [`CommandInfo`].
pub struct CommandInfoV {
    pub name: Seq<char>,
    pub description: Seq<char>,
    pub source: Seq<char>,
}

impl DeepView for CommandInfo {
    type V = CommandInfoV;

    open spec fn deep_view(&self) -> CommandInfoV {
        CommandInfoV {
            name: self.name@,
            description: self.description@,
            source: self.source@,
        }
    }
}

/// What a backend tells the panel.
#[allow(inconsistent_fields)]
#[derive(Debug, PartialEq)]
pub enum Event {
    /// Connection state changed.
    Status(Status),
    /// Session list refreshed, newest activity first.
    Sessions(Vec<SessionInfo>),
    /// The transcript is replaced wholesale (backfill or session switch).
    Replace(Vec<Entry>),
    /// A completed user message; empty when it only carries an image.
    User(String),
    /// Model catalog, and the model and thinking level the session uses.
    Models {
        list: Vec<ModelInfo>,
        current: Option<(String, String)>,
        /// Thinking levels per `provider:id`.
        thinking_levels: Vec<(String, Vec<String>)>,
        thinking: Option<String>,
    },
    /// Slash commands available in the session.
    Commands(Vec<CommandInfo>),
    /// File index of a directory.
    Files { cwd: String, files: Vec<String> },
    /// Sub-directories of a directory: name and path of each.
    DirListing { path: String, parent: Option<String>, dirs: Vec<(String, String)> },
    /// The thinking level of the session changed.
    ThinkingSet { level: String },
    /// A notice for the transcript.
    Notice(String),
    /// Which backend serves the panel.
    Backend(String),
    /// An extension asks the user something.
    UiRequest {
        id: String,
        /// `select`, `confirm`, `input` or `editor`.
        method: String,
        title: String,
        message: Option<String>,
        options: Vec<String>,
        /// Text that `input` and `editor` start from.
        prefill: Option<String>,
    },
    /// Session accounting.
    Stats(SessionStats),
    /// The session now uses this model.
    ModelSet { provider: String, id: String },
    /// An assistant message started; `parts` is the snapshot so far, each part
    /// with its content index.
    MsgStart { parts: Vec<(usize, Part)> },
    /// More text for the block at content index `idx`.
    Delta { kind: DeltaKind, idx: usize, chunk: String },
    /// The streaming assistant message ended with these parts.
    AssistantEnd { parts: Vec<(usize, Part)> },
    /// A tool call became known.
    ToolCallStart { id: String, name: String },
    /// A running tool's output so far.
    ToolPartial { id: String, name: String, output: String },
    /// A tool finished.
    ToolResult { id: String, name: String, output: String, is_error: bool },
    /// The queue of prompts waiting in the agent changed.
    Queue { steering: Vec<String>, follow_up: Vec<String> },
    /// An agent run started or ended.
    Streaming(bool),
    /// An assistant stream failed.
    StreamError(String),
    /// A command was rejected.
    SendFailed { message: String },
}

/// Model of [`Event`].
#[allow(inconsistent_fields)]
pub enum EventV {
    Status(StatusV),
    Sessions(Seq<SessionInfoV>),
    Replace(Seq<EntryV>),
    User(Seq<char>),
    Models {
        list: Seq<ModelInfoV>,
        current: Option<(Seq<char>, Seq<char>)>,
        thinking_levels: Seq<(Seq<char>, Seq<Seq<char>>)>,
        thinking: Option<Seq<char>>,
    },
    Commands(Seq<CommandInfoV>),
    Files { cwd: Seq<char>, files: Seq<Seq<char>> },
    DirListing { path: Seq<char>, parent: Option<Seq<char>>, dirs: Seq<(Seq<char>, Seq<char>)> },
    ThinkingSet { level: Seq<char> },
    Notice(Seq<char>),
    Backend(Seq<char>),
    UiRequest {
        id: Seq<char>,
        method: Seq<char>,
        title: Seq<char>,
        message: Option<Seq<char>>,
        options: Seq<Seq<char>>,
        prefill: Option<Seq<char>>,
    },
    Stats(SessionStatsV),
    ModelSet { provider: Seq<char>, id: Seq<char> },
    MsgStart { parts: Seq<(usize, PartV)> },
    Delta { kind: DeltaKind, idx: usize, chunk: Seq<char> },
    AssistantEnd { parts: Seq<(usize, PartV)> },
    ToolCallStart { id: Seq<char>, name: Seq<char> },
    ToolPartial { id: Seq<char>, name: Seq<char>, output: Seq<char> },
    ToolResult { id: Seq<char>, name: Seq<char>, output: Seq<char>, is_error: bool },
    Queue { steering: Seq<Seq<char>>, follow_up: Seq<Seq<char>> },
    Streaming(bool),
    StreamError(Seq<char>),
    SendFailed { message: Seq<char> },
}

impl DeepView for Event {
    type V = EventV;

    open spec fn deep_view(&self) -> EventV {
        match self {
            Event::Status(inner) => EventV::Status(inner.deep_view()),
            Event::Sessions(inner) => EventV::Sessions(inner.deep_view()),
            Event::Replace(inner) => EventV::Replace(inner.deep_view()),
            Event::User(inner) => EventV::User(inner@),
            Event::Models { list, current, thinking_levels, thinking } => EventV::Models {
                list: list.deep_view(),
                current: current.deep_view(),
                thinking_levels: thinking_levels.deep_view(),
                thinking: thinking.deep_view(),
            },
            Event::Commands(inner) => EventV::Commands(inner.deep_view()),
            Event::Files { cwd, files } => EventV::Files { cwd: cwd@, files: files.deep_view() },
            Event::DirListing { path, parent, dirs } => EventV::DirListing {
                path: path@,
                parent: parent.deep_view(),
                dirs: dirs.deep_view(),
            },
            Event::ThinkingSet { level } => EventV::ThinkingSet { level: level@ },
            Event::Notice(inner) => EventV::Notice(inner@),
            Event::Backend(inner) => EventV::Backend(inner@),
            Event::UiRequest { id, method, title, message, options, prefill } => EventV::UiRequest {
                id: id@,
                method: method@,
                title: title@,
                message: message.deep_view(),
                options: options.deep_view(),
                prefill: prefill.deep_view(),
            },
            Event::Stats(inner) => EventV::Stats(inner.deep_view()),
            Event::ModelSet { provider, id } => EventV::ModelSet { provider: provider@, id: id@ },
            Event::MsgStart { parts } => EventV::MsgStart { parts: parts.deep_view() },
            Event::Delta { kind, idx, chunk } => EventV::Delta {
                kind: *kind,
                idx: *idx,
                chunk: chunk@,
            },
            Event::AssistantEnd { parts } => EventV::AssistantEnd { parts: parts.deep_view() },
            Event::ToolCallStart { id, name } => EventV::ToolCallStart { id: id@, name: name@ },
            Event::ToolPartial { id, name, output } => EventV::ToolPartial {
                id: id@,
                name: name@,
                output: output@,
            },
            Event::ToolResult { id, name, output, is_error } => EventV::ToolResult {
                id: id@,
                name: name@,
                output: output@,
                is_error: *is_error,
            },
            Event::Queue { steering, follow_up } => EventV::Queue {
                steering: steering.deep_view(),
                follow_up: follow_up.deep_view(),
            },
            Event::Streaming(inner) => EventV::Streaming(*inner),
            Event::StreamError(inner) => EventV::StreamError(inner@),
            Event::SendFailed { message } => EventV::SendFailed { message: message@ },
        }
    }
}

/// What the panel asks of a backend.
#[derive(Debug, PartialEq)]
pub enum Command {
    /// Send a prompt; `queued` attaches it behind the running turn.
    Send {
        session: String,
        message: String,
        image: Option<ImageAttachment>,
        queued: bool,
    },
    /// Follow another session.
    Watch(String),
    /// Drop the connection and connect again.
    Reconnect,
    /// Switch the model of the session.
    SetModel { provider: String, model_id: String },
    /// Set the thinking level of the session.
    SetThinking { level: String },
    /// Create a session in `cwd` and follow it.
    NewSession { cwd: String },
    /// List the sub-directories of `path`.
    Browse { path: String },
    /// Fetch the file index of `cwd`.
    FetchFiles { cwd: String },
    /// Compact the conversation context.
    Compact,
    /// Refresh the session accounting.
    FetchStats,
    /// Answer an extension UI request.
    UiRespond {
        id: String,
        value: Option<String>,
        confirmed: Option<bool>,
        cancelled: bool,
    },
}

/// Model of [`Command`].
pub enum CommandV {
    Send { session: Seq<char>, message: Seq<char>, image: Option<ImageAttachmentV>, queued: bool },
    Watch(Seq<char>),
    Reconnect,
    SetModel { provider: Seq<char>, model_id: Seq<char> },
    SetThinking { level: Seq<char> },
    NewSession { cwd: Seq<char> },
    Browse { path: Seq<char> },
    FetchFiles { cwd: Seq<char> },
    Compact,
    FetchStats,
    UiRespond {
        id: Seq<char>,
        value: Option<Seq<char>>,
        confirmed: Option<bool>,
        cancelled: bool,
    },
}

impl DeepView for Command {
    type V = CommandV;

    open spec fn deep_view(&self) -> CommandV {
        match self {
            Command::Send { session, message, image, queued } => CommandV::Send {
                session: session@,
                message: message@,
                image: image.deep_view(),
                queued: *queued,
            },
            Command::Watch(inner) => CommandV::Watch(inner@),
            Command::Reconnect => CommandV::Reconnect,
            Command::SetModel { provider, model_id } => CommandV::SetModel {
                provider: provider@,
                model_id: model_id@,
            },
            Command::SetThinking { level } => CommandV::SetThinking { level: level@ },
            Command::NewSession { cwd } => CommandV::NewSession { cwd: cwd@ },
            Command::Browse { path } => CommandV::Browse { path: path@ },
            Command::FetchFiles { cwd } => CommandV::FetchFiles { cwd: cwd@ },
            Command::Compact => CommandV::Compact,
            Command::FetchStats => CommandV::FetchStats,
            Command::UiRespond { id, value, confirmed, cancelled } => CommandV::UiRespond {
                id: id@,
                value: value.deep_view(),
                confirmed: *confirmed,
                cancelled: *cancelled,
            },
        }
    }
}

} // verus!
