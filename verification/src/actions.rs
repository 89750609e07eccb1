//! What the user does with the panel.

use vstd::prelude::*;

use crate::attach::{Staged, StagedV};
use crate::panel::{
    entry_at, ids_needed, lemma_applied_ids, BrowseState, BrowseStateV, PanelV, PiEntryKind,
    PiEntryKindV, PiPanelState, PiStatus, PiStatusV, Start, StartV, StreamingMsg,
};
use crate::popup::{insert_file, insert_paste, with_file, with_paste, Popup, PopupV};
use crate::protocol::{Command, CommandV, Event, EventV};
use crate::text::{decimal, decimal_text, same, trim, trimmed};

verus! {

broadcast use {crate::model::group_views, vstd::std_specs::hash::group_hash_axioms};

/// How many events one drain of the worker's channel takes.
pub const POLL_BUDGET: usize = 512;

/// What the user does.
#[derive(Debug, PartialEq)]
pub enum PiMsg {
    /// The composer was edited; these are its text and its caret now.
    Editor { text: String, caret: (usize, usize) },
    /// Send the composer text.
    Send,
    /// Switch the followed session.
    SessionPick(String),
    /// Expand or collapse an entry.
    ToggleEntry(u64),
    /// Connect, or drop the connection and connect anew.
    Reconnect,
    /// Paste from the clipboard.
    Paste,
    /// Drop the attached image.
    ClearImage,
    /// Switch the model.
    ModelPick { provider: String, id: String },
    /// Switch the thinking level.
    ThinkingPick(String),
    /// Switch the backend.
    BackendPick(String),
    MenuUp,
    MenuDown,
    MenuAccept,
    MenuClose,
    /// Open the new-session browser.
    NewSessionOpen,
    NewSessionCancel,
    /// Browse into a directory.
    DirOpen(String),
    /// Browse to the parent directory.
    DirUp,
    /// Create a session in the browsed directory.
    CreateSession,
    /// Answer an extension question with an option or a confirmation.
    UiAnswer { value: Option<String>, confirmed: Option<bool> },
    /// Dismiss an extension question.
    UiCancel,
    /// The free-text answer was edited; this is its text now.
    UiEdit(String),
    /// Submit the free-text answer.
    UiSubmit,
    /// Compact the conversation context.
    Compact,
}

/// Model of [`PiMsg`].
#[allow(inconsistent_fields)]
pub enum PiMsgV {
    Editor { text: Seq<char>, caret: (usize, usize) },
    Send,
    SessionPick(Seq<char>),
    ToggleEntry(u64),
    Reconnect,
    Paste,
    ClearImage,
    ModelPick { provider: Seq<char>, id: Seq<char> },
    ThinkingPick(Seq<char>),
    BackendPick(Seq<char>),
    MenuUp,
    MenuDown,
    MenuAccept,
    MenuClose,
    NewSessionOpen,
    NewSessionCancel,
    DirOpen(Seq<char>),
    DirUp,
    CreateSession,
    UiAnswer { value: Option<Seq<char>>, confirmed: Option<bool> },
    UiCancel,
    UiEdit(Seq<char>),
    UiSubmit,
    Compact,
}

impl DeepView for PiMsg {
    type V = PiMsgV;

    open spec fn deep_view(&self) -> PiMsgV {
        match self {
            PiMsg::Editor { text, caret } => PiMsgV::Editor { text: text@, caret: *caret },
            PiMsg::Send => PiMsgV::Send,
            PiMsg::SessionPick(id) => PiMsgV::SessionPick(id@),
            PiMsg::ToggleEntry(id) => PiMsgV::ToggleEntry(*id),
            PiMsg::Reconnect => PiMsgV::Reconnect,
            PiMsg::Paste => PiMsgV::Paste,
            PiMsg::ClearImage => PiMsgV::ClearImage,
            PiMsg::ModelPick { provider, id } => PiMsgV::ModelPick { provider: provider@, id: id@ },
            PiMsg::ThinkingPick(level) => PiMsgV::ThinkingPick(level@),
            PiMsg::BackendPick(mode) => PiMsgV::BackendPick(mode@),
            PiMsg::MenuUp => PiMsgV::MenuUp,
            PiMsg::MenuDown => PiMsgV::MenuDown,
            PiMsg::MenuAccept => PiMsgV::MenuAccept,
            PiMsg::MenuClose => PiMsgV::MenuClose,
            PiMsg::NewSessionOpen => PiMsgV::NewSessionOpen,
            PiMsg::NewSessionCancel => PiMsgV::NewSessionCancel,
            PiMsg::DirOpen(path) => PiMsgV::DirOpen(path@),
            PiMsg::DirUp => PiMsgV::DirUp,
            PiMsg::CreateSession => PiMsgV::CreateSession,
            PiMsg::UiAnswer { value, confirmed } => PiMsgV::UiAnswer {
                value: value.deep_view(),
                confirmed: *confirmed,
            },
            PiMsg::UiCancel => PiMsgV::UiCancel,
            PiMsg::UiEdit(t) => PiMsgV::UiEdit(t@),
            PiMsg::UiSubmit => PiMsgV::UiSubmit,
            PiMsg::Compact => PiMsgV::Compact,
        }
    }
}

/// What is left to do outside the panel.
#[derive(Debug, PartialEq)]
pub enum Effect {
    Nothing,
    /// Scroll the transcript to its end.
    ScrollToEnd,
    /// Read the clipboard: an image first, else text.
    ReadClipboard,
    /// Start a worker.
    StartWorker(Start),
    /// Remember the mode, stop the worker and start another one.
    SwitchWorker { mode: String, start: Start },
}

/// Model of [`Effect`].
pub enum EffectV {
    Nothing,
    ScrollToEnd,
    ReadClipboard,
    StartWorker(StartV),
    SwitchWorker { mode: Seq<char>, start: StartV },
}

impl DeepView for Effect {
    type V = EffectV;

    open spec fn deep_view(&self) -> EffectV {
        match self {
            Effect::Nothing => EffectV::Nothing,
            Effect::ScrollToEnd => EffectV::ScrollToEnd,
            Effect::ReadClipboard => EffectV::ReadClipboard,
            Effect::StartWorker(s) => EffectV::StartWorker(s.deep_view()),
            Effect::SwitchWorker { mode, start } => EffectV::SwitchWorker {
                mode: mode@,
                start: start.deep_view(),
            },
        }
    }
}

impl PanelV {
    /// The worker that the mode asks for.
    pub open spec fn start(self) -> StartV {
        if self.mode == "web"@ {
            StartV::Web { endpoint: self.endpoint }
        } else if self.mode == "rpc"@ {
            StartV::Rpc { bin: self.pi_bin, cwd: self.project_cwd }
        } else {
            StartV::Auto { endpoint: self.endpoint, bin: self.pi_bin, cwd: self.project_cwd }
        }
    }

    /// Without everything that came from the worker.
    pub open spec fn forgotten(self) -> PanelV {
        PanelV {
            status: PiStatusV::Idle,
            backend: Seq::empty(),
            sessions: Seq::empty(),
            active: None,
            entries: Seq::empty(),
            streaming: Seq::empty(),
            pending_echoes: Seq::empty(),
            queued_followups: None,
            models: Seq::empty(),
            current_model: None,
            thinking_levels: Seq::empty(),
            current_thinking: None,
            commands: Seq::empty(),
            files: None,
            files_requested: None,
            popup: None,
            browse: None,
            pending_ui: None,
            stats: None,
            ..self
        }
    }

    /// After the composer's content was sent, and whether there was any.
    pub open spec fn after_send(self) -> (PanelV, bool) {
        let message = trimmed(self.input);
        if message.len() == 0 && self.pending_image is None {
            (self, false)
        } else {
            let p = (PanelV {
                pending_echoes: self.pending_echoes.push(message),
                pending_image: None,
                pending_image_size: None,
                input: Seq::empty(),
                caret: (0, 0),
                ..self
            }).pushed(PiEntryKindV::User(message));
            (
                p.sent(
                    CommandV::Send {
                        session: match self.active {
                            Some(id) => id,
                            None => Seq::empty(),
                        },
                        message,
                        image: self.pending_image,
                        queued: self.is_streaming(),
                    },
                ),
                true,
            )
        }
    }

    /// After the user picked another session: the view is cleared until its
    /// history arrives.
    pub open spec fn watching(self, id: Seq<char>) -> PanelV {
        (PanelV {
            active: Some(id),
            entries: Seq::empty(),
            streaming: Seq::empty(),
            pending_echoes: Seq::empty(),
            queued_followups: None,
            status: PiStatusV::Connecting,
            ..self
        }).sent(CommandV::Watch(id))
    }

    /// After the highlight of the popup moved.
    pub open spec fn menu_moved(self, delta: int) -> PanelV {
        PanelV {
            popup: match self.popup {
                Some(p) => Some(p.moved(delta)),
                None => None,
            },
            ..self
        }
    }

    /// After the highlighted item was accepted: a command fills the composer, and a
    /// file goes in at the caret, for the word that asked for it if the caret is there.
    pub open spec fn accepted(self) -> PanelV {
        let closed = PanelV { popup: None, ..self };
        match self.popup {
            Some(PopupV::Slash { matches, active, .. }) => if active < matches.len()
                && matches[active as int] < self.commands.len() {
                PanelV {
                    input: "/"@ + self.commands[matches[active as int] as int].name + " "@,
                    caret: (0, 0),
                    ..closed
                }
            } else {
                closed
            },
            Some(PopupV::At { matches, active, .. }) => if active < matches.len() {
                let (input, caret) = with_file(self.input, self.caret, matches[active as int]);
                (PanelV { input, caret, ..closed }).refreshed()
            } else {
                closed
            },
            None => closed,
        }
    }

    /// After the directory browser was opened, at the session's directory.
    pub open spec fn browsing(self) -> PanelV {
        let start = match self.active_cwd() {
            Some(cwd) => cwd,
            None => match self.home {
                Some(h) => h,
                None => "/"@,
            },
        };
        (PanelV {
            browse: Some(
                BrowseStateV { path: start, parent: None, dirs: Seq::empty(), loading: true },
            ),
            ..self
        }).sent(CommandV::Browse { path: start })
    }

    /// After the browser moved to `path`, or to the parent directory.
    pub open spec fn browsing_to(self, path: Option<Seq<char>>) -> PanelV {
        match self.browse {
            Some(b) => {
                let target = match path {
                    Some(p) => Some(p),
                    None => b.parent,
                };
                match target {
                    Some(t) => (PanelV {
                        browse: Some(
                            BrowseStateV { path: t, dirs: Seq::empty(), loading: true, ..b },
                        ),
                        ..self
                    }).sent(CommandV::Browse { path: t }),
                    None => self,
                }
            },
            None => self,
        }
    }

    /// After a session was asked for in the browsed directory.
    pub open spec fn creating(self) -> PanelV {
        match self.browse {
            Some(b) => (PanelV { browse: None, status: PiStatusV::Connecting, ..self }).sent(
                CommandV::NewSession { cwd: b.path },
            ),
            None => self,
        }
    }

    /// After an entry, or else a live block, was expanded or collapsed.
    pub open spec fn toggled(self, id: u64) -> PanelV {
        let at = entry_at(self.entries, id);
        if 0 <= at < self.entries.len() {
            let e = self.entries[at];
            PanelV {
                entries: self.entries.update(
                    at,
                    crate::panel::PiEntryV { expanded: !e.expanded, ..e },
                ),
                ..self
            }
        } else if self.live_expanded.contains(id) {
            PanelV { live_expanded: self.live_expanded.remove(id), ..self }
        } else {
            PanelV { live_expanded: self.live_expanded.insert(id), ..self }
        }
    }

    /// After the pending extension question was answered.
    pub open spec fn answered(
        self,
        value: Option<Seq<char>>,
        confirmed: Option<bool>,
        cancelled: bool,
    ) -> PanelV {
        match self.pending_ui {
            Some(q) => (PanelV { pending_ui: None, ..self }).sent(
                CommandV::UiRespond { id: q.id, value, confirmed, cancelled },
            ),
            None => self,
        }
    }

    /// After a text was pasted into the composer.
    pub open spec fn after_text(self, text: Seq<char>) -> PanelV {
        let (input, caret) = with_paste(self.input, self.caret, text);
        PanelV { input, caret, ..self }
    }

    /// After a pasted image was prepared: it is attached, or the reason why not
    /// is shown.
    pub open spec fn after_paste(self, staged: StagedV) -> PanelV {
        match staged {
            StagedV::Image { image, width, height } => PanelV {
                pending_image: Some(image),
                pending_image_size: Some((width, height)),
                ..self
            },
            StagedV::Failed(why) => self.pushed(PiEntryKindV::Notice("粘贴图片失败："@ + why)),
        }
    }

    /// What the user's doing leads to.
    pub open spec fn handled(self, msg: PiMsgV) -> (PanelV, EffectV) {
        match msg {
            PiMsgV::Editor { text, caret } => (
                (PanelV { input: text, caret, ..self }).refreshed(),
                EffectV::Nothing,
            ),
            PiMsgV::Send => {
                let (p, changed) = self.after_send();
                (
                    p,
                    if changed {
                        EffectV::ScrollToEnd
                    } else {
                        EffectV::Nothing
                    },
                )
            },
            PiMsgV::SessionPick(id) => (
                (PanelV { worker: true, ..self }).watching(id),
                if self.worker {
                    EffectV::Nothing
                } else {
                    EffectV::StartWorker(self.start())
                },
            ),
            PiMsgV::ToggleEntry(id) => (self.toggled(id), EffectV::Nothing),
            PiMsgV::Reconnect => if self.worker {
                (
                    PanelV {
                        status: PiStatusV::Connecting,
                        ..self.sent(CommandV::Reconnect)
                    },
                    EffectV::Nothing,
                )
            } else {
                (
                    PanelV { worker: true, status: PiStatusV::Connecting, ..self },
                    EffectV::StartWorker(self.start()),
                )
            },
            PiMsgV::Paste => (self, EffectV::ReadClipboard),
            PiMsgV::ClearImage => (
                PanelV { pending_image: None, pending_image_size: None, ..self },
                EffectV::Nothing,
            ),
            PiMsgV::ModelPick { provider, id } => (
                if self.active is Some {
                    self.sent(CommandV::SetModel { provider, model_id: id })
                } else {
                    self
                },
                EffectV::Nothing,
            ),
            PiMsgV::ThinkingPick(level) => (
                if self.active is Some {
                    (PanelV { current_thinking: Some(level), ..self }).sent(
                        CommandV::SetThinking { level },
                    )
                } else {
                    self
                },
                EffectV::Nothing,
            ),
            PiMsgV::BackendPick(mode) => if self.mode == mode {
                (self, EffectV::Nothing)
            } else {
                let p = (PanelV { mode, worker: true, outbox: Seq::empty(), ..self }).forgotten();
                (
                    PanelV { status: PiStatusV::Connecting, ..p },
                    EffectV::SwitchWorker { mode, start: p.start() },
                )
            },
            PiMsgV::MenuUp => (self.menu_moved(-1), EffectV::Nothing),
            PiMsgV::MenuDown => (self.menu_moved(1), EffectV::Nothing),
            PiMsgV::MenuAccept => (self.accepted(), EffectV::Nothing),
            PiMsgV::MenuClose => (PanelV { popup: None, ..self }, EffectV::Nothing),
            PiMsgV::NewSessionOpen => (self.browsing(), EffectV::Nothing),
            PiMsgV::NewSessionCancel => (PanelV { browse: None, ..self }, EffectV::Nothing),
            PiMsgV::DirOpen(path) => (self.browsing_to(Some(path)), EffectV::Nothing),
            PiMsgV::DirUp => (self.browsing_to(None), EffectV::Nothing),
            PiMsgV::CreateSession => (self.creating(), EffectV::Nothing),
            PiMsgV::UiAnswer { value, confirmed } => (
                self.answered(value, confirmed, false),
                EffectV::Nothing,
            ),
            PiMsgV::UiCancel => (self.answered(None, None, true), EffectV::Nothing),
            PiMsgV::UiEdit(text) => (PanelV { ui_answer: text, ..self }, EffectV::Nothing),
            PiMsgV::UiSubmit => (
                self.answered(Some(trimmed(self.ui_answer)), None, false),
                EffectV::Nothing,
            ),
            PiMsgV::Compact => (
                if self.active is Some {
                    self.sent(CommandV::Compact)
                } else {
                    self
                },
                EffectV::Nothing,
            ),
        }
    }

    /// How many live entry ids the user's doing may take.
    pub open spec fn ids_for_msg(msg: PiMsgV) -> nat {
        match msg {
            PiMsgV::Send => 1,
            _ => 0,
        }
    }
}

/// After a list of events, and whether the transcript changed.
pub open spec fn applied_all(p: PanelV, events: Seq<EventV>) -> (PanelV, bool)
    decreases events.len(),
{
    if events.len() == 0 {
        (p, false)
    } else {
        let (before, changed) = applied_all(p, events.drop_last());
        let (after, more) = before.applied(events.last());
        (after, changed || more)
    }
}

/// How many live entry ids a list of events may take.
pub open spec fn ids_for_all(events: Seq<EventV>) -> nat
    decreases events.len(),
{
    if events.len() == 0 {
        0
    } else {
        ids_for_all(events.drop_last()) + PanelV::ids_for(events.last())
    }
}

/// Events of a prefix take no more ids than all of them.
proof fn lemma_ids_for_prefix(events: Seq<EventV>, n: int)
    requires
        0 <= n <= events.len(),
    ensures
        ids_for_all(events.take(n)) <= ids_for_all(events),
    decreases events.len() - n,
{
    if n < events.len() {
        lemma_ids_for_prefix(events, n + 1);
        assert(events.take(n + 1).drop_last() =~= events.take(n));
    } else {
        assert(events.take(n) =~= events);
    }
}

fn empty_text() -> (out: String)
    ensures
        out@ == Seq::<char>::empty(),
{
    let out = String::new();
    assert(out@ =~= Seq::empty());
    out
}

impl PiPanelState {
    /// The worker that the mode asks for.
    fn start(&self) -> (out: Start)
        ensures
            out.deep_view() == self.deep_view().start(),
    {
        if same(self.mode.as_str(), "web") {
            Start::Web { endpoint: self.endpoint.clone() }
        } else if same(self.mode.as_str(), "rpc") {
            Start::Rpc { bin: self.pi_bin.clone(), cwd: self.project_cwd.clone() }
        } else {
            Start::Auto {
                endpoint: self.endpoint.clone(),
                bin: self.pi_bin.clone(),
                cwd: self.project_cwd.clone(),
            }
        }
    }

    /// Counts on a worker from now on; says which one to start if none runs.
    pub fn ensure_worker(&mut self) -> (out: Option<Start>)
        ensures
            out.deep_view() == (if old(self).worker {
                None
            } else {
                Some(old(self).deep_view().start())
            }),
            final(self).deep_view() == (PanelV { worker: true, ..old(self).deep_view() }),
    {
        if self.worker {
            None
        } else {
            let start = self.start();
            self.worker = true;
            Some(start)
        }
    }

    /// Counts on no worker from now on. What was meant for it is dropped.
    pub fn stop_worker(&mut self)
        ensures
            final(self).deep_view() == (PanelV {
                worker: false,
                outbox: Seq::empty(),
                ..old(self).deep_view()
            }),
    {
        self.worker = false;
        self.outbox = Vec::new();
    }

    /// Forgets everything that came from the worker: it belongs to the backend
    /// that produced it.
    pub fn reset_for_backend_switch(&mut self)
        ensures
            final(self).deep_view() == old(self).deep_view().forgotten(),
    {
        self.status = PiStatus::Idle;
        self.backend = empty_text();
        self.sessions = Vec::new();
        self.active = None;
        self.entries = Vec::new();
        self.streaming = StreamingMsg { blocks: Vec::new() };
        self.pending_echoes = Vec::new();
        self.queued_followups = None;
        self.models = Vec::new();
        self.current_model = None;
        self.thinking_levels = Vec::new();
        self.current_thinking = None;
        self.commands = Vec::new();
        self.files = None;
        self.files_requested = None;
        self.popup = None;
        self.browse = None;
        self.pending_ui = None;
        self.stats = None;
    }

    /// Sends the composer's content: the message is shown at once and handed to
    /// the worker. Says whether there was any.
    pub fn send_current(&mut self) -> (changed: bool)
        requires
            old(self).deep_view().has_ids(1),
        ensures
            (final(self).deep_view(), changed) == old(self).deep_view().after_send(),
    {
        let message = trim(self.input.as_str());
        if message.as_str().is_empty() && self.pending_image.is_none() {
            return false;
        }
        let image = self.pending_image.take();
        let session = match &self.active {
            Some(id) => id.clone(),
            None => empty_text(),
        };
        let queued = self.is_streaming();
        self.pending_echoes.push(message.clone());
        self.pending_image_size = None;
        self.input = empty_text();
        self.caret = (0, 0);
        let _: u64 = self.push_kind(PiEntryKind::User(message.clone()));
        self.send_command(Command::Send { session, message, image, queued });
        true
    }

    /// Switches the followed session; its history refills the view.
    pub fn watch_session(&mut self, id: String)
        ensures
            final(self).deep_view() == old(self).deep_view().watching(id@),
    {
        self.active = Some(id.clone());
        self.entries = Vec::new();
        self.streaming = StreamingMsg { blocks: Vec::new() };
        self.pending_echoes = Vec::new();
        self.queued_followups = None;
        self.status = PiStatus::Connecting;
        self.send_command(Command::Watch(id));
    }

    /// Moves the highlight of the popup.
    pub fn menu_move(&mut self, delta: isize)
        ensures
            final(self).deep_view() == old(self).deep_view().menu_moved(delta as int),
    {
        if let Some(popup) = self.popup.take() {
            let mut p = popup;
            p.move_active(delta);
            self.popup = Some(p);
        }
    }

    /// Accepts the highlighted item: `/name ` fills the composer, `@path ` is
    /// inserted at the caret. The word that asked for it gives way if the caret is
    /// in it or behind it.
    pub fn menu_accept(&mut self)
        ensures
            final(self).deep_view() == old(self).deep_view().accepted(),
    {
        let ghost p = self.deep_view();
        let popup = match self.popup.take() {
            Some(popup) => popup,
            None => {
                return ;
            },
        };
        match popup {
            Popup::Slash { matches, active, .. } => {
                if active < matches.len() {
                    let at: usize = matches[active];
                    if at < self.commands.len() {
                        assert(p.commands[at as int] == self.commands@[at as int].deep_view());
                        let mut text = "/".to_owned();
                        text.append(self.commands[at].name.as_str());
                        text.append(" ");
                        self.input = text;
                        self.caret = (0, 0);
                    }
                }
            },
            Popup::At { matches, active, .. } => {
                if active < matches.len() {
                    let ghost paths = matches.deep_view();
                    assert(paths[active as int] == matches@[active as int]@);
                    let (input, caret) = insert_file(
                        self.input.as_str(),
                        self.caret,
                        matches[active].as_str(),
                    );
                    self.input = input;
                    self.caret = caret;
                    self.refresh_popup();
                }
            },
        }
    }

    /// Dismisses the popup.
    pub fn menu_close(&mut self)
        ensures
            final(self).deep_view() == (PanelV { popup: None, ..old(self).deep_view() }),
    {
        self.popup = None;
    }

    /// Opens the new-session browser at the session's directory, else at home.
    pub fn open_browse(&mut self)
        ensures
            final(self).deep_view() == old(self).deep_view().browsing(),
    {
        let start = match self.active_cwd() {
            Some(cwd) => cwd,
            None => match &self.home {
                Some(h) => h.clone(),
                None => "/".to_owned(),
            },
        };
        self.browse = Some(
            BrowseState { path: start.clone(), parent: None, dirs: Vec::new(), loading: true },
        );
        self.send_command(Command::Browse { path: start });
    }

    /// Browses to `path`, or to the parent directory.
    pub fn browse_to(&mut self, path: Option<String>)
        ensures
            final(self).deep_view() == old(self).deep_view().browsing_to(path.deep_view()),
    {
        let b = match self.browse.take() {
            Some(b) => b,
            None => {
                return ;
            },
        };
        let target = match path {
            Some(p) => p,
            None => match &b.parent {
                Some(p) => p.clone(),
                None => {
                    self.browse = Some(b);
                    return ;
                },
            },
        };
        self.browse = Some(
            BrowseState {
                path: target.clone(),
                parent: b.parent,
                dirs: Vec::new(),
                loading: true,
            },
        );
        self.send_command(Command::Browse { path: target });
    }

    /// Asks for a session in the browsed directory and closes the browser.
    pub fn create_session(&mut self)
        ensures
            final(self).deep_view() == old(self).deep_view().creating(),
    {
        if let Some(b) = self.browse.take() {
            self.status = PiStatus::Connecting;
            self.send_command(Command::NewSession { cwd: b.path });
        }
    }

    /// Expands or collapses an entry, or else a live block.
    pub fn toggle_entry(&mut self, id: u64)
        ensures
            final(self).deep_view() == old(self).deep_view().toggled(id),
    {
        let ghost p = self.deep_view();
        let mut i: usize = 0;
        assert(p.entries.skip(0) =~= p.entries);
        while i < self.entries.len()
            invariant
                i <= self.entries@.len(),
                p == self.deep_view(),
                p == old(self).deep_view(),
                entry_at(p.entries, id) == i + entry_at(p.entries.skip(i as int), id),
            decreases self.entries@.len() - i,
        {
            assert(p.entries.skip(i as int)[0] == self.entries@[i as int].deep_view());
            if self.entries[i].id == id {
                let e = self.entries.remove(i);
                let flipped = crate::panel::PiEntry {
                    id: e.id,
                    kind: e.kind,
                    expanded: !e.expanded,
                };
                self.entries.insert(i, flipped);
                assert(self.entries.deep_view() =~= p.toggled(id).entries);
                return ;
            }
            assert(p.entries.skip(i as int).drop_first() =~= p.entries.skip(i + 1));
            i += 1;
        }
        if self.live_expanded.contains(&id) {
            let _ = self.live_expanded.remove(&id);
        } else {
            let _ = self.live_expanded.insert(id);
        }
    }

    fn answer(&mut self, value: Option<String>, confirmed: Option<bool>, cancelled: bool)
        ensures
            final(self).deep_view() == old(self).deep_view().answered(
                value.deep_view(),
                confirmed,
                cancelled,
            ),
    {
        if let Some(q) = self.pending_ui.take() {
            self.send_command(Command::UiRespond { id: q.id, value, confirmed, cancelled });
        }
    }

    /// Inserts a pasted text at the caret, in place of what is selected. The popup
    /// stays as it is.
    pub fn text_pasted(&mut self, text: &str)
        ensures
            final(self).deep_view() == old(self).deep_view().after_text(text@),
    {
        let (input, caret) = insert_paste(self.input.as_str(), self.caret, text);
        self.input = input;
        self.caret = caret;
    }

    /// Attaches a pasted image, or shows why it cannot be.
    pub fn image_pasted(&mut self, staged: Staged)
        requires
            staged is Failed ==> old(self).deep_view().has_ids(1),
        ensures
            final(self).deep_view() == old(self).deep_view().after_paste(staged.deep_view()),
    {
        match staged {
            Staged::Image { image, width, height } => {
                self.pending_image = Some(image);
                self.pending_image_size = Some((width, height));
            },
            Staged::Failed(why) => {
                let mut text = "粘贴图片失败：".to_owned();
                text.append(why.as_str());
                self.push_notice(text);
            },
        }
    }

    /// Handles what the user does, and says what is left to do outside.
    pub fn on_pi_msg(&mut self, msg: PiMsg) -> (out: Effect)
        requires
            old(self).deep_view().has_ids(PanelV::ids_for_msg(msg.deep_view())),
        ensures
            (final(self).deep_view(), out.deep_view()) == old(self).deep_view().handled(
                msg.deep_view(),
            ),
    {
        match msg {
            PiMsg::Editor { text, caret } => {
                self.input = text;
                self.caret = caret;
                self.refresh_popup();
                Effect::Nothing
            },
            PiMsg::Send => if self.send_current() {
                Effect::ScrollToEnd
            } else {
                Effect::Nothing
            },
            PiMsg::SessionPick(id) => {
                let start = self.ensure_worker();
                self.watch_session(id);
                match start {
                    Some(s) => Effect::StartWorker(s),
                    None => Effect::Nothing,
                }
            },
            PiMsg::ToggleEntry(id) => {
                self.toggle_entry(id);
                Effect::Nothing
            },
            PiMsg::Reconnect => {
                match self.ensure_worker() {
                    Some(s) => {
                        self.status = PiStatus::Connecting;
                        Effect::StartWorker(s)
                    },
                    None => {
                        self.send_command(Command::Reconnect);
                        self.status = PiStatus::Connecting;
                        Effect::Nothing
                    },
                }
            },
            PiMsg::Paste => Effect::ReadClipboard,
            PiMsg::ClearImage => {
                self.pending_image = None;
                self.pending_image_size = None;
                Effect::Nothing
            },
            PiMsg::ModelPick { provider, id } => {
                if self.active.is_some() {
                    self.send_command(Command::SetModel { provider, model_id: id });
                }
                Effect::Nothing
            },
            PiMsg::ThinkingPick(level) => {
                if self.active.is_some() {
                    self.current_thinking = Some(level.clone());
                    self.send_command(Command::SetThinking { level });
                }
                Effect::Nothing
            },
            PiMsg::BackendPick(mode) => {
                if same(self.mode.as_str(), mode.as_str()) {
                    return Effect::Nothing;
                }
                self.mode = mode.clone();
                self.stop_worker();
                self.reset_for_backend_switch();
                let start = self.start();
                self.worker = true;
                self.status = PiStatus::Connecting;
                Effect::SwitchWorker { mode, start }
            },
            PiMsg::MenuUp => {
                self.menu_move(-1);
                Effect::Nothing
            },
            PiMsg::MenuDown => {
                self.menu_move(1);
                Effect::Nothing
            },
            PiMsg::MenuAccept => {
                self.menu_accept();
                Effect::Nothing
            },
            PiMsg::MenuClose => {
                self.menu_close();
                Effect::Nothing
            },
            PiMsg::NewSessionOpen => {
                self.open_browse();
                Effect::Nothing
            },
            PiMsg::NewSessionCancel => {
                self.browse = None;
                Effect::Nothing
            },
            PiMsg::DirOpen(path) => {
                self.browse_to(Some(path));
                Effect::Nothing
            },
            PiMsg::DirUp => {
                self.browse_to(None);
                Effect::Nothing
            },
            PiMsg::CreateSession => {
                self.create_session();
                Effect::Nothing
            },
            PiMsg::UiAnswer { value, confirmed } => {
                self.answer(value, confirmed, false);
                Effect::Nothing
            },
            PiMsg::UiCancel => {
                self.answer(None, None, true);
                Effect::Nothing
            },
            PiMsg::UiEdit(text) => {
                self.ui_answer = text;
                Effect::Nothing
            },
            PiMsg::UiSubmit => {
                let value = trim(self.ui_answer.as_str());
                self.answer(Some(value), None, false);
                Effect::Nothing
            },
            PiMsg::Compact => {
                if self.active.is_some() {
                    self.send_command(Command::Compact);
                }
                Effect::Nothing
            },
        }
    }

    /// Whether there are ids left for what all of `events` bring.
    pub fn can_poll(&self, events: &Vec<Event>) -> (r: bool)
        ensures
            r == self.deep_view().has_ids(ids_for_all(events.deep_view())),
    {
        let ghost all = events.deep_view();
        assert(all.len() == events@.len());
        assert(all.take(0) =~= Seq::empty());
        let mut needed: u128 = 0;
        let mut i: usize = 0;
        while i < events.len()
            invariant
                i <= events@.len(),
                all == events.deep_view(),
                all.len() == events@.len(),
                needed == ids_for_all(all.take(i as int)),
                needed <= i * 0xffff_ffff_ffff_ffff,
            decreases events@.len() - i,
        {
            assert(all.take(i + 1).drop_last() =~= all.take(i as int));
            assert(all.take(i + 1).last() == events@[i as int].deep_view());
            assert(i * 0xffff_ffff_ffff_ffff <= 0xffff_ffff_ffff_ffff * 0xffff_ffff_ffff_ffff);
            needed = needed + ids_needed(&events[i]) as u128;
            i += 1;
        }
        assert(all.take(i as int) =~= all);
        needed <= u64::MAX as u128 && self.has_spare_ids(needed as u64)
    }

    /// Folds a list of events into the state. Says whether the transcript changed.
    pub fn poll(&mut self, events: Vec<Event>) -> (changed: bool)
        requires
            old(self).deep_view().has_ids(ids_for_all(events.deep_view())),
        ensures
            (final(self).deep_view(), changed) == applied_all(
                old(self).deep_view(),
                events.deep_view(),
            ),
    {
        let ghost all = events.deep_view();
        let ghost start = self.deep_view();
        assert(all.take(0) =~= Seq::empty());
        let mut changed = false;
        for ev in it: events
            invariant
                it.seq() == events@,
                all == events.deep_view(),
                start == old(self).deep_view(),
                start.has_ids(ids_for_all(all)),
                self.deep_view().next_id <= start.next_id + ids_for_all(
                    all.take(it.index() as int),
                ),
                (self.deep_view(), changed) == applied_all(start, all.take(it.index() as int)),
        {
            let ghost p = self.deep_view();
            proof {
                assert(all.len() == events@.len());
                assert(all.take(it.index() + 1).drop_last() =~= all.take(it.index() as int));
                assert(all.take(it.index() + 1).last() == ev.deep_view());
                lemma_ids_for_prefix(all, it.index() + 1);
                lemma_applied_ids(p, ev.deep_view());
            }
            if self.apply(ev) {
                changed = true;
            }
        }
        assert(all.take(all.len() as int) =~= all);
        changed
    }

    /// Whether the canvas selection changed since its summary was made.
    pub fn selection_changed(&self, fingerprint: u64) -> (r: bool)
        ensures
            r == (fingerprint != self.selection_fingerprint),
    {
        fingerprint != self.selection_fingerprint
    }

    /// Takes in the summary of a new canvas selection.
    pub fn set_selection(&mut self, fingerprint: u64, label: String)
        ensures
            final(self).deep_view() == (PanelV {
                selection_fingerprint: fingerprint,
                selection_label: label@,
                ..old(self).deep_view()
            }),
    {
        self.selection_fingerprint = fingerprint;
        self.selection_label = label;
    }
}

/// Whether all of `kinds` are alike.
pub open spec fn one_kind(kinds: Seq<Seq<char>>) -> bool {
    forall|i: int| 0 <= i < kinds.len() ==> #[trigger] kinds[i] == kinds[0]
}

/// The summary of a selection of these kinds: the name of the kind, or of
/// everything, and how many.
pub open spec fn selection_text(
    kinds: Seq<Seq<char>>,
    kind_name: Seq<char>,
    all_name: Seq<char>,
) -> Seq<char> {
    if kinds.len() == 0 {
        Seq::empty()
    } else {
        (if one_kind(kinds) {
            kind_name
        } else {
            all_name
        }) + "（"@ + decimal(kinds.len()) + "）"@
    }
}

/// The summary of a selection. `kind_name` is the shown name of the first kind,
/// `all_name` the one for a mixed selection.
pub fn selection_label(kinds: &Vec<String>, kind_name: &str, all_name: &str) -> (out: String)
    ensures
        out@ == selection_text(kinds.deep_view(), kind_name@, all_name@),
{
    let ghost all = kinds.deep_view();
    assert(all.len() == kinds@.len());
    if kinds.len() == 0 {
        return empty_text();
    }
    let mut alike = true;
    let mut i: usize = 0;
    assert(all[0] == kinds@[0]@);
    while i < kinds.len()
        invariant
            i <= kinds@.len(),
            kinds@.len() > 0,
            all == kinds.deep_view(),
            all[0] == kinds@[0]@,
            alike == forall|k: int| 0 <= k < i ==> #[trigger] all[k] == all[0],
        decreases kinds@.len() - i,
    {
        assert(all[i as int] == kinds@[i as int]@);
        if !same(kinds[i].as_str(), kinds[0].as_str()) {
            alike = false;
        }
        i += 1;
    }
    let mut out = if alike {
        kind_name.to_owned()
    } else {
        all_name.to_owned()
    };
    out.append("（");
    out.append(decimal_text(kinds.len() as u64).as_str());
    out.append("）");
    out
}

// ── Laws ────────────────────────────────────────────────────────────────────

/// A sent message goes to the session that is followed, with its text and its image, and
/// is queued while a run is streaming. A blank composer without an image sends nothing.
pub proof fn law_send_hands_over_everything(p: PanelV)
    ensures
        trimmed(p.input).len() == 0 && p.pending_image is None ==> p.handled(PiMsgV::Send) == (
            p,
            EffectV::Nothing,
        ),
        trimmed(p.input).len() > 0 || p.pending_image is Some ==> {
            let (q, effect) = p.handled(PiMsgV::Send);
            &&& effect is ScrollToEnd
            &&& p.worker ==> q.outbox.len() == p.outbox.len() + 1 && q.outbox.drop_last()
                == p.outbox
            &&& p.worker ==> (q.outbox.last() matches CommandV::Send {
                session,
                message,
                image,
                queued,
            } && message == trimmed(p.input) && image == p.pending_image && queued
                == p.is_streaming() && (p.active matches Some(id) ==> session == id))
            &&& !p.worker ==> q.outbox == p.outbox
            &&& q.pending_image is None
            &&& q.pending_image_size is None
        },
{
    let q = p.handled(PiMsgV::Send).0;
    if q.outbox.len() == p.outbox.len() + 1 {
        assert(q.outbox.drop_last() =~= p.outbox);
    }
}

/// Picking a model or a level, and compacting, asks the session that is followed for
/// exactly that; without one nothing happens.
pub proof fn law_picks_are_asked_for(
    p: PanelV,
    provider: Seq<char>,
    id: Seq<char>,
    level: Seq<char>,
)
    requires
        p.worker,
    ensures
        p.active is None ==> p.handled(PiMsgV::ModelPick { provider, id }).0 == p && p.handled(
            PiMsgV::ThinkingPick(level),
        ).0 == p && p.handled(PiMsgV::Compact).0 == p,
        p.active is Some ==> {
            &&& p.handled(PiMsgV::ModelPick { provider, id }).0 == (PanelV {
                outbox: p.outbox.push(CommandV::SetModel { provider, model_id: id }),
                ..p
            })
            &&& p.handled(PiMsgV::ThinkingPick(level)).0 == (PanelV {
                outbox: p.outbox.push(CommandV::SetThinking { level }),
                current_thinking: Some(level),
                ..p
            })
            &&& p.handled(PiMsgV::Compact).0 == (PanelV {
                outbox: p.outbox.push(CommandV::Compact),
                ..p
            })
        },
{
}

/// Connecting anew drops the connection if there is one, and else starts a worker.
pub proof fn law_reconnect_connects(p: PanelV)
    ensures
        ({
            let (q, effect) = p.handled(PiMsgV::Reconnect);
            &&& q.status is Connecting
            &&& q.worker
            &&& q.entries == p.entries
            &&& p.worker ==> q.outbox == p.outbox.push(CommandV::Reconnect) && effect is Nothing
            &&& !p.worker ==> effect == EffectV::StartWorker(p.start())
        }),
{
}

/// Each mode starts its own worker, with the settings of the panel.
pub proof fn law_mode_chooses_worker(p: PanelV)
    ensures
        p.mode == "web"@ ==> p.start() == (StartV::Web { endpoint: p.endpoint }),
        p.mode == "rpc"@ ==> p.start() == (StartV::Rpc { bin: p.pi_bin, cwd: p.project_cwd }),
        p.mode == "auto"@ ==> p.start() == (StartV::Auto {
            endpoint: p.endpoint,
            bin: p.pi_bin,
            cwd: p.project_cwd,
        }),
{
    reveal_strlit("web");
    reveal_strlit("rpc");
    reveal_strlit("auto");
    assert("web"@[0] == 'w' && "rpc"@[0] == 'r');
}

/// A panel starts with the settings it is given, idle and empty; what is not given has a
/// default.
pub proof fn law_panel_starts_empty(
    endpoint: Option<Seq<char>>,
    mode: Seq<char>,
    bin: Option<Seq<char>>,
    cwd: Option<Seq<char>>,
    home: Option<Seq<char>>,
)
    ensures
        ({
            let p = crate::panel::initial(endpoint, mode, bin, cwd, home);
            &&& endpoint matches Some(e) ==> p.endpoint == e
            &&& endpoint is None ==> p.endpoint == "http://127.0.0.1:30141"@
            &&& bin matches Some(b) ==> p.pi_bin == b
            &&& bin is None ==> p.pi_bin == "pi"@
            &&& cwd matches Some(c) ==> p.project_cwd == c
            &&& cwd is None && home is Some ==> p.project_cwd == home->0
            &&& p.home == home
            &&& p.mode == mode
            &&& p.status is Idle
            &&& p.entries.len() == 0 && p.streaming.len() == 0 && p.outbox.len() == 0
            &&& !p.worker
            &&& p.active is None && p.pending_ui is None && p.popup is None && p.browse is None
        }),
{
}

/// A question is dismissed or answered once, by its id: the free text without the white
/// space around it. Without a question nothing is sent.
pub proof fn law_question_is_answered_once(p: PanelV, value: Option<Seq<char>>, confirmed: Option<bool>)
    requires
        p.worker,
    ensures
        p.pending_ui is None ==> p.handled(PiMsgV::UiCancel).0 == p && p.handled(
            PiMsgV::UiSubmit,
        ).0 == p && p.handled(PiMsgV::UiAnswer { value, confirmed }).0 == p,
        p.pending_ui matches Some(q) ==> {
            &&& p.handled(PiMsgV::UiCancel).0 == (PanelV {
                pending_ui: None,
                outbox: p.outbox.push(
                    CommandV::UiRespond { id: q.id, value: None, confirmed: None, cancelled: true },
                ),
                ..p
            })
            &&& p.handled(PiMsgV::UiSubmit).0 == (PanelV {
                pending_ui: None,
                outbox: p.outbox.push(
                    CommandV::UiRespond {
                        id: q.id,
                        value: Some(trimmed(p.ui_answer)),
                        confirmed: None,
                        cancelled: false,
                    },
                ),
                ..p
            })
            &&& p.handled(PiMsgV::UiAnswer { value, confirmed }).0 == (PanelV {
                pending_ui: None,
                outbox: p.outbox.push(
                    CommandV::UiRespond { id: q.id, value, confirmed, cancelled: false },
                ),
                ..p
            })
        },
{
}

/// What the user edits is what is kept; dropping the image and closing the menu or the
/// browser drop nothing else.
pub proof fn law_edits_are_kept(p: PanelV, text: Seq<char>, caret: (usize, usize))
    ensures
        ({
            let (q, effect) = p.handled(PiMsgV::Editor { text, caret });
            &&& q.input == text
            &&& q.caret == caret
            &&& q.entries == p.entries
            &&& q.pending_image == p.pending_image
            &&& effect is Nothing
        }),
        p.handled(PiMsgV::UiEdit(text)) == (PanelV { ui_answer: text, ..p }, EffectV::Nothing),
        p.handled(PiMsgV::ClearImage) == (
            PanelV { pending_image: None, pending_image_size: None, ..p },
            EffectV::Nothing,
        ),
        p.handled(PiMsgV::MenuClose) == (PanelV { popup: None, ..p }, EffectV::Nothing),
        p.handled(PiMsgV::NewSessionCancel) == (PanelV { browse: None, ..p }, EffectV::Nothing),
        p.handled(PiMsgV::Paste) == (p, EffectV::ReadClipboard),
{
}

/// The popup shows what the last line of the composer asks for: commands, files, or
/// nothing, each matching what was typed.
pub proof fn law_popup_follows_composer(p: PanelV, text: Seq<char>, caret: (usize, usize))
    ensures
        ({
            let q = p.handled(PiMsgV::Editor { text, caret }).0;
            match crate::popup::completion_of(text) {
                crate::popup::CompletionV::Slash(query) => q.popup == Some(
                    PopupV::Slash {
                        query,
                        matches: crate::popup::command_matches(p.commands, query),
                        active: 0,
                    },
                ) && q.outbox == p.outbox,
                crate::popup::CompletionV::At(query) => q.popup matches Some(
                    PopupV::At { query: x, matches, active },
                ) && x == query && active == 0 && (p.files matches Some(f) ==> matches
                    == crate::popup::file_matches(f.1, query)) && (p.files is None
                    ==> matches.len() == 0),
                crate::popup::CompletionV::Nothing => q.popup is None && q.outbox == p.outbox,
            }
        }),
{
}

/// The file index of the session's directory is asked for when a file is asked for, and
/// not again while it is here or on its way.
pub proof fn law_index_is_asked_for_once(
    p: PanelV,
    cwd: Seq<char>,
    text: Seq<char>,
    caret: (usize, usize),
    more: Seq<char>,
)
    requires
        p.worker,
        p.active_cwd() == Some(cwd),
        crate::popup::completion_of(text) is At,
        crate::popup::completion_of(more) is At,
    ensures
        ({
            let q = p.handled(PiMsgV::Editor { text, caret }).0;
            let known = (p.files matches Some(f) && f.0 == cwd) || p.files_requested == Some(cwd);
            &&& known ==> q.outbox == p.outbox
            &&& !known ==> q.outbox == p.outbox.push(CommandV::FetchFiles { cwd })
            &&& q.handled(PiMsgV::Editor { text: more, caret }).0.outbox == q.outbox
        }),
{
    let q = p.handled(PiMsgV::Editor { text, caret }).0;
    assert(q.active_cwd() == Some(cwd));
}

/// The browser opens at the session's directory, else at the user's own, and asks for
/// its listing; it moves where the user says, and up only where there is a parent.
pub proof fn law_browser_goes_where_told(p: PanelV, path: Seq<char>)
    requires
        p.worker,
    ensures
        ({
            let q = p.handled(PiMsgV::NewSessionOpen).0;
            &&& q.browse is Some
            &&& (q.browse->0).loading
            &&& p.active_cwd() matches Some(cwd) ==> (q.browse->0).path == cwd
            &&& p.active_cwd() is None && p.home is Some ==> (q.browse->0).path == p.home->0
            &&& p.active_cwd() is None && p.home is None ==> (q.browse->0).path == "/"@
            &&& q.outbox == p.outbox.push(CommandV::Browse { path: (q.browse->0).path })
        }),
        p.browse is None ==> p.handled(PiMsgV::DirOpen(path)).0 == p && p.handled(
            PiMsgV::DirUp,
        ).0 == p && p.handled(PiMsgV::CreateSession).0 == p,
        p.browse matches Some(b) ==> {
            let q = p.handled(PiMsgV::DirOpen(path)).0;
            &&& q.browse is Some && (q.browse->0).path == path && (q.browse->0).loading && (
            q.browse->0).dirs.len() == 0
            &&& q.outbox == p.outbox.push(CommandV::Browse { path })
            &&& b.parent matches Some(up) ==> p.handled(PiMsgV::DirUp).0 == p.handled(
                PiMsgV::DirOpen(up),
            ).0
            &&& b.parent is None ==> p.handled(PiMsgV::DirUp).0 == p
            &&& p.handled(PiMsgV::CreateSession).0 == (PanelV {
                browse: None,
                status: PiStatusV::Connecting,
                outbox: p.outbox.push(CommandV::NewSession { cwd: b.path }),
                ..p
            })
        },
{
}

/// A pasted image is attached with its size and nothing else changes; a failure is shown
/// with its reason behind all entries.
pub proof fn law_pasted_image_is_attached(p: PanelV, staged: StagedV)
    requires
        p.has_ids(1),
    ensures
        match staged {
            StagedV::Image { image, width, height } => p.after_paste(staged) == (PanelV {
                pending_image: Some(image),
                pending_image_size: Some((width, height)),
                ..p
            }),
            StagedV::Failed(why) => {
                let q = p.after_paste(staged);
                &&& q.entries.drop_last() == p.entries
                &&& q.entries.last().kind == PiEntryKindV::Notice("粘贴图片失败："@ + why)
                &&& q.pending_image == p.pending_image
            },
        },
{
    if let StagedV::Failed(why) = staged {
        assert(p.after_paste(staged).entries.drop_last() =~= p.entries);
    }
}

/// A pasted text stands in place of what was selected, and the caret behind it; the rest
/// of the composer stays.
pub proof fn law_pasted_text_is_inserted(p: PanelV, text: Seq<char>, from: int, to: int)
    requires
        0 <= from <= to <= p.input.len(),
        p.caret.0 == from,
        p.caret.1 == to,
        p.input.len() + text.len() <= usize::MAX,
    ensures
        ({
            let q = p.after_text(text);
            &&& q.input == p.input.take(from) + text + p.input.skip(to)
            &&& q.caret.0 == from + text.len()
            &&& q.caret.1 == from + text.len()
            &&& q == (PanelV { input: q.input, caret: q.caret, ..p })
        }),
{
}

/// An accepted command fills the composer with its name, ready for its arguments, and
/// closes the popup.
pub proof fn law_accepted_command_fills_composer(
    p: PanelV,
    query: Seq<char>,
    matches: Seq<usize>,
    active: usize,
)
    requires
        p.popup == Some(PopupV::Slash { query, matches, active }),
        active < matches.len(),
        matches[active as int] < p.commands.len(),
    ensures
        ({
            let q = p.handled(PiMsgV::MenuAccept).0;
            &&& q.input == seq!['/'] + p.commands[matches[active as int] as int].name + seq![' ']
            &&& q.popup is None
            &&& q == (PanelV { input: q.input, caret: q.caret, popup: None, ..p })
        }),
{
    reveal_strlit("/");
    reveal_strlit(" ");
    assert("/"@ =~= seq!['/']);
    assert(" "@ =~= seq![' ']);
}

/// Expanding or collapsing an entry changes that entry only: its flag.
pub proof fn law_toggle_changes_one_entry(p: PanelV, at: int)
    requires
        0 <= at < p.entries.len(),
        forall|k: int| 0 <= k < at ==> (#[trigger] p.entries[k]).id != p.entries[at].id,
    ensures
        ({
            let q = p.handled(PiMsgV::ToggleEntry(p.entries[at].id)).0;
            &&& q.entries == p.entries.update(
                at,
                crate::panel::PiEntryV { expanded: !p.entries[at].expanded, ..p.entries[at] },
            )
            &&& q == (PanelV { entries: q.entries, ..p })
        }),
{
    crate::panel::lemma_entry_at(p.entries, p.entries[at].id);
    let found = entry_at(p.entries, p.entries[at].id);
    if found < at {
        assert(p.entries[found].id != p.entries[at].id);
    } else if found > at {
        assert(p.entries[at].id != p.entries[at].id);
    }
}

} // verus!
