//! The backend that runs a local agent as a child process: one JSON object per
//! line, commands in, responses and events out.

use vstd::prelude::*;

use crate::bodies::{
    answer_body, answer_fields, command_body, command_json, is_prompt, prompt_body, prompt_fields,
    set_model_body, set_model_json, set_thinking_body, set_thinking_json, switch_session_body,
    switch_session_json, tagged_body, tagged_json,
};
use crate::json::{copy_json, json_parse, object_json, parse_json, Json, JsonV};
use crate::lang::{filled, pick, tr, tr_one, tr_two, Lang};
use crate::protocol::{
    Command, CommandV, Event, EventV, ImageAttachment, ImageAttachmentV, ModelInfo, ModelInfoV,
    SessionInfo, SessionInfoV, Status, StatusV,
};
use crate::text::{same, trim, trim_end_char, trimmed, without_trailing};
use crate::web::{all_images, gather_images, Input, InputV};
use crate::wire::{
    catalog_at, commands_in, entries_of, events_of, messages_to_entries, model_ids, one_event,
    no_event, parse_commands, parse_levels, parse_models, parse_stats, read_model_ids,
    sse_to_events, stats_of, streaming_after, track_streaming,
};

verus! {

broadcast use crate::model::group_views;

/// How many lines of the child's error output are kept.
pub const MAX_TAIL: usize = 5;

/// What the worker has to do on behalf of the session.
#[derive(Debug, PartialEq)]
pub enum RpcAction {
    /// Report an event to the panel.
    Emit(Event),
    /// Write a line to the child.
    Write(String),
    /// Scan the session directory, note what it holds, and report it.
    Scan,
}

/// Model of [`RpcAction`].
pub enum RpcActionV {
    Emit(EventV),
    Write(Seq<char>),
    Scan,
}

impl DeepView for RpcAction {
    type V = RpcActionV;

    open spec fn deep_view(&self) -> RpcActionV {
        match self {
            RpcAction::Emit(e) => RpcActionV::Emit(e.deep_view()),
            RpcAction::Write(s) => RpcActionV::Write(s@),
            RpcAction::Scan => RpcActionV::Scan,
        }
    }
}

/// What is known of the session of one child process.
pub struct RpcSession {
    /// Whether an agent run is streaming.
    pub streaming: bool,
    /// The state the child reported last.
    pub state: Option<Json>,
    pub models: Option<Vec<ModelInfo>>,
    pub levels: Option<Vec<String>>,
    /// Whether the panel was told that the session is ready.
    pub ready_sent: bool,
    /// The file of each session, by session id.
    pub paths: Vec<(String, String)>,
    pub paths_loaded: bool,
}

/// Model of [`RpcSession`].
pub struct RpcV {
    pub streaming: bool,
    pub state: Option<JsonV>,
    pub models: Option<Seq<ModelInfoV>>,
    pub levels: Option<Seq<Seq<char>>>,
    pub ready_sent: bool,
    pub paths: Map<Seq<char>, Seq<char>>,
    pub paths_loaded: bool,
}

/// The pairs as a map; later pairs count.
pub open spec fn path_map(pairs: Seq<(Seq<char>, Seq<char>)>) -> Map<Seq<char>, Seq<char>>
    decreases pairs.len(),
{
    if pairs.len() == 0 {
        Map::empty()
    } else {
        path_map(pairs.drop_last()).insert(pairs.last().0, pairs.last().1)
    }
}

impl DeepView for RpcSession {
    type V = RpcV;

    open spec fn deep_view(&self) -> RpcV {
        RpcV {
            streaming: self.streaming,
            state: self.state.deep_view(),
            models: self.models.deep_view(),
            levels: self.levels.deep_view(),
            ready_sent: self.ready_sent,
            paths: path_map(self.paths.deep_view()),
            paths_loaded: self.paths_loaded,
        }
    }
}

/// The state of a session that has just been started.
pub open spec fn fresh() -> RpcV {
    RpcV {
        streaming: false,
        state: None,
        models: None,
        levels: None,
        ready_sent: false,
        paths: Map::empty(),
        paths_loaded: false,
    }
}

// ── Action lists ────────────────────────────────────────────────────────────

fn no_action() -> (out: Vec<RpcAction>)
    ensures
        out.deep_view() == Seq::<RpcActionV>::empty(),
{
    Vec::new()
}

fn one_action(a: RpcAction) -> (out: Vec<RpcAction>)
    ensures
        out.deep_view() == seq![a.deep_view()],
{
    let mut out: Vec<RpcAction> = Vec::new();
    out.push(a);
    assert(out.deep_view() =~= seq![a.deep_view()]);
    out
}

/// Events to report.
pub open spec fn emits(events: Seq<EventV>) -> Seq<RpcActionV> {
    events.map_values(|e: EventV| RpcActionV::Emit(e))
}

fn emit_all(events: Vec<Event>) -> (out: Vec<RpcAction>)
    ensures
        out.deep_view() == emits(events.deep_view()),
{
    let ghost all = events.deep_view();
    let mut out: Vec<RpcAction> = Vec::new();
    for e in it: events
        invariant
            it.seq() == events@,
            all == events.deep_view(),
            out.deep_view() == emits(all.take(it.index() as int)),
    {
        assert(all.take(it.index() + 1) =~= all.take(it.index() as int).push(e.deep_view()));
        out.push(RpcAction::Emit(e));
        assert(out.deep_view() =~= emits(all.take(it.index() + 1)));
    }
    assert(all.take(all.len() as int) =~= all);
    out
}

/// The lines that open the conversation: state, models, thinking levels and
/// commands are asked for.
pub fn handshake() -> (out: Vec<String>)
    ensures
        out.deep_view() == seq![
            tagged_json("h1"@, "get_state"@),
            tagged_json("h2"@, "get_available_models"@),
            tagged_json("h3"@, "get_available_thinking_levels"@),
            tagged_json("h4"@, "get_commands"@),
        ],
{
    let mut out: Vec<String> = Vec::new();
    out.push(tagged_body("h1", "get_state"));
    out.push(tagged_body("h2", "get_available_models"));
    out.push(tagged_body("h3", "get_available_thinking_levels"));
    out.push(tagged_body("h4", "get_commands"));
    assert(out.deep_view() =~= seq![
        tagged_json("h1"@, "get_state"@),
        tagged_json("h2"@, "get_available_models"@),
        tagged_json("h3"@, "get_available_thinking_levels"@),
        tagged_json("h4"@, "get_commands"@),
    ]);
    out
}

// ── What the child says ─────────────────────────────────────────────────────

/// The value on a line of the child's output; blank lines and what is no JSON
/// have none.
pub open spec fn line_value(line: Seq<char>) -> Option<JsonV> {
    let l = trim_end_char(line, '\r');
    if trimmed(l).len() == 0 {
        None
    } else {
        json_parse(l)
    }
}

/// Reads a line of the child's output.
pub fn read_line(line: &str) -> (out: Option<Json>)
    ensures
        out.deep_view() == line_value(line@),
{
    let l = without_trailing(line, '\r');
    if trim(l.as_str()).as_str().is_empty() {
        None
    } else {
        parse_json(l.as_str())
    }
}

/// A rejected command, with the reason the child gave or else a general one.
pub open spec fn refusal(
    lang: Lang,
    zh: Seq<char>,
    en: Seq<char>,
    data: JsonV,
    zh_default: Seq<char>,
    en_default: Seq<char>,
) -> Seq<RpcActionV> {
    seq![
        RpcActionV::Emit(
            EventV::SendFailed {
                message: filled(
                    pick(lang, zh, en),
                    seq![
                        (
                            "detail"@,
                            match data.as_str() {
                                Some(s) => s,
                                None => pick(lang, zh_default, en_default),
                            },
                        ),
                    ],
                ),
            },
        ),
    ]
}

fn refuse(
    lang: Lang,
    zh: &str,
    en: &str,
    data: &Json,
    zh_default: &'static str,
    en_default: &'static str,
) -> (out: Vec<RpcAction>)
    ensures
        out.deep_view() == refusal(
            lang,
            zh@,
            en@,
            data.deep_view(),
            zh_default@,
            en_default@,
        ),
{
    let why: &str = match data.as_str() {
        Some(s) => s,
        None => tr(lang, zh_default, en_default),
    };
    one_action(
        RpcAction::Emit(Event::SendFailed { message: tr_one(lang, zh, en, "detail", why) }),
    )
}

/// The level a response names.
pub open spec fn level_in(data: JsonV) -> Option<Seq<char>> {
    match data.text("level"@) {
        Some(l) => Some(l),
        None => data.as_str(),
    }
}

fn level_of(data: &Json) -> (out: Option<String>)
    ensures
        out.deep_view() == level_in(data.deep_view()),
{
    match data.text("level") {
        Some(l) => Some(l.to_owned()),
        None => match data.as_str() {
            Some(l) => Some(l.to_owned()),
            None => None,
        },
    }
}

/// What a successful model switch leads to: the level list may differ per model.
pub open spec fn model_switched(data: JsonV) -> Seq<RpcActionV> {
    match (data.text("provider"@), data.text("id"@)) {
        (Some(provider), Some(id)) => seq![
            RpcActionV::Emit(EventV::ModelSet { provider, id }),
            RpcActionV::Write(tagged_json("t1"@, "get_available_thinking_levels"@)),
        ],
        _ => Seq::empty(),
    }
}

/// What a response of the child leads to.
pub open spec fn response_step(s: RpcV, value: JsonV, lang: Lang) -> (RpcV, Seq<RpcActionV>) {
    let command = value.text_or("command"@, ""@);
    let success = value.flag("success"@);
    let data = value.at("data"@);
    if command == "get_state"@ {
        (RpcV { state: Some(data), ..s }, Seq::empty())
    } else if command == "get_available_models"@ {
        (RpcV { models: Some(catalog_at(data, "models"@)), ..s }, Seq::empty())
    } else if command == "get_available_thinking_levels"@ {
        (RpcV { levels: Some(data.strings("levels"@)), ..s }, Seq::empty())
    } else if command == "get_commands"@ {
        (s, seq![RpcActionV::Emit(EventV::Commands(commands_in(data)))])
    } else if command == "get_messages"@ {
        (
            s,
            seq![
                RpcActionV::Emit(
                    EventV::Replace(
                        match data.list("messages"@) {
                            Some(items) => entries_of(items),
                            None => Seq::empty(),
                        },
                    ),
                ),
            ],
        )
    } else if command == "set_model"@ {
        (
            s,
            if success {
                model_switched(data)
            } else {
                refusal(
                    lang,
                    "切换模型失败：{detail}"@,
                    "model switch failed: {detail}"@,
                    data,
                    "未知错误"@,
                    "unknown error"@,
                )
            },
        )
    } else if command == "set_thinking_level"@ {
        (
            s,
            if success {
                match level_in(data) {
                    Some(level) => seq![RpcActionV::Emit(EventV::ThinkingSet { level })],
                    None => Seq::empty(),
                }
            } else {
                refusal(
                    lang,
                    "切换思考强度失败：{detail}"@,
                    "thinking level switch failed: {detail}"@,
                    data,
                    "未知错误"@,
                    "unknown error"@,
                )
            },
        )
    } else if command == "new_session"@ || command == "switch_session"@ {
        if success {
            (
                RpcV { paths_loaded: true, ..s },
                seq![
                    RpcActionV::Write(tagged_json("s2"@, "get_state"@)),
                    RpcActionV::Write(tagged_json("m2"@, "get_messages"@)),
                    RpcActionV::Scan,
                ],
            )
        } else {
            (
                s,
                refusal(
                    lang,
                    "切换会话失败：{detail}"@,
                    "session switch failed: {detail}"@,
                    data,
                    "未知错误"@,
                    "unknown error"@,
                ),
            )
        }
    } else if command == "get_session_stats"@ {
        (s, seq![RpcActionV::Emit(EventV::Stats(stats_of(data)))])
    } else if command == "compact"@ {
        (
            s,
            if success {
                Seq::empty()
            } else {
                refusal(
                    lang,
                    "压缩失败：{detail}"@,
                    "compaction failed: {detail}"@,
                    data,
                    "未知错误"@,
                    "unknown error"@,
                )
            },
        )
    } else if command == "prompt"@ {
        (
            s,
            if success {
                Seq::empty()
            } else {
                refusal(
                    lang,
                    "发送失败：{detail}"@,
                    "send failed: {detail}"@,
                    data,
                    "指令被拒绝"@,
                    "command rejected"@,
                )
            },
        )
    } else {
        (s, Seq::empty())
    }
}

/// What a value from the child leads to: responses update what is known,
/// everything else is an event of the agent.
pub open spec fn value_step(s: RpcV, value: JsonV, lang: Lang) -> (RpcV, Seq<RpcActionV>) {
    if value.text_or("type"@, ""@) == "response"@ {
        response_step(s, value, lang)
    } else {
        let events = events_of(value, lang);
        (RpcV { streaming: streaming_after(s.streaming, events), ..s }, emits(events))
    }
}

/// What the panel is told once the state of the session is known.
pub open spec fn ready_actions(s: RpcV, state: JsonV) -> Seq<RpcActionV> {
    let streaming = state.flag("isStreaming"@);
    let list = match s.models {
        Some(m) => m,
        None => Seq::empty(),
    };
    let current = model_ids(state.at("model"@));
    let thinking = state.text("thinkingLevel"@);
    let thinking_levels = match (current, s.levels) {
        (Some((provider, id)), Some(levels)) => seq![(provider + ":"@ + id, levels)],
        _ => Seq::empty(),
    };
    seq![
        RpcActionV::Emit(
            EventV::Status(
                StatusV::Ready { session: state.text_or("sessionId"@, "pi"@), streaming },
            ),
        ),
    ] + (if s.paths_loaded {
        Seq::empty()
    } else {
        seq![RpcActionV::Scan]
    }) + (if list.len() > 0 || thinking is Some {
        seq![RpcActionV::Emit(EventV::Models { list, current, thinking_levels, thinking })]
    } else {
        Seq::empty()
    })
}

/// What is due between two inputs: once the state is known, the panel is told
/// that the session is ready.
pub open spec fn ready_step(s: RpcV) -> (RpcV, Seq<RpcActionV>) {
    match s.state {
        Some(state) => if s.ready_sent {
            (s, Seq::empty())
        } else {
            (
                RpcV {
                    streaming: state.flag("isStreaming"@),
                    ready_sent: true,
                    paths_loaded: true,
                    ..s
                },
                ready_actions(s, state),
            )
        },
        None => (s, Seq::empty()),
    }
}

/// `paths` with the files of `sessions`.
pub open spec fn recorded(
    paths: Map<Seq<char>, Seq<char>>,
    sessions: Seq<SessionInfoV>,
) -> Map<Seq<char>, Seq<char>>
    decreases sessions.len(),
{
    if sessions.len() == 0 {
        paths
    } else {
        let before = recorded(paths, sessions.drop_last());
        match sessions.last().path {
            Some(p) => before.insert(sessions.last().id, p),
            None => before,
        }
    }
}

/// How a session is switched to: by its file, if it is known.
pub open spec fn switch_action(
    paths: Map<Seq<char>, Seq<char>>,
    id: Seq<char>,
    lang: Lang,
) -> RpcActionV {
    if paths.contains_key(id) {
        RpcActionV::Write(switch_session_json(paths[id]))
    } else {
        RpcActionV::Emit(
            EventV::Notice(
                filled(
                    pick(lang, "找不到会话文件：{id}"@, "session file not found: {id}"@),
                    seq![("id"@, id)],
                ),
            ),
        )
    }
}

/// What a command of the panel leads to.
#[derive(Debug, PartialEq)]
pub enum RpcStep {
    /// Do these things.
    Do(Vec<RpcAction>),
    /// Expand the message's references and send it.
    Prompt { message: String, image: Option<ImageAttachment>, queued: bool },
    /// Scan the session directory, note what it holds, then switch to the session.
    ScanAndSwitch { id: String },
    /// List a directory.
    Browse { path: String },
    /// Index the files of a directory.
    Files { cwd: String },
    /// Stop the child and start it again, in this directory if one is given.
    Restart(Option<String>),
    /// Stop the child and leave: the panel is gone.
    Stop,
}

/// Model of [`RpcStep`].
pub enum RpcStepV {
    Do(Seq<RpcActionV>),
    Prompt { message: Seq<char>, image: Option<ImageAttachmentV>, queued: bool },
    ScanAndSwitch { id: Seq<char> },
    Browse { path: Seq<char> },
    Files { cwd: Seq<char> },
    Restart(Option<Seq<char>>),
    Stop,
}

impl DeepView for RpcStep {
    type V = RpcStepV;

    open spec fn deep_view(&self) -> RpcStepV {
        match self {
            RpcStep::Do(actions) => RpcStepV::Do(actions.deep_view()),
            RpcStep::Prompt { message, image, queued } => RpcStepV::Prompt {
                message: message@,
                image: image.deep_view(),
                queued: *queued,
            },
            RpcStep::ScanAndSwitch { id } => RpcStepV::ScanAndSwitch { id: id@ },
            RpcStep::Browse { path } => RpcStepV::Browse { path: path@ },
            RpcStep::Files { cwd } => RpcStepV::Files { cwd: cwd@ },
            RpcStep::Restart(cwd) => RpcStepV::Restart(cwd.deep_view()),
            RpcStep::Stop => RpcStepV::Stop,
        }
    }
}

/// One line to write.
pub open spec fn write_one(line: Seq<char>) -> RpcStepV {
    RpcStepV::Do(seq![RpcActionV::Write(line)])
}

/// What a command leads to in the session of the directory `cwd`.
pub open spec fn command_step(s: RpcV, command: CommandV, cwd: Seq<char>, lang: Lang) -> RpcStepV {
    match command {
        CommandV::Send { session: _, message, image, queued } => RpcStepV::Prompt {
            message,
            image,
            queued: queued || s.streaming,
        },
        CommandV::SetModel { provider, model_id } => write_one(set_model_json(provider, model_id)),
        CommandV::SetThinking { level } => write_one(set_thinking_json(level)),
        CommandV::Watch(id) => if s.paths == Map::<Seq<char>, Seq<char>>::empty() {
            RpcStepV::ScanAndSwitch { id }
        } else {
            RpcStepV::Do(seq![switch_action(s.paths, id, lang)])
        },
        CommandV::NewSession { cwd: target } => if target == cwd {
            write_one(command_json("new_session"@))
        } else {
            RpcStepV::Restart(Some(target))
        },
        CommandV::Browse { path } => RpcStepV::Browse { path },
        CommandV::FetchFiles { cwd: dir } => RpcStepV::Files { cwd: dir },
        CommandV::Compact => write_one(command_json("compact"@)),
        CommandV::FetchStats => write_one(command_json("get_session_stats"@)),
        CommandV::UiRespond { id, value, confirmed, cancelled } => write_one(
            object_json(answer_fields(id, value, confirmed, cancelled)),
        ),
        CommandV::Reconnect => RpcStepV::Restart(None),
    }
}

/// What an input leads to in the session of the directory `cwd`.
pub open spec fn input_step(s: RpcV, input: InputV, cwd: Seq<char>, lang: Lang) -> RpcStepV {
    match input {
        InputV::Command(c) => command_step(s, c, cwd, lang),
        InputV::Idle { .. } => RpcStepV::Do(Seq::empty()),
        InputV::Gone => RpcStepV::Stop,
    }
}

fn copy_models(list: &Vec<ModelInfo>) -> (out: Vec<ModelInfo>)
    ensures
        out.deep_view() == list.deep_view(),
{
    let ghost all = list.deep_view();
    let mut out: Vec<ModelInfo> = Vec::new();
    let mut i: usize = 0;
    assert(all.take(0) =~= Seq::empty());
    while i < list.len()
        invariant
            i <= list@.len(),
            all == list.deep_view(),
            out.deep_view() == all.take(i as int),
        decreases list@.len() - i,
    {
        out.push(
            ModelInfo {
                provider: list[i].provider.clone(),
                id: list[i].id.clone(),
                name: list[i].name.clone(),
            },
        );
        assert(all.take(i + 1) =~= all.take(i as int).push(list@[i as int].deep_view()));
        i += 1;
    }
    assert(all.take(i as int) =~= all);
    out
}

fn copy_texts(list: &Vec<String>) -> (out: Vec<String>)
    ensures
        out.deep_view() == list.deep_view(),
{
    let ghost all = list.deep_view();
    let mut out: Vec<String> = Vec::new();
    let mut i: usize = 0;
    assert(all.take(0) =~= Seq::empty());
    while i < list.len()
        invariant
            i <= list@.len(),
            all == list.deep_view(),
            out.deep_view() == all.take(i as int),
        decreases list@.len() - i,
    {
        out.push(list[i].clone());
        assert(all.take(i + 1) =~= all.take(i as int).push(list@[i as int]@));
        i += 1;
    }
    assert(all.take(i as int) =~= all);
    out
}

proof fn lemma_path_map_remove(pairs: Seq<(Seq<char>, Seq<char>)>, i: int)
    requires
        0 <= i < pairs.len(),
    ensures
        path_map(pairs.remove(i)).remove(pairs[i].0) == path_map(pairs).remove(pairs[i].0),
    decreases pairs.len(),
{
    let k = pairs[i].0;
    if i == pairs.len() - 1 {
        assert(pairs.remove(i) =~= pairs.drop_last());
        assert(path_map(pairs.remove(i)).remove(k) =~= path_map(pairs).remove(k));
    } else {
        lemma_path_map_remove(pairs.drop_last(), i);
        let less = pairs.remove(i);
        assert(less.drop_last() =~= pairs.drop_last().remove(i));
        assert(less.last() == pairs.last());
        let a = path_map(less.drop_last());
        let b = path_map(pairs.drop_last());
        assert(a.remove(k) == b.remove(k));
        let (lk, lv) = pairs.last();
        assert(a.insert(lk, lv).remove(k) =~= b.insert(lk, lv).remove(k)) by {
            assert forall|x: Seq<char>|
                #![trigger a.contains_key(x)]
                #![trigger b.contains_key(x)]
                x != k implies a.contains_key(x) == b.contains_key(x) && (a.contains_key(x)
                ==> a[x] == b[x]) by {
                assert(a.remove(k).contains_key(x) == a.contains_key(x));
                assert(b.remove(k).contains_key(x) == b.contains_key(x));
                if a.contains_key(x) {
                    assert(a.remove(k)[x] == a[x]);
                    assert(b.remove(k)[x] == b[x]);
                }
            }
        }
    }
}

fn note_path(paths: &mut Vec<(String, String)>, id: String, path: String)
    ensures
        path_map(final(paths).deep_view()) == path_map(old(paths).deep_view()).insert(id@, path@),
{
    let ghost all = paths.deep_view();
    let ghost m = path_map(all);
    let mut i: usize = 0;
    while i < paths.len()
        invariant
            i <= paths@.len(),
            all == paths.deep_view(),
            all == old(paths).deep_view(),
            m == path_map(all),
        decreases paths@.len() - i,
    {
        assert(all[i as int] == paths@[i as int].deep_view());
        if same(paths[i].0.as_str(), id.as_str()) {
            let _ = paths.remove(i);
            let ghost less = paths.deep_view();
            proof {
                lemma_path_map_remove(all, i as int);
                assert(less =~= all.remove(i as int));
                assert(path_map(less).insert(id@, path@) =~= path_map(less).remove(id@).insert(
                    id@,
                    path@,
                ));
                assert(m.insert(id@, path@) =~= m.remove(id@).insert(id@, path@));
            }
            paths.push((id, path));
            let ghost now = paths.deep_view();
            assert(now.drop_last() =~= less);
            return ;
        }
        i += 1;
    }
    paths.push((id, path));
    let ghost now = paths.deep_view();
    assert(now.drop_last() =~= all);
}

fn find_path(paths: &Vec<(String, String)>, id: &str) -> (out: Option<String>)
    ensures
        out.deep_view() == (if path_map(paths.deep_view()).contains_key(id@) {
            Some(path_map(paths.deep_view())[id@])
        } else {
            None
        }),
{
    let ghost all = paths.deep_view();
    let ghost m = path_map(all);
    let mut n: usize = paths.len();
    assert(all.take(n as int) =~= all);
    while n > 0
        invariant
            n <= paths@.len(),
            all == paths.deep_view(),
            m == path_map(all),
            path_map(all.take(n as int)).contains_key(id@) == m.contains_key(id@),
            m.contains_key(id@) ==> path_map(all.take(n as int))[id@] == m[id@],
        decreases n,
    {
        let at: usize = n - 1;
        assert(all[at as int] == paths@[at as int].deep_view());
        assert(all.take(n as int).drop_last() =~= all.take(at as int));
        assert(all.take(n as int).last() == all[at as int]);
        if same(paths[at].0.as_str(), id) {
            return Some(paths[at].1.clone());
        }
        n = at;
    }
    None
}

impl RpcSession {
    /// A session whose child has just been started.
    pub fn new() -> (out: Self)
        ensures
            out.deep_view() == fresh(),
    {
        RpcSession {
            streaming: false,
            state: None,
            models: None,
            levels: None,
            ready_sent: false,
            paths: Vec::new(),
            paths_loaded: false,
        }
    }

    fn on_response(&mut self, value: &Json, lang: Lang) -> (out: Vec<RpcAction>)
        ensures
            (final(self).deep_view(), out.deep_view()) == response_step(
                old(self).deep_view(),
                value.deep_view(),
                lang,
            ),
    {
        let null = Json::Null;
        let command = value.text_or("command", "");
        let command = command.as_str();
        let success = value.flag("success");
        let data = value.get("data").unwrap_or(&null);
        if same(command, "get_state") {
            self.state = Some(copy_json(data));
            no_action()
        } else if same(command, "get_available_models") {
            self.models = Some(parse_models(data));
            no_action()
        } else if same(command, "get_available_thinking_levels") {
            self.levels = Some(parse_levels(data));
            no_action()
        } else if same(command, "get_commands") {
            one_action(RpcAction::Emit(Event::Commands(parse_commands(data))))
        } else if same(command, "get_messages") {
            match data.list("messages") {
                Some(items) => one_action(
                    RpcAction::Emit(Event::Replace(messages_to_entries(items))),
                ),
                None => one_action(RpcAction::Emit(Event::Replace(Vec::new()))),
            }
        } else if same(command, "set_model") {
            if success {
                match (data.text("provider"), data.text("id")) {
                    (Some(provider), Some(id)) => {
                        let mut out: Vec<RpcAction> = Vec::new();
                        out.push(
                            RpcAction::Emit(
                                Event::ModelSet {
                                    provider: provider.to_owned(),
                                    id: id.to_owned(),
                                },
                            ),
                        );
                        out.push(
                            RpcAction::Write(tagged_body("t1", "get_available_thinking_levels")),
                        );
                        assert(out.deep_view() =~= model_switched(data.deep_view()));
                        out
                    },
                    _ => no_action(),
                }
            } else {
                refuse(
                    lang,
                    "切换模型失败：{detail}",
                    "model switch failed: {detail}",
                    data,
                    "未知错误",
                    "unknown error",
                )
            }
        } else if same(command, "set_thinking_level") {
            if success {
                match level_of(data) {
                    Some(level) => one_action(RpcAction::Emit(Event::ThinkingSet { level })),
                    None => no_action(),
                }
            } else {
                refuse(
                    lang,
                    "切换思考强度失败：{detail}",
                    "thinking level switch failed: {detail}",
                    data,
                    "未知错误",
                    "unknown error",
                )
            }
        } else if same(command, "new_session") || same(command, "switch_session") {
            if success {
                self.paths_loaded = true;
                let mut out: Vec<RpcAction> = Vec::new();
                out.push(RpcAction::Write(tagged_body("s2", "get_state")));
                out.push(RpcAction::Write(tagged_body("m2", "get_messages")));
                out.push(RpcAction::Scan);
                assert(out.deep_view() =~= seq![
                    RpcActionV::Write(tagged_json("s2"@, "get_state"@)),
                    RpcActionV::Write(tagged_json("m2"@, "get_messages"@)),
                    RpcActionV::Scan,
                ]);
                out
            } else {
                refuse(
                    lang,
                    "切换会话失败：{detail}",
                    "session switch failed: {detail}",
                    data,
                    "未知错误",
                    "unknown error",
                )
            }
        } else if same(command, "get_session_stats") {
            one_action(RpcAction::Emit(Event::Stats(parse_stats(data))))
        } else if same(command, "compact") {
            if success {
                no_action()
            } else {
                refuse(
                    lang,
                    "压缩失败：{detail}",
                    "compaction failed: {detail}",
                    data,
                    "未知错误",
                    "unknown error",
                )
            }
        } else if same(command, "prompt") {
            if success {
                no_action()
            } else {
                refuse(
                    lang,
                    "发送失败：{detail}",
                    "send failed: {detail}",
                    data,
                    "指令被拒绝",
                    "command rejected",
                )
            }
        } else {
            no_action()
        }
    }

    /// Handles a value from the child: a response, or an event of the agent.
    pub fn on_value(&mut self, value: &Json, lang: Lang) -> (out: Vec<RpcAction>)
        ensures
            (final(self).deep_view(), out.deep_view()) == value_step(
                old(self).deep_view(),
                value.deep_view(),
                lang,
            ),
    {
        let kind = value.text_or("type", "");
        if same(kind.as_str(), "response") {
            self.on_response(value, lang)
        } else {
            let events = sse_to_events(value, lang);
            self.streaming = track_streaming(self.streaming, &events);
            emit_all(events)
        }
    }

    /// What is due between two inputs: once the state is known, the panel is told
    /// that the session is ready, and what the pickers show.
    pub fn poll_ready(&mut self) -> (out: Vec<RpcAction>)
        ensures
            (final(self).deep_view(), out.deep_view()) == ready_step(old(self).deep_view()),
    {
        let ghost s = self.deep_view();
        if self.ready_sent {
            return no_action();
        }
        let null = Json::Null;
        let (session, streaming, current, thinking) = match &self.state {
            Some(state) => (
                state.text_or("sessionId", "pi"),
                state.flag("isStreaming"),
                read_model_ids(state.get("model").unwrap_or(&null)),
                state.owned("thinkingLevel"),
            ),
            None => {
                return no_action();
            },
        };
        let ghost known = s.state->0;
        let list: Vec<ModelInfo> = match &self.models {
            Some(m) => copy_models(m),
            None => Vec::new(),
        };
        let mut thinking_levels: Vec<(String, Vec<String>)> = Vec::new();
        if let Some((provider, id)) = &current {
            if let Some(levels) = &self.levels {
                let mut key = provider.clone();
                key.append(":");
                key.append(id.as_str());
                thinking_levels.push((key, copy_texts(levels)));
            }
        }
        let ghost levels_v = match (current.deep_view(), s.levels) {
            (Some((provider, id)), Some(levels)) => seq![(provider + ":"@ + id, levels)],
            _ => Seq::empty(),
        };
        assert(thinking_levels.deep_view() =~= levels_v);
        let mut out: Vec<RpcAction> = Vec::new();
        out.push(RpcAction::Emit(Event::Status(Status::Ready { session, streaming })));
        if !self.paths_loaded {
            out.push(RpcAction::Scan);
        }
        assert(list.deep_view().len() == list@.len());
        if list.len() > 0 || thinking.is_some() {
            out.push(
                RpcAction::Emit(Event::Models { list, current, thinking_levels, thinking }),
            );
        }
        assert(out.deep_view() =~= ready_actions(s, known));
        self.streaming = streaming;
        self.ready_sent = true;
        self.paths_loaded = true;
        out
    }

    /// Notes the files of scanned sessions.
    pub fn record(&mut self, sessions: &Vec<SessionInfo>)
        ensures
            final(self).deep_view() == (RpcV {
                paths: recorded(old(self).deep_view().paths, sessions.deep_view()),
                ..old(self).deep_view()
            }),
    {
        let ghost all = sessions.deep_view();
        let ghost start = self.deep_view();
        assert(all.take(0) =~= Seq::empty());
        let mut i: usize = 0;
        while i < sessions.len()
            invariant
                i <= sessions@.len(),
                all == sessions.deep_view(),
                start == old(self).deep_view(),
                self.deep_view() == (RpcV {
                    paths: recorded(start.paths, all.take(i as int)),
                    ..start
                }),
            decreases sessions@.len() - i,
        {
            assert(all.take(i + 1).drop_last() =~= all.take(i as int));
            assert(all.take(i + 1).last() == sessions@[i as int].deep_view());
            if let Some(path) = &sessions[i].path {
                note_path(&mut self.paths, sessions[i].id.clone(), path.clone());
            }
            i += 1;
        }
        assert(all.take(i as int) =~= all);
    }

    /// How the session `id` is switched to.
    pub fn switch_to(&self, id: &str, lang: Lang) -> (out: RpcAction)
        ensures
            out.deep_view() == switch_action(self.deep_view().paths, id@, lang),
    {
        match find_path(&self.paths, id) {
            Some(path) => RpcAction::Write(switch_session_body(path.as_str())),
            None => RpcAction::Emit(
                Event::Notice(
                    tr_one(lang, "找不到会话文件：{id}", "session file not found: {id}", "id", id),
                ),
            ),
        }
    }

    /// Handles one input in the session of the directory `cwd`.
    pub fn on_input(&self, input: Input, cwd: &str, lang: Lang) -> (out: RpcStep)
        ensures
            out.deep_view() == input_step(self.deep_view(), input.deep_view(), cwd@, lang),
    {
        let command = match input {
            Input::Command(c) => c,
            Input::Idle { .. } => {
                return RpcStep::Do(no_action());
            },
            Input::Gone => {
                return RpcStep::Stop;
            },
        };
        match command {
            Command::Send { session: _, message, image, queued } => RpcStep::Prompt {
                message,
                image,
                queued: queued || self.streaming,
            },
            Command::SetModel { provider, model_id } => write_line(
                set_model_body(provider.as_str(), model_id.as_str()),
            ),
            Command::SetThinking { level } => write_line(set_thinking_body(level.as_str())),
            Command::Watch(id) => {
                if self.paths.len() == 0 {
                    return RpcStep::ScanAndSwitch { id };
                }
                proof {
                    let pairs = self.paths.deep_view();
                    assert(path_map(pairs).contains_key(pairs.last().0));
                    assert(!Map::<Seq<char>, Seq<char>>::empty().contains_key(pairs.last().0));
                }
                RpcStep::Do(one_action(self.switch_to(id.as_str(), lang)))
            },
            Command::NewSession { cwd: target } => if same(target.as_str(), cwd) {
                write_line(command_body("new_session"))
            } else {
                RpcStep::Restart(Some(target))
            },
            Command::Browse { path } => RpcStep::Browse { path },
            Command::FetchFiles { cwd: dir } => RpcStep::Files { cwd: dir },
            Command::Compact => write_line(command_body("compact")),
            Command::FetchStats => write_line(command_body("get_session_stats")),
            Command::UiRespond { id, value, confirmed, cancelled } => write_line(
                answer_body(id.as_str(), &value, confirmed, cancelled),
            ),
            Command::Reconnect => RpcStep::Restart(None),
        }
    }
}

fn write_line(line: String) -> (out: RpcStep)
    ensures
        out.deep_view() == write_one(line@),
{
    RpcStep::Do(one_action(RpcAction::Write(line)))
}

/// The notices of a prompt as events.
pub open spec fn notice_emits(notices: Seq<Seq<char>>) -> Seq<RpcActionV> {
    notices.map_values(|n: Seq<char>| RpcActionV::Emit(EventV::Notice(n)))
}

/// Sends a prompt whose references are expanded: the notices about them, then
/// the prompt itself. The line reads back as that prompt.
pub fn send_prompt(
    message: &str,
    image: Option<ImageAttachment>,
    extra: Vec<ImageAttachment>,
    notices: Vec<String>,
    queued: bool,
) -> (out: Vec<RpcAction>)
    ensures
        ({
            let images = all_images(image.deep_view(), extra.deep_view());
            let line = object_json(prompt_fields(message@, images, queued));
            &&& out.deep_view() == notice_emits(notices.deep_view()).push(RpcActionV::Write(line))
            &&& json_parse(line) is Some
            &&& is_prompt(json_parse(line)->0, message@, images, queued)
        }),
{
    let ghost all = notices.deep_view();
    let mut out: Vec<RpcAction> = Vec::new();
    for n in it: notices
        invariant
            it.seq() == notices@,
            all == notices.deep_view(),
            out.deep_view() == notice_emits(all.take(it.index() as int)),
    {
        assert(all.take(it.index() + 1) =~= all.take(it.index() as int).push(n@));
        out.push(RpcAction::Emit(Event::Notice(n)));
        assert(out.deep_view() =~= notice_emits(all.take(it.index() + 1)));
    }
    assert(all.take(all.len() as int) =~= all);
    let images = gather_images(image, extra);
    out.push(RpcAction::Write(prompt_body(message, &images, queued)));
    out
}

// ── Around the child ────────────────────────────────────────────────────────

/// The kept lines of error output after one more.
pub open spec fn tail_after_line(tail: Seq<Seq<char>>, line: Seq<char>) -> Seq<Seq<char>> {
    let l = trimmed(line);
    if l.len() == 0 {
        tail
    } else if tail.len() >= MAX_TAIL {
        tail.push(l).remove(0)
    } else {
        tail.push(l)
    }
}

/// Keeps a line of the child's error output for diagnostics; blank lines are
/// dropped, and so are old ones.
pub fn keep_error_line(tail: &mut Vec<String>, line: &str)
    ensures
        final(tail).deep_view() == tail_after_line(old(tail).deep_view(), line@),
{
    let ghost before = tail.deep_view();
    let l = trim(line);
    if l.as_str().is_empty() {
        return ;
    }
    let full = tail.len() >= MAX_TAIL;
    assert(before.len() == tail@.len());
    tail.push(l);
    if full {
        let _ = tail.remove(0);
    }
}

/// Texts with `; ` between them.
pub open spec fn joined_tail(tail: Seq<Seq<char>>) -> Seq<char>
    decreases tail.len(),
{
    if tail.len() == 0 {
        Seq::empty()
    } else if tail.len() == 1 {
        tail[0]
    } else {
        joined_tail(tail.drop_last()) + "; "@ + tail.last()
    }
}

/// What is reported when the child has exited.
pub open spec fn exit_message(status: Seq<char>, tail: Seq<Seq<char>>, lang: Lang) -> Seq<char> {
    let text = joined_tail(tail);
    if text.len() == 0 {
        filled(
            pick(lang, "pi rpc 退出（{status}）"@, "pi rpc exited ({status})"@),
            seq![("status"@, status)],
        )
    } else {
        filled(
            pick(lang, "pi rpc 退出（{status}）：{tail}"@, "pi rpc exited ({status}): {tail}"@),
            seq![("status"@, status), ("tail"@, text)],
        )
    }
}

/// What is reported when the child has exited: its status and the last lines of
/// its error output.
pub fn exited(status: &str, tail: &Vec<String>, lang: Lang) -> (out: String)
    ensures
        out@ == exit_message(status@, tail.deep_view(), lang),
{
    let ghost all = tail.deep_view();
    let mut text = String::new();
    assert(text@ =~= joined_tail(all.take(0)));
    let mut i: usize = 0;
    while i < tail.len()
        invariant
            i <= tail@.len(),
            all == tail.deep_view(),
            text@ == joined_tail(all.take(i as int)),
        decreases tail@.len() - i,
    {
        assert(all.take(i + 1).drop_last() =~= all.take(i as int));
        assert(all.take(i + 1).last() == tail@[i as int]@);
        if i > 0 {
            text.append("; ");
        }
        text.append(tail[i].as_str());
        assert(text@ =~= joined_tail(all.take(i + 1)));
        i += 1;
    }
    assert(all.take(i as int) =~= all);
    if text.as_str().is_empty() {
        tr_one(lang, "pi rpc 退出（{status}）", "pi rpc exited ({status})", "status", status)
    } else {
        tr_two(
            lang,
            "pi rpc 退出（{status}）：{tail}",
            "pi rpc exited ({status}): {tail}",
            "status",
            status,
            "tail",
            text.as_str(),
        )
    }
}

/// What is reported when the child cannot be started.
pub fn start_failed(bin: &str, error: &str, lang: Lang) -> (out: Event)
    ensures
        out.deep_view() == EventV::Status(
            StatusV::Error(
                filled(
                    pick(lang, "启动 {bin} 失败：{e}"@, "failed to start {bin}: {e}"@),
                    seq![("bin"@, bin@), ("e"@, error@)],
                ),
            ),
        ),
{
    Event::Status(
        Status::Error(
            tr_two(
                lang,
                "启动 {bin} 失败：{e}",
                "failed to start {bin}: {e}",
                "bin",
                bin,
                "e",
                error,
            ),
        ),
    )
}

/// What is reported once the child runs.
pub fn started(cwd: &str) -> (out: Event)
    ensures
        out.deep_view() == EventV::Backend("pi rpc · "@ + cwd@),
{
    let mut label = "pi rpc · ".to_owned();
    label.append(cwd);
    Event::Backend(label)
}

/// What the worker does while it waits to start the child again.
#[derive(Debug, PartialEq)]
pub enum RpcRetry {
    /// Report the events and go on waiting.
    Wait(Vec<Event>),
    Browse { path: String },
    Files { cwd: String },
    /// Start the child now, in this directory if one is given.
    Restart(Option<String>),
    /// Leave: the panel is gone.
    Stop,
}

/// Model of [`RpcRetry`].
pub enum RpcRetryV {
    Wait(Seq<EventV>),
    Browse { path: Seq<char> },
    Files { cwd: Seq<char> },
    Restart(Option<Seq<char>>),
    Stop,
}

impl DeepView for RpcRetry {
    type V = RpcRetryV;

    open spec fn deep_view(&self) -> RpcRetryV {
        match self {
            RpcRetry::Wait(events) => RpcRetryV::Wait(events.deep_view()),
            RpcRetry::Browse { path } => RpcRetryV::Browse { path: path@ },
            RpcRetry::Files { cwd } => RpcRetryV::Files { cwd: cwd@ },
            RpcRetry::Restart(cwd) => RpcRetryV::Restart(cwd.deep_view()),
            RpcRetry::Stop => RpcRetryV::Stop,
        }
    }
}

/// What an input leads to while the worker waits to start the child again.
pub open spec fn retry_step(input: InputV, lang: Lang) -> RpcRetryV {
    match input {
        InputV::Idle { .. } => RpcRetryV::Wait(Seq::empty()),
        InputV::Gone => RpcRetryV::Stop,
        InputV::Command(command) => match command {
            CommandV::Reconnect => RpcRetryV::Restart(None),
            CommandV::NewSession { cwd } => RpcRetryV::Restart(Some(cwd)),
            CommandV::Browse { path } => RpcRetryV::Browse { path },
            CommandV::FetchFiles { cwd } => RpcRetryV::Files { cwd },
            CommandV::Watch(_) => RpcRetryV::Wait(Seq::empty()),
            _ => RpcRetryV::Wait(
                seq![
                    EventV::SendFailed {
                        message: pick(lang, "尚未连接 pi（rpc）"@, "pi (rpc) not connected"@),
                    },
                ],
            ),
        },
    }
}

/// Handles one input while the worker waits to start the child again.
pub fn on_retry(input: Input, lang: Lang) -> (out: RpcRetry)
    ensures
        out.deep_view() == retry_step(input.deep_view(), lang),
{
    let command = match input {
        Input::Command(c) => c,
        Input::Idle { .. } => {
            return RpcRetry::Wait(no_event());
        },
        Input::Gone => {
            return RpcRetry::Stop;
        },
    };
    match command {
        Command::Reconnect => RpcRetry::Restart(None),
        Command::NewSession { cwd } => RpcRetry::Restart(Some(cwd)),
        Command::Browse { path } => RpcRetry::Browse { path },
        Command::FetchFiles { cwd } => RpcRetry::Files { cwd },
        Command::Watch(_) => RpcRetry::Wait(no_event()),
        _ => RpcRetry::Wait(
            one_event(
                Event::SendFailed {
                    message: tr(lang, "尚未连接 pi（rpc）", "pi (rpc) not connected").to_owned(),
                },
            ),
        ),
    }
}

// ── Laws ────────────────────────────────────────────────────────────────────

/// The panel is told that the session is ready at most once, whatever comes from
/// the child in between.
pub proof fn law_ready_is_sent_once(s: RpcV, value: JsonV, lang: Lang)
    requires
        s.ready_sent,
    ensures
        value_step(s, value, lang).0.ready_sent,
        ready_step(s) == (s, Seq::<RpcActionV>::empty()),
{
}

/// It is told so as soon as the state is known, and first of all.
pub proof fn law_ready_follows_state(s: RpcV)
    requires
        s.state is Some,
        !s.ready_sent,
    ensures
        ready_step(s).0.ready_sent,
        ready_step(s).1.len() > 0,
        ready_step(s).1[0] == RpcActionV::Emit(
            EventV::Status(
                StatusV::Ready {
                    session: (s.state->0).text_or("sessionId"@, "pi"@),
                    streaming: (s.state->0).flag("isStreaming"@),
                },
            ),
        ),
{
}

/// A prompt sent while a run is streaming is queued behind it.
pub proof fn law_prompt_waits_for_run(s: RpcV, command: CommandV, cwd: Seq<char>, lang: Lang)
    requires
        s.streaming,
        command is Send,
    ensures
        command_step(s, command, cwd, lang) matches RpcStepV::Prompt { queued, .. } && queued,
{
}

/// A scanned session can be switched to by its file.
pub proof fn law_scanned_session_can_be_switched_to(
    paths: Map<Seq<char>, Seq<char>>,
    sessions: Seq<SessionInfoV>,
    i: int,
    lang: Lang,
)
    requires
        0 <= i < sessions.len(),
        sessions[i].path is Some,
    ensures
        recorded(paths, sessions).contains_key(sessions[i].id),
        switch_action(recorded(paths, sessions), sessions[i].id, lang) is Write,
    decreases sessions.len(),
{
    if i < sessions.len() - 1 {
        law_scanned_session_can_be_switched_to(paths, sessions.drop_last(), i, lang);
        assert(sessions.drop_last()[i] == sessions[i]);
    }
}

/// Changing the directory means a new child; staying in it does not.
pub proof fn law_directory_change_restarts(s: RpcV, target: Seq<char>, cwd: Seq<char>, lang: Lang)
    ensures
        command_step(s, CommandV::NewSession { cwd: target }, cwd, lang) is Restart <==> target
            != cwd,
{
}

/// No more than [`MAX_TAIL`] lines of error output are kept.
pub proof fn law_error_tail_is_short(tail: Seq<Seq<char>>, line: Seq<char>)
    requires
        tail.len() <= MAX_TAIL,
    ensures
        tail_after_line(tail, line).len() <= MAX_TAIL,
{
}

/// The commands that the child answers are told apart.
proof fn lemma_command_names()
    ensures
        "get_state"@.len() == 9,
        "get_state"@[0] == 'g',
        "get_available_models"@.len() == 20,
        "get_available_thinking_levels"@.len() == 29,
        "get_commands"@.len() == 12,
        "get_commands"@[4] == 'c',
        "get_messages"@.len() == 12,
        "get_messages"@[4] == 'm',
        "set_model"@.len() == 9,
        "set_model"@[0] == 's',
        "set_thinking_level"@.len() == 18,
        "new_session"@.len() == 11,
        "switch_session"@.len() == 14,
        "get_session_stats"@.len() == 17,
        "compact"@.len() == 7,
        "prompt"@.len() == 6,
{
    reveal_strlit("get_state");
    reveal_strlit("get_available_models");
    reveal_strlit("get_available_thinking_levels");
    reveal_strlit("get_commands");
    reveal_strlit("get_messages");
    reveal_strlit("set_model");
    reveal_strlit("set_thinking_level");
    reveal_strlit("new_session");
    reveal_strlit("switch_session");
    reveal_strlit("get_session_stats");
    reveal_strlit("compact");
    reveal_strlit("prompt");
}

/// A response of the child to `command`.
pub open spec fn answers(value: JsonV, command: Seq<char>) -> bool {
    value.get("type"@) == Some(JsonV::Str("response"@)) && value.get("command"@) == Some(
        JsonV::Str(command),
    )
}

/// A message goes to the child whole: its text and its image; it waits if it is to wait
/// or a run is streaming.
pub proof fn law_message_reaches_child(
    s: RpcV,
    session: Seq<char>,
    message: Seq<char>,
    image: Option<ImageAttachmentV>,
    queued: bool,
    cwd: Seq<char>,
    lang: Lang,
)
    ensures
        input_step(
            s,
            InputV::Command(CommandV::Send { session, message, image, queued }),
            cwd,
            lang,
        ) == (RpcStepV::Prompt { message, image, queued: queued || s.streaming }),
{
}

/// A command becomes one line to the child, with its arguments; directories and files are
/// looked at here; the child is started anew when that is asked for.
pub proof fn law_commands_become_lines(
    s: RpcV,
    cwd: Seq<char>,
    provider: Seq<char>,
    model_id: Seq<char>,
    level: Seq<char>,
    id: Seq<char>,
    value: Option<Seq<char>>,
    confirmed: Option<bool>,
    cancelled: bool,
    lang: Lang,
)
    ensures
        ({
            let step = |c: CommandV| input_step(s, InputV::Command(c), cwd, lang);
            let line = |text: Seq<char>| RpcStepV::Do(seq![RpcActionV::Write(text)]);
            &&& step(CommandV::SetModel { provider, model_id }) == line(
                set_model_json(provider, model_id),
            )
            &&& step(CommandV::SetThinking { level }) == line(set_thinking_json(level))
            &&& step(CommandV::Compact) == line(command_json("compact"@))
            &&& step(CommandV::FetchStats) == line(command_json("get_session_stats"@))
            &&& step(CommandV::UiRespond { id, value, confirmed, cancelled }) == line(
                object_json(answer_fields(id, value, confirmed, cancelled)),
            )
            &&& step(CommandV::NewSession { cwd }) == line(command_json("new_session"@))
            &&& id != cwd ==> step(CommandV::NewSession { cwd: id }) == RpcStepV::Restart(Some(id))
            &&& step(CommandV::Browse { path: id }) == (RpcStepV::Browse { path: id })
            &&& step(CommandV::FetchFiles { cwd: id }) == (RpcStepV::Files { cwd: id })
            &&& step(CommandV::Reconnect) == RpcStepV::Restart(None)
            &&& input_step(s, InputV::Gone, cwd, lang) is Stop
        }),
        forall|stream_ended: bool| #[trigger]
            input_step(s, InputV::Idle { stream_ended }, cwd, lang) == RpcStepV::Do(Seq::empty()),
{
}

/// A session is switched to by its own file; if no file is known yet, the directory is
/// scanned first, and if this one's is not known, that is noted.
pub proof fn law_session_is_switched_by_file(s: RpcV, id: Seq<char>, cwd: Seq<char>, lang: Lang)
    ensures
        ({
            let step = input_step(s, InputV::Command(CommandV::Watch(id)), cwd, lang);
            &&& s.paths.contains_key(id) ==> step == RpcStepV::Do(
                seq![RpcActionV::Write(switch_session_json(s.paths[id]))],
            )
            &&& s.paths == Map::<Seq<char>, Seq<char>>::empty() ==> step == (
            RpcStepV::ScanAndSwitch { id })
            &&& !s.paths.contains_key(id) && s.paths != Map::<Seq<char>, Seq<char>>::empty() ==> (
            step matches RpcStepV::Do(actions) && actions.len() == 1 && (actions[0]
                matches RpcActionV::Emit(EventV::Notice(_))))
        }),
{
    if s.paths == Map::<Seq<char>, Seq<char>>::empty() {
        assert(!Map::<Seq<char>, Seq<char>>::empty().contains_key(id));
    }
}

/// The file of a session is the one its last listing names; other sessions keep theirs.
pub proof fn law_last_listed_file_counts(
    paths: Map<Seq<char>, Seq<char>>,
    sessions: Seq<SessionInfoV>,
    one: SessionInfoV,
    other: Seq<char>,
)
    requires
        other != one.id,
    ensures
        ({
            let before = recorded(paths, sessions);
            let after = recorded(paths, sessions.push(one));
            &&& one.path matches Some(p) ==> after.contains_key(one.id) && after[one.id] == p
            &&& one.path is None ==> after == before
            &&& after.contains_key(other) == before.contains_key(other)
            &&& before.contains_key(other) ==> after[other] == before[other]
        }),
        recorded(paths, Seq::empty()) == paths,
{
    assert(sessions.push(one).drop_last() =~= sessions);
}

/// Each response is taken for what it answers: the state, the models and the levels are
/// kept, and the commands, the messages and the accounting go to the panel. No other part
/// of what is known changes.
pub proof fn law_responses_are_taken_in(s: RpcV, value: JsonV, data: JsonV, lang: Lang)
    requires
        value.get("data"@) == Some(data),
    ensures
        ({
            let (t, actions) = value_step(s, value, lang);
            &&& answers(value, "get_state"@) ==> t == (RpcV { state: Some(data), ..s })
                && actions.len() == 0
            &&& answers(value, "get_available_models"@) ==> t == (RpcV {
                models: Some(catalog_at(data, "models"@)),
                ..s
            }) && actions.len() == 0
            &&& answers(value, "get_available_thinking_levels"@) ==> t == (RpcV {
                levels: Some(data.strings("levels"@)),
                ..s
            }) && actions.len() == 0
            &&& answers(value, "get_commands"@) ==> t == s && actions == seq![
                RpcActionV::Emit(EventV::Commands(commands_in(data))),
            ]
            &&& answers(value, "get_messages"@) ==> (data.list("messages"@) matches Some(items)
                ==> t == s && actions == seq![
                RpcActionV::Emit(EventV::Replace(entries_of(items))),
            ])
            &&& answers(value, "get_session_stats"@) ==> t == s && actions == seq![
                RpcActionV::Emit(EventV::Stats(stats_of(data))),
            ]
        }),
{
    lemma_command_names();
}

/// A switch that the child has made is reported, and what may have changed with it is
/// asked for: the levels with the model, and the state, the messages and the directory
/// with the session.
pub proof fn law_switches_are_followed_up(s: RpcV, value: JsonV, data: JsonV, lang: Lang)
    requires
        value.get("data"@) == Some(data),
        value.get("success"@) == Some(JsonV::Bool(true)),
    ensures
        ({
            let (t, actions) = value_step(s, value, lang);
            &&& answers(value, "set_model"@) ==> (data.text("provider"@) matches Some(provider) ==> (
            data.text("id"@) matches Some(id) ==> t == s && actions == seq![
                RpcActionV::Emit(EventV::ModelSet { provider, id }),
                RpcActionV::Write(tagged_json("t1"@, "get_available_thinking_levels"@)),
            ]))
            &&& answers(value, "set_thinking_level"@) ==> (data.text("level"@) matches Some(level)
                ==> t == s && actions == seq![RpcActionV::Emit(EventV::ThinkingSet { level })])
            &&& answers(value, "set_thinking_level"@) ==> (data matches JsonV::Str(level) ==> t == s
                && actions == seq![RpcActionV::Emit(EventV::ThinkingSet { level })])
            &&& answers(value, "new_session"@) || answers(value, "switch_session"@) ==> t == (RpcV {
                paths_loaded: true,
                ..s
            }) && actions == seq![
                RpcActionV::Write(tagged_json("s2"@, "get_state"@)),
                RpcActionV::Write(tagged_json("m2"@, "get_messages"@)),
                RpcActionV::Scan,
            ]
            &&& answers(value, "compact"@) || answers(value, "prompt"@) ==> t == s && actions.len()
                == 0
        }),
{
    lemma_command_names();
}

/// What the child refuses is reported as failed, with its own reason, and changes nothing.
pub proof fn law_refusals_are_reported(s: RpcV, value: JsonV, why: Seq<char>, lang: Lang)
    requires
        value.get("data"@) == Some(JsonV::Str(why)),
        value.get("success"@) == Some(JsonV::Bool(false)),
    ensures
        ({
            let (t, actions) = value_step(s, value, lang);
            let failed = |zh: Seq<char>, en: Seq<char>|
                t == s && actions == seq![
                    RpcActionV::Emit(
                        EventV::SendFailed {
                            message: filled(
                                match lang {
                                    Lang::Zh => zh,
                                    Lang::En => en,
                                },
                                seq![("detail"@, why)],
                            ),
                        },
                    ),
                ];
            &&& answers(value, "prompt"@) ==> failed("发送失败：{detail}"@, "send failed: {detail}"@)
            &&& answers(value, "set_model"@) ==> failed(
                "切换模型失败：{detail}"@,
                "model switch failed: {detail}"@,
            )
            &&& answers(value, "set_thinking_level"@) ==> failed(
                "切换思考强度失败：{detail}"@,
                "thinking level switch failed: {detail}"@,
            )
            &&& answers(value, "new_session"@) || answers(value, "switch_session"@) ==> failed(
                "切换会话失败：{detail}"@,
                "session switch failed: {detail}"@,
            )
            &&& answers(value, "compact"@) ==> failed(
                "压缩失败：{detail}"@,
                "compaction failed: {detail}"@,
            )
        }),
{
    lemma_command_names();
}

/// Every event of the agent goes to the panel, in order, and only the streaming flag
/// follows it.
pub proof fn law_events_go_to_panel(s: RpcV, value: JsonV, lang: Lang)
    requires
        value.get("type"@) != Some(JsonV::Str("response"@)),
    ensures
        ({
            let (t, actions) = value_step(s, value, lang);
            let events = events_of(value, lang);
            &&& actions.len() == events.len()
            &&& forall|i: int|
                0 <= i < events.len() ==> #[trigger] actions[i] == RpcActionV::Emit(events[i])
            &&& t == (RpcV { streaming: t.streaming, ..s })
            &&& events == seq![EventV::Streaming(true)] ==> t.streaming
            &&& events == seq![EventV::Streaming(false)] ==> !t.streaming
            &&& events.len() == 0 ==> t.streaming == s.streaming
        }),
{
    reveal_strlit("");
    reveal_strlit("response");
    assert(""@.len() == 0 && "response"@.len() == 8);
    assert(value.text_or("type"@, ""@) != "response"@);
    let events = events_of(value, lang);
    let t = value_step(s, value, lang).0;
    assert(t.streaming == streaming_after(s.streaming, events));
}

/// Once the state is known the panel is told everything that is known with it: the
/// session, its directory unless that was scanned, and the models with the level in use.
pub proof fn law_ready_session_is_told_whole(s: RpcV, state: JsonV)
    requires
        s.state == Some(state),
        !s.ready_sent,
    ensures
        ({
            let (t, actions) = ready_step(s);
            let list = match s.models {
                Some(m) => m,
                None => Seq::empty(),
            };
            let thinking = state.text("thinkingLevel"@);
            let told = list.len() > 0 || thinking is Some;
            let n: int = if s.paths_loaded {
                1
            } else {
                2
            };
            &&& t == (RpcV {
                streaming: state.get("isStreaming"@) == Some(JsonV::Bool(true)),
                ready_sent: true,
                paths_loaded: true,
                ..s
            })
            &&& actions.len() == (if told {
                n + 1
            } else {
                n
            })
            &&& !s.paths_loaded ==> actions[1] is Scan
            &&& told ==> (actions[n] matches RpcActionV::Emit(
                EventV::Models { list: l, current, thinking_levels, thinking: level },
            ) && l == list && level == thinking && (state.get("model"@) matches Some(m) ==> (m.text(
                "provider"@,
            ) matches Some(a) ==> (m.text("id"@) matches Some(b) ==> current == Some((a, b)) && (
            s.levels matches Some(levels) ==> thinking_levels == seq![(a + seq![':'] + b, levels)])))))
        }),
{
    reveal_strlit(":");
    assert(":"@ =~= seq![':']);
}

/// A line of the child is its value, with or without a carriage return at its end; a
/// blank one has none.
pub proof fn law_lines_are_values(line: Seq<char>)
    ensures
        line.len() > 0 && line.last() == '\r' ==> line_value(line) == line_value(line.drop_last()),
        line.len() > 0 && line.last() != '\r' && trimmed(line).len() > 0 ==> line_value(line)
            == json_parse(line),
        trimmed(line).len() == 0 && (line.len() > 0 ==> line.last() != '\r') ==> line_value(line)
            is None,
{
}

/// The notices about a prompt come first, in order, and the prompt last.
pub proof fn law_notices_come_before_prompt(notices: Seq<Seq<char>>)
    ensures
        notice_emits(notices).len() == notices.len(),
        forall|i: int|
            0 <= i < notices.len() ==> #[trigger] notice_emits(notices)[i] == RpcActionV::Emit(
                EventV::Notice(notices[i]),
            ),
{
}

/// A line of error output is kept without the white space around it, behind the others;
/// blank ones are not, and the oldest makes room when five are kept.
pub proof fn law_newest_error_lines_are_kept(tail: Seq<Seq<char>>, line: Seq<char>)
    ensures
        trimmed(line).len() == 0 ==> tail_after_line(tail, line) == tail,
        trimmed(line).len() > 0 ==> tail_after_line(tail, line).last() == trimmed(line),
        trimmed(line).len() > 0 && tail.len() < 5 ==> tail_after_line(tail, line).drop_last()
            == tail,
        trimmed(line).len() > 0 && tail.len() == 5 ==> tail_after_line(tail, line).drop_last()
            == tail.drop_first(),
{
    if trimmed(line).len() > 0 {
        let l = trimmed(line);
        if tail.len() < 5 {
            assert(tail.push(l).drop_last() =~= tail);
        } else if tail.len() == 5 {
            assert(tail.push(l).remove(0).drop_last() =~= tail.drop_first());
        }
    }
}

/// The report of an exit holds every kept line of error output, in order, after the
/// status.
pub proof fn law_exit_tells_all_lines(tail: Seq<Seq<char>>, line: Seq<char>, status: Seq<char>, lang: Lang)
    ensures
        tail.len() > 0 ==> joined_tail(tail.push(line)) == joined_tail(tail) + seq![';', ' '] + line,
        joined_tail(seq![line]) == line,
        joined_tail(tail).len() > 0 ==> exit_message(status, tail, lang) == filled(
            match lang {
                Lang::Zh => "pi rpc 退出（{status}）：{tail}"@,
                Lang::En => "pi rpc exited ({status}): {tail}"@,
            },
            seq![("status"@, status), ("tail"@, joined_tail(tail))],
        ),
{
    reveal_strlit("; ");
    assert("; "@ =~= seq![';', ' ']);
    assert(tail.push(line).drop_last() =~= tail);
}

/// While the child is not running, what needs it is reported as failed; directories and
/// files are still looked at, and the child is started when that is asked for.
pub proof fn law_waiting_child_answers(command: CommandV, path: Seq<char>, lang: Lang)
    ensures
        retry_step(InputV::Gone, lang) is Stop,
        retry_step(InputV::Command(CommandV::Reconnect), lang) == RpcRetryV::Restart(None),
        retry_step(InputV::Command(CommandV::NewSession { cwd: path }), lang) == RpcRetryV::Restart(
            Some(path),
        ),
        retry_step(InputV::Command(CommandV::Browse { path }), lang) == (RpcRetryV::Browse { path }),
        retry_step(InputV::Command(CommandV::FetchFiles { cwd: path }), lang) == (RpcRetryV::Files {
            cwd: path,
        }),
        command is Send || command is SetModel || command is SetThinking || command is Compact
            || command is FetchStats || command is UiRespond ==> (retry_step(
            InputV::Command(command),
            lang,
        ) matches RpcRetryV::Wait(events) && events.len() == 1 && events[0] is SendFailed),
{
}

/// A refusal without a reason is reported all the same.
pub proof fn law_refusals_without_reason_are_reported(s: RpcV, value: JsonV, lang: Lang)
    requires
        value.get("data"@) is None,
        value.get("success"@) is None,
        answers(value, "prompt"@),
    ensures
        value_step(s, value, lang) == (
            s,
            seq![
                RpcActionV::Emit(
                    EventV::SendFailed {
                        message: filled(
                            match lang {
                                Lang::Zh => "发送失败：{detail}"@,
                                Lang::En => "send failed: {detail}"@,
                            },
                            seq![
                                (
                                    "detail"@,
                                    match lang {
                                        Lang::Zh => "指令被拒绝"@,
                                        Lang::En => "command rejected"@,
                                    },
                                ),
                            ],
                        ),
                    },
                ),
            ],
        ),
{
    lemma_command_names();
}

/// What cannot be done is reported in the panel's language: that a session's file is not
/// known, and that the child is not running.
pub proof fn law_failures_are_worded(
    paths: Map<Seq<char>, Seq<char>>,
    id: Seq<char>,
    command: CommandV,
    lang: Lang,
)
    requires
        !paths.contains_key(id),
        command is Send || command is SetModel || command is Compact,
    ensures
        switch_action(paths, id, lang) == RpcActionV::Emit(
            EventV::Notice(
                filled(
                    match lang {
                        Lang::Zh => "找不到会话文件：{id}"@,
                        Lang::En => "session file not found: {id}"@,
                    },
                    seq![("id"@, id)],
                ),
            ),
        ),
        retry_step(InputV::Command(command), lang) == RpcRetryV::Wait(
            seq![
                EventV::SendFailed {
                    message: match lang {
                        Lang::Zh => "尚未连接 pi（rpc）"@,
                        Lang::En => "pi (rpc) not connected"@,
                    },
                },
            ],
        ),
{
}

/// An exit without error output is reported with its status alone.
pub proof fn law_quiet_exit_is_worded(status: Seq<char>, lang: Lang)
    ensures
        exit_message(status, Seq::empty(), lang) == filled(
            match lang {
                Lang::Zh => "pi rpc 退出（{status}）"@,
                Lang::En => "pi rpc exited ({status})"@,
            },
            seq![("status"@, status)],
        ),
{
}

} // verus!
