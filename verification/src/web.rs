//! The backend that talks to a local server over HTTP: which session is
//! followed, what each command asks for, and what the answers mean.

use vstd::prelude::*;

use crate::bodies::{
    answer_body, answer_fields, command_body, command_json, is_prompt, new_session_body,
    new_session_json, prompt_body, prompt_fields, set_model_body, set_model_json, set_thinking_body,
    set_thinking_json,
};
use crate::http::{encode_query, encoded, Request, RequestV, Response, ResponseV};
use crate::json::{
    collect_strings, items_view, json_error, json_parse, json_view, members_view, object_json,
    parse_json, parse_or_error, strings_of, Json, JsonV,
};
use crate::lang::{filled, pick, tr, tr_one, Lang};
use crate::protocol::{
    Command, CommandV, Entry, Event, EventV, ImageAttachment, ImageAttachmentV, SessionInfo,
    SessionInfoV, Status, StatusV,
};
use crate::sessions::{parse_sessions, sessions_in};
use crate::text::{decimal, decimal_text, same};
use crate::wire::{
    catalog_at, commands_in, model_ids, no_event, one_event, parse_commands, parse_stats,
    read_catalog, read_model_ids, stats_of,
};

verus! {

broadcast use crate::model::group_views;

/// What came of a request: an answer, or why there is none.
#[derive(Debug, PartialEq)]
pub enum Reply {
    Answer(Response),
    Failed(String),
}

/// Model of [`Reply`].
pub enum ReplyV {
    Answer(ResponseV),
    Failed(Seq<char>),
}

impl DeepView for Reply {
    type V = ReplyV;

    open spec fn deep_view(&self) -> ReplyV {
        match self {
            Reply::Answer(r) => ReplyV::Answer(r.deep_view()),
            Reply::Failed(e) => ReplyV::Failed(e@),
        }
    }
}

/// A status that reports success.
pub open spec fn is_ok(status: u16) -> bool {
    200 <= status < 300
}

/// What a rejecting answer says: its `error` text, or else its status.
pub open spec fn detail_of(r: ResponseV) -> Seq<char> {
    let error = match json_parse(r.body) {
        Some(j) => j.text("error"@),
        None => None,
    };
    match error {
        Some(e) => e,
        None => "HTTP "@ + decimal(r.status as nat),
    }
}

/// Why a request failed; nothing if it succeeded.
pub open spec fn failure_of(reply: ReplyV) -> Option<Seq<char>> {
    match reply {
        ReplyV::Answer(r) => if is_ok(r.status) {
            None
        } else {
            Some(detail_of(r))
        },
        ReplyV::Failed(e) => Some(e),
    }
}

fn ok_status(status: u16) -> (r: bool)
    ensures
        r == is_ok(status),
{
    200 <= status && status < 300
}

/// What a rejecting answer says: its `error` text, or else its status.
pub fn error_detail(r: &Response) -> (out: String)
    ensures
        out@ == detail_of(r.deep_view()),
{
    if let Some(j) = parse_json(r.body.as_str()) {
        if let Some(e) = j.text("error") {
            return e.to_owned();
        }
    }
    let mut out = "HTTP ".to_owned();
    out.append(decimal_text(r.status as u64).as_str());
    out
}

/// Why a request failed; nothing if it succeeded.
pub fn failure(reply: &Reply) -> (out: Option<String>)
    ensures
        out.deep_view() == failure_of(reply.deep_view()),
{
    match reply {
        Reply::Answer(r) => if ok_status(r.status) {
            None
        } else {
            Some(error_detail(r))
        },
        Reply::Failed(e) => Some(e.clone()),
    }
}

// ── Requests ────────────────────────────────────────────────────────────────

/// A request without a body.
pub open spec fn get_of(path: Seq<char>) -> RequestV {
    RequestV { method: "GET"@, path, body: None }
}

/// A request that posts `body`.
pub open spec fn post_of(path: Seq<char>, body: Seq<char>) -> RequestV {
    RequestV { method: "POST"@, path, body: Some(body) }
}

/// Where a session is addressed.
pub open spec fn agent_path(session: Seq<char>) -> Seq<char> {
    "/api/agent/"@ + session
}

fn get(path: String) -> (out: Request)
    ensures
        out.deep_view() == get_of(path@),
{
    Request { method: "GET".to_owned(), path, body: None }
}

fn post(path: String, body: String) -> (out: Request)
    ensures
        out.deep_view() == post_of(path@, body@),
{
    Request { method: "POST".to_owned(), path, body: Some(body) }
}

fn path_of(session: &str) -> (out: String)
    ensures
        out@ == agent_path(session@),
{
    let mut out = "/api/agent/".to_owned();
    out.append(session);
    out
}

/// The request for the session list.
pub fn sessions_request() -> (out: Request)
    ensures
        out.deep_view() == get_of("/api/sessions"@),
{
    get("/api/sessions".to_owned())
}

/// The request for the model catalog.
pub fn models_request() -> (out: Request)
    ensures
        out.deep_view() == get_of("/api/models"@),
{
    get("/api/models".to_owned())
}

/// The request for the state of a session.
pub fn state_request(session: &str) -> (out: Request)
    ensures
        out.deep_view() == get_of(agent_path(session@)),
{
    get(path_of(session))
}

/// The request for the slash commands of a session.
pub fn commands_request(session: &str) -> (out: Request)
    ensures
        out.deep_view() == post_of(agent_path(session@), command_json("get_commands"@)),
{
    post(path_of(session), command_body("get_commands"))
}

/// All images of a prompt: the attached one, then those of its references.
pub open spec fn all_images(
    image: Option<ImageAttachmentV>,
    extra: Seq<ImageAttachmentV>,
) -> Seq<ImageAttachmentV> {
    match image {
        Some(i) => seq![i] + extra,
        None => extra,
    }
}

/// All images of a prompt: the attached one, then those of its references.
pub fn gather_images(image: Option<ImageAttachment>, extra: Vec<ImageAttachment>) -> (out: Vec<
    ImageAttachment,
>)
    ensures
        out.deep_view() == all_images(image.deep_view(), extra.deep_view()),
{
    let mut out = extra;
    if let Some(i) = image {
        out.insert(0, i);
        assert(out.deep_view() =~= seq![i.deep_view()] + extra.deep_view());
    }
    out
}

/// The request that sends a prompt. While a run is streaming every prompt is
/// queued behind it.
pub fn prompt_request(
    session: &str,
    message: &str,
    image: Option<ImageAttachment>,
    extra: Vec<ImageAttachment>,
    queued: bool,
    streaming: bool,
) -> (out: Request)
    ensures
        ({
            let images = all_images(image.deep_view(), extra.deep_view());
            &&& out.deep_view() == post_of(
                agent_path(session@),
                object_json(prompt_fields(message@, images, queued || streaming)),
            )
            &&& json_parse(out.body->0@) is Some
            &&& is_prompt(json_parse(out.body->0@)->0, message@, images, queued || streaming)
        }),
{
    let images = gather_images(image, extra);
    post(path_of(session), prompt_body(message, &images, queued || streaming))
}

// ── Commands ────────────────────────────────────────────────────────────────

/// What a request was for.
#[derive(Debug, PartialEq)]
pub enum Purpose {
    Model { provider: String, model_id: String },
    Thinking { level: String },
    Ui,
    Compact,
    Stats,
    Browse { path: String },
    Files { cwd: String },
    NewSession,
}

/// Model of [`Purpose`].
pub enum PurposeV {
    Model { provider: Seq<char>, model_id: Seq<char> },
    Thinking { level: Seq<char> },
    Ui,
    Compact,
    Stats,
    Browse { path: Seq<char> },
    Files { cwd: Seq<char> },
    NewSession,
}

impl DeepView for Purpose {
    type V = PurposeV;

    open spec fn deep_view(&self) -> PurposeV {
        match self {
            Purpose::Model { provider, model_id } => PurposeV::Model {
                provider: provider@,
                model_id: model_id@,
            },
            Purpose::Thinking { level } => PurposeV::Thinking { level: level@ },
            Purpose::Ui => PurposeV::Ui,
            Purpose::Compact => PurposeV::Compact,
            Purpose::Stats => PurposeV::Stats,
            Purpose::Browse { path } => PurposeV::Browse { path: path@ },
            Purpose::Files { cwd } => PurposeV::Files { cwd: cwd@ },
            Purpose::NewSession => PurposeV::NewSession,
        }
    }
}

/// What the worker waits for: a command of the panel, some time without one, or
/// that the panel is gone.
#[derive(Debug, PartialEq)]
pub enum Input {
    Command(Command),
    /// No command came; `stream_ended` says whether the event stream is over.
    Idle { stream_ended: bool },
    Gone,
}

/// Model of [`Input`].
pub enum InputV {
    Command(CommandV),
    Idle { stream_ended: bool },
    Gone,
}

impl DeepView for Input {
    type V = InputV;

    open spec fn deep_view(&self) -> InputV {
        match self {
            Input::Command(c) => InputV::Command(c.deep_view()),
            Input::Idle { stream_ended } => InputV::Idle { stream_ended: *stream_ended },
            Input::Gone => InputV::Gone,
        }
    }
}

/// What the worker does next while it follows a session.
#[derive(Debug, PartialEq)]
pub enum WebStep {
    /// Wait for the next input.
    Wait,
    /// Expand the message's references and send it.
    Prompt { session: String, message: String, image: Option<ImageAttachment>, queued: bool },
    /// Make a request; its reply is handled according to its purpose.
    Ask { request: Request, purpose: Purpose },
    /// Drop the stream and connect anew.
    Reconnect,
}

/// Model of [`WebStep`].
pub enum WebStepV {
    Wait,
    Prompt {
        session: Seq<char>,
        message: Seq<char>,
        image: Option<ImageAttachmentV>,
        queued: bool,
    },
    Ask { request: RequestV, purpose: PurposeV },
    Reconnect,
}

impl DeepView for WebStep {
    type V = WebStepV;

    open spec fn deep_view(&self) -> WebStepV {
        match self {
            WebStep::Wait => WebStepV::Wait,
            WebStep::Prompt { session, message, image, queued } => WebStepV::Prompt {
                session: session@,
                message: message@,
                image: image.deep_view(),
                queued: *queued,
            },
            WebStep::Ask { request, purpose } => WebStepV::Ask {
                request: request.deep_view(),
                purpose: purpose.deep_view(),
            },
            WebStep::Reconnect => WebStepV::Reconnect,
        }
    }
}

/// What a command asks for while `active` is followed.
pub open spec fn command_step(command: CommandV, active: Seq<char>) -> WebStepV {
    match command {
        CommandV::Send { session, message, image, queued } => WebStepV::Prompt {
            session,
            message,
            image,
            queued,
        },
        CommandV::SetModel { provider, model_id } => WebStepV::Ask {
            request: post_of(agent_path(active), set_model_json(provider, model_id)),
            purpose: PurposeV::Model { provider, model_id },
        },
        CommandV::SetThinking { level } => WebStepV::Ask {
            request: post_of(agent_path(active), set_thinking_json(level)),
            purpose: PurposeV::Thinking { level },
        },
        CommandV::UiRespond { id, value, confirmed, cancelled } => WebStepV::Ask {
            request: post_of(
                agent_path(active),
                object_json(answer_fields(id, value, confirmed, cancelled)),
            ),
            purpose: PurposeV::Ui,
        },
        CommandV::Compact => WebStepV::Ask {
            request: post_of(agent_path(active), command_json("compact"@)),
            purpose: PurposeV::Compact,
        },
        CommandV::FetchStats => WebStepV::Ask {
            request: post_of(agent_path(active), command_json("get_session_stats"@)),
            purpose: PurposeV::Stats,
        },
        CommandV::Browse { path } => WebStepV::Ask {
            request: get_of(
                "/api/cwd/browse?path="@ + encoded(vstd::utf8::encode_utf8(path)),
            ),
            purpose: PurposeV::Browse { path },
        },
        CommandV::FetchFiles { cwd } => WebStepV::Ask {
            request: get_of("/api/file-index?cwd="@ + encoded(vstd::utf8::encode_utf8(cwd))),
            purpose: PurposeV::Files { cwd },
        },
        CommandV::NewSession { cwd } => WebStepV::Ask {
            request: post_of("/api/agent/new"@, new_session_json(cwd)),
            purpose: PurposeV::NewSession,
        },
        CommandV::Watch(_) => WebStepV::Reconnect,
        CommandV::Reconnect => WebStepV::Reconnect,
    }
}

/// What an input leads to while `active` is followed.
pub open spec fn input_step(input: InputV, active: Seq<char>) -> WebStepV {
    match input {
        InputV::Command(c) => command_step(c, active),
        InputV::Idle { stream_ended } => if stream_ended {
            WebStepV::Reconnect
        } else {
            WebStepV::Wait
        },
        InputV::Gone => WebStepV::Reconnect,
    }
}

/// The session to watch after an input: one that the user picked, if it is not
/// followed already.
pub open spec fn watch_after(
    watch: Option<Seq<char>>,
    input: InputV,
    active: Seq<char>,
) -> Option<Seq<char>> {
    match input {
        InputV::Command(CommandV::Watch(id)) => if id != active {
            Some(id)
        } else {
            watch
        },
        _ => watch,
    }
}

/// Handles one input while `active` is followed.
pub fn on_input(input: Input, active: &str, watch: &mut Option<String>) -> (out: WebStep)
    ensures
        out.deep_view() == input_step(input.deep_view(), active@),
        final(watch).deep_view() == watch_after(
            old(watch).deep_view(),
            input.deep_view(),
            active@,
        ),
{
    let command = match input {
        Input::Command(c) => c,
        Input::Idle { stream_ended } => {
            return if stream_ended {
                WebStep::Reconnect
            } else {
                WebStep::Wait
            };
        },
        Input::Gone => {
            return WebStep::Reconnect;
        },
    };
    match command {
        Command::Send { session, message, image, queued } => WebStep::Prompt {
            session,
            message,
            image,
            queued,
        },
        Command::SetModel { provider, model_id } => {
            let body = set_model_body(provider.as_str(), model_id.as_str());
            WebStep::Ask {
                request: post(path_of(active), body),
                purpose: Purpose::Model { provider, model_id },
            }
        },
        Command::SetThinking { level } => {
            let body = set_thinking_body(level.as_str());
            WebStep::Ask {
                request: post(path_of(active), body),
                purpose: Purpose::Thinking { level },
            }
        },
        Command::UiRespond { id, value, confirmed, cancelled } => {
            let body = answer_body(id.as_str(), &value, confirmed, cancelled);
            WebStep::Ask { request: post(path_of(active), body), purpose: Purpose::Ui }
        },
        Command::Compact => WebStep::Ask {
            request: post(path_of(active), command_body("compact")),
            purpose: Purpose::Compact,
        },
        Command::FetchStats => WebStep::Ask {
            request: post(path_of(active), command_body("get_session_stats")),
            purpose: Purpose::Stats,
        },
        Command::Browse { path } => {
            let mut target = "/api/cwd/browse?path=".to_owned();
            target.append(encode_query(path.as_str()).as_str());
            WebStep::Ask { request: get(target), purpose: Purpose::Browse { path } }
        },
        Command::FetchFiles { cwd } => {
            let mut target = "/api/file-index?cwd=".to_owned();
            target.append(encode_query(cwd.as_str()).as_str());
            WebStep::Ask { request: get(target), purpose: Purpose::Files { cwd } }
        },
        Command::NewSession { cwd } => WebStep::Ask {
            request: post("/api/agent/new".to_owned(), new_session_body(cwd.as_str())),
            purpose: Purpose::NewSession,
        },
        Command::Watch(id) => {
            if !same(id.as_str(), active) {
                *watch = Some(id);
            }
            WebStep::Reconnect
        },
        Command::Reconnect => WebStep::Reconnect,
    }
}

// ── Replies ─────────────────────────────────────────────────────────────────

/// A rejected command.
pub open spec fn rejected(lang: Lang, zh: Seq<char>, en: Seq<char>, key: Seq<char>, why: Seq<char>) -> EventV {
    EventV::SendFailed { message: filled(pick(lang, zh, en), seq![(key, why)]) }
}

fn reject(lang: Lang, zh: &str, en: &str, key: &str, why: &str) -> (out: Event)
    ensures
        out.deep_view() == rejected(lang, zh@, en@, key@, why@),
{
    Event::SendFailed { message: tr_one(lang, zh, en, key, why) }
}

/// The answer of a bare command as JSON, or why there is none.
pub open spec fn command_answer(reply: ReplyV) -> Result<JsonV, Seq<char>> {
    match failure_of(reply) {
        Some(why) => Err(why),
        None => match reply {
            ReplyV::Answer(r) => match json_parse(r.body) {
                Some(j) => Ok(j),
                None => Err(json_error(r.body)),
            },
            ReplyV::Failed(e) => Err(e),
        },
    }
}

fn answer_json(reply: &Reply) -> (out: Result<Json, String>)
    ensures
        match out {
            Ok(j) => command_answer(reply.deep_view()) == Ok::<JsonV, Seq<char>>(j.deep_view()),
            Err(e) => command_answer(reply.deep_view()) == Err::<JsonV, Seq<char>>(e@),
        },
{
    match failure(reply) {
        Some(why) => Err(why),
        None => match reply {
            Reply::Answer(r) => parse_or_error(r.body.as_str()),
            Reply::Failed(e) => Err(e.clone()),
        },
    }
}

/// The model a successful switch reports; the requested one if it reports none.
pub open spec fn confirmed_model(
    body: Seq<char>,
    provider: Seq<char>,
    model_id: Seq<char>,
) -> EventV {
    let reported = match json_parse(body) {
        Some(j) => model_ids(j.at("data"@)),
        None => None,
    };
    match reported {
        Some((p, i)) => EventV::ModelSet { provider: p, id: i },
        None => EventV::ModelSet { provider, id: model_id },
    }
}

/// A directory of a listing; it needs a name and a path.
pub open spec fn listed_dir(d: JsonV) -> Option<(Seq<char>, Seq<char>)> {
    match (d.text("name"@), d.text("path"@)) {
        (Some(name), Some(path)) => Some((name, path)),
        _ => None,
    }
}

/// The directories among `items`.
pub open spec fn listed_dirs(items: Seq<JsonV>) -> Seq<(Seq<char>, Seq<char>)>
    decreases items.len(),
{
    if items.len() == 0 {
        Seq::empty()
    } else {
        match listed_dir(items.last()) {
            Some(d) => listed_dirs(items.drop_last()).push(d),
            None => listed_dirs(items.drop_last()),
        }
    }
}

/// What a directory listing answers.
pub open spec fn browse_events(path: Seq<char>, reply: ReplyV) -> Seq<EventV> {
    match reply {
        ReplyV::Failed(_) => Seq::empty(),
        ReplyV::Answer(r) => if !is_ok(r.status) {
            seq![EventV::DirListing { path, parent: None, dirs: Seq::empty() }]
        } else {
            match json_parse(r.body) {
                None => Seq::empty(),
                Some(v) => seq![
                    EventV::DirListing {
                        path: v.text_or("path"@, path),
                        parent: v.text("parentPath"@),
                        dirs: match v.list("directories"@) {
                            Some(items) => listed_dirs(items),
                            None => Seq::empty(),
                        },
                    },
                ],
            }
        },
    }
}

/// What a file index answers.
pub open spec fn files_events(cwd: Seq<char>, reply: ReplyV) -> Seq<EventV> {
    match reply {
        ReplyV::Failed(_) => Seq::empty(),
        ReplyV::Answer(r) => if !is_ok(r.status) {
            Seq::empty()
        } else {
            seq![
                EventV::Files {
                    cwd,
                    files: match json_parse(r.body) {
                        Some(v) => v.strings("files"@),
                        None => Seq::empty(),
                    },
                },
            ]
        },
    }
}

/// The id of a fresh session, or why there is none.
pub open spec fn fresh_session(reply: ReplyV, lang: Lang) -> Result<Seq<char>, Seq<char>> {
    match failure_of(reply) {
        Some(why) => Err(why),
        None => match reply {
            ReplyV::Answer(r) => match json_parse(r.body) {
                Some(j) => match j.text("sessionId"@) {
                    Some(id) => Ok(id),
                    None => Err(
                        pick(lang, "响应缺少 sessionId"@, "response is missing sessionId"@),
                    ),
                },
                None => Err(pick(lang, "响应缺少 sessionId"@, "response is missing sessionId"@)),
            },
            ReplyV::Failed(e) => Err(e),
        },
    }
}

/// The events a reply leads to.
pub open spec fn reply_events(purpose: PurposeV, reply: ReplyV, lang: Lang) -> Seq<EventV> {
    match purpose {
        PurposeV::Model { provider, model_id } => match failure_of(reply) {
            Some(why) => seq![
                rejected(
                    lang,
                    "切换模型失败：{message}"@,
                    "model switch failed: {message}"@,
                    "message"@,
                    why,
                ),
            ],
            None => seq![confirmed_model(reply->Answer_0.body, provider, model_id)],
        },
        PurposeV::Thinking { level } => match reply {
            ReplyV::Answer(r) => if is_ok(r.status) {
                seq![EventV::ThinkingSet { level }]
            } else {
                seq![
                    rejected(
                        lang,
                        "切换思考强度失败：{detail}"@,
                        "thinking level switch failed: {detail}"@,
                        "detail"@,
                        detail_of(r),
                    ),
                ]
            },
            ReplyV::Failed(e) => seq![
                rejected(
                    lang,
                    "切换思考强度失败：{e}"@,
                    "thinking level switch failed: {e}"@,
                    "e"@,
                    e,
                ),
            ],
        },
        PurposeV::Ui => match reply {
            ReplyV::Answer(_) => Seq::empty(),
            ReplyV::Failed(e) => seq![
                EventV::Notice(
                    filled(
                        pick(lang, "提交确认失败：{e}"@, "confirmation submit failed: {e}"@),
                        seq![("e"@, e)],
                    ),
                ),
            ],
        },
        PurposeV::Compact => match command_answer(reply) {
            Ok(_) => Seq::empty(),
            Err(e) => seq![
                rejected(lang, "压缩失败：{e}"@, "compaction failed: {e}"@, "e"@, e),
            ],
        },
        PurposeV::Stats => match command_answer(reply) {
            Ok(j) => seq![
                EventV::Stats(
                    stats_of(
                        match j.get("data"@) {
                            Some(d) => d,
                            None => j,
                        },
                    ),
                ),
            ],
            Err(_) => Seq::empty(),
        },
        PurposeV::Browse { path } => browse_events(path, reply),
        PurposeV::Files { cwd } => files_events(cwd, reply),
        PurposeV::NewSession => match fresh_session(reply, lang) {
            Ok(_) => Seq::empty(),
            Err(e) => seq![
                rejected(lang, "新建会话失败：{e}"@, "new session failed: {e}"@, "e"@, e),
            ],
        },
    }
}

/// The session to watch after a reply: a fresh one.
pub open spec fn watch_after_reply(
    watch: Option<Seq<char>>,
    purpose: PurposeV,
    reply: ReplyV,
    lang: Lang,
) -> Option<Seq<char>> {
    match purpose {
        PurposeV::NewSession => match fresh_session(reply, lang) {
            Ok(id) => Some(id),
            Err(_) => watch,
        },
        _ => watch,
    }
}

/// Whether the connection is made anew after a reply: a session was asked for,
/// and the list of sessions may have changed.
pub open spec fn ends_connection(purpose: PurposeV) -> bool {
    purpose is NewSession
}

/// Whether the connection is made anew after the reply to a request.
pub fn is_last_reply(purpose: &Purpose) -> (r: bool)
    ensures
        r == ends_connection(purpose.deep_view()),
{
    match purpose {
        Purpose::NewSession => true,
        _ => false,
    }
}

fn model_reply(provider: String, model_id: String, reply: &Reply, lang: Lang) -> (out: Vec<Event>)
    ensures
        out.deep_view() == reply_events(
            PurposeV::Model { provider: provider@, model_id: model_id@ },
            reply.deep_view(),
            lang,
        ),
{
    match reply {
        Reply::Answer(r) => {
            if !ok_status(r.status) {
                return one_event(
                    reject(
                        lang,
                        "切换模型失败：{message}",
                        "model switch failed: {message}",
                        "message",
                        error_detail(r).as_str(),
                    ),
                );
            }
            if let Some(j) = parse_json(r.body.as_str()) {
                let null = Json::Null;
                if let Some((p, i)) = read_model_ids(j.get("data").unwrap_or(&null)) {
                    return one_event(Event::ModelSet { provider: p, id: i });
                }
            }
            one_event(Event::ModelSet { provider, id: model_id })
        },
        Reply::Failed(e) => one_event(
            reject(
                lang,
                "切换模型失败：{message}",
                "model switch failed: {message}",
                "message",
                e.as_str(),
            ),
        ),
    }
}

fn thinking_reply(level: String, reply: &Reply, lang: Lang) -> (out: Vec<Event>)
    ensures
        out.deep_view() == reply_events(
            PurposeV::Thinking { level: level@ },
            reply.deep_view(),
            lang,
        ),
{
    match reply {
        Reply::Answer(r) => if ok_status(r.status) {
            one_event(Event::ThinkingSet { level })
        } else {
            one_event(
                reject(
                    lang,
                    "切换思考强度失败：{detail}",
                    "thinking level switch failed: {detail}",
                    "detail",
                    error_detail(r).as_str(),
                ),
            )
        },
        Reply::Failed(e) => one_event(
            reject(
                lang,
                "切换思考强度失败：{e}",
                "thinking level switch failed: {e}",
                "e",
                e.as_str(),
            ),
        ),
    }
}

fn browse_reply(path: String, reply: &Reply) -> (out: Vec<Event>)
    ensures
        out.deep_view() == browse_events(path@, reply.deep_view()),
{
    let r = match reply {
        Reply::Answer(r) => r,
        Reply::Failed(_) => {
            return no_event();
        },
    };
    let mut dirs: Vec<(String, String)> = Vec::new();
    if !ok_status(r.status) {
        return one_event(Event::DirListing { path, parent: None, dirs });
    }
    let v = match parse_json(r.body.as_str()) {
        Some(v) => v,
        None => {
            return no_event();
        },
    };
    if let Some(items) = v.list("directories") {
        let ghost all = items_view(items@);
        assert(all.take(0) =~= Seq::empty());
        let mut i: usize = 0;
        while i < items.len()
            invariant
                i <= items@.len(),
                all == items_view(items@),
                dirs.deep_view() == listed_dirs(all.take(i as int)),
            decreases items@.len() - i,
        {
            assert(all.take(i + 1).drop_last() =~= all.take(i as int));
            assert(all.take(i + 1).last() == json_view(items@[i as int]));
            if let Some(name) = items[i].text("name") {
                if let Some(target) = items[i].text("path") {
                    dirs.push((name.to_owned(), target.to_owned()));
                }
            }
            i += 1;
        }
        assert(all.take(i as int) =~= all);
    }
    one_event(
        Event::DirListing {
            path: v.text_or("path", path.as_str()),
            parent: v.owned("parentPath"),
            dirs,
        },
    )
}

fn files_reply(cwd: String, reply: &Reply) -> (out: Vec<Event>)
    ensures
        out.deep_view() == files_events(cwd@, reply.deep_view()),
{
    match reply {
        Reply::Answer(r) => {
            if !ok_status(r.status) {
                return no_event();
            }
            let files: Vec<String> = match parse_json(r.body.as_str()) {
                Some(v) => v.strings("files"),
                None => Vec::new(),
            };
            one_event(Event::Files { cwd, files })
        },
        Reply::Failed(_) => no_event(),
    }
}

fn read_fresh_session(reply: &Reply, lang: Lang) -> (out: Result<String, String>)
    ensures
        match out {
            Ok(id) => fresh_session(reply.deep_view(), lang) == Ok::<Seq<char>, Seq<char>>(id@),
            Err(e) => fresh_session(reply.deep_view(), lang) == Err::<Seq<char>, Seq<char>>(e@),
        },
{
    if let Some(why) = failure(reply) {
        return Err(why);
    }
    match reply {
        Reply::Answer(r) => {
            if let Some(j) = parse_json(r.body.as_str()) {
                if let Some(id) = j.text("sessionId") {
                    return Ok(id.to_owned());
                }
            }
            Err(tr(lang, "响应缺少 sessionId", "response is missing sessionId").to_owned())
        },
        Reply::Failed(e) => Err(e.clone()),
    }
}

/// Handles the reply to a request. A fresh session becomes the one to watch.
pub fn on_reply(purpose: Purpose, reply: &Reply, lang: Lang, watch: &mut Option<String>) -> (out:
    Vec<Event>)
    ensures
        out.deep_view() == reply_events(purpose.deep_view(), reply.deep_view(), lang),
        final(watch).deep_view() == watch_after_reply(
            old(watch).deep_view(),
            purpose.deep_view(),
            reply.deep_view(),
            lang,
        ),
{
    match purpose {
        Purpose::Model { provider, model_id } => model_reply(provider, model_id, reply, lang),
        Purpose::Thinking { level } => thinking_reply(level, reply, lang),
        Purpose::Ui => match reply {
            Reply::Answer(_) => no_event(),
            Reply::Failed(e) => one_event(
                Event::Notice(
                    tr_one(
                        lang,
                        "提交确认失败：{e}",
                        "confirmation submit failed: {e}",
                        "e",
                        e.as_str(),
                    ),
                ),
            ),
        },
        Purpose::Compact => match answer_json(reply) {
            Ok(_) => no_event(),
            Err(e) => one_event(
                reject(lang, "压缩失败：{e}", "compaction failed: {e}", "e", e.as_str()),
            ),
        },
        Purpose::Stats => match answer_json(reply) {
            Ok(j) => one_event(Event::Stats(parse_stats(j.get("data").unwrap_or(&j)))),
            Err(_) => no_event(),
        },
        Purpose::Browse { path } => browse_reply(path, reply),
        Purpose::Files { cwd } => files_reply(cwd, reply),
        Purpose::NewSession => match read_fresh_session(reply, lang) {
            Ok(id) => {
                *watch = Some(id);
                no_event()
            },
            Err(e) => one_event(
                reject(lang, "新建会话失败：{e}", "new session failed: {e}", "e", e.as_str()),
            ),
        },
    }
}

/// The events the reply to a prompt leads to.
pub open spec fn prompt_events(reply: ReplyV) -> Seq<EventV> {
    match failure_of(reply) {
        Some(why) => seq![EventV::SendFailed { message: why }],
        None => Seq::empty(),
    }
}

/// The events the reply to a prompt leads to: none if it was accepted, and the
/// reason if not.
pub fn on_prompt_reply(reply: &Reply) -> (out: Vec<Event>)
    ensures
        out.deep_view() == prompt_events(reply.deep_view()),
{
    match failure(reply) {
        Some(why) => one_event(Event::SendFailed { message: why }),
        None => no_event(),
    }
}

/// The thinking levels per model: the members of an object, each a list of
/// texts.
pub open spec fn levels_of(members: Seq<(Seq<char>, JsonV)>) -> Seq<(Seq<char>, Seq<Seq<char>>)> {
    members.map_values(
        |m: (Seq<char>, JsonV)|
            (
                m.0,
                match m.1.as_array() {
                    Some(items) => strings_of(items),
                    None => Seq::empty(),
                },
            ),
    )
}

/// The thinking levels in a catalog.
pub open spec fn catalog_levels(catalog: JsonV) -> Seq<(Seq<char>, Seq<Seq<char>>)> {
    match catalog.get("thinkingLevels"@) {
        Some(JsonV::Object(members)) => levels_of(members),
        _ => Seq::empty(),
    }
}

/// The body of an answer as JSON, whatever its status.
pub open spec fn body_json(reply: ReplyV) -> Option<JsonV> {
    match reply {
        ReplyV::Answer(r) => json_parse(r.body),
        ReplyV::Failed(_) => None,
    }
}

/// The model catalog and what the session uses of it. A catalog without a model
/// says nothing.
pub open spec fn models_events(catalog: ReplyV, state: ReplyV) -> Seq<EventV> {
    match body_json(catalog) {
        None => Seq::empty(),
        Some(c) => {
            let list = catalog_at(c, "modelList"@);
            if list.len() == 0 {
                Seq::empty()
            } else {
                let s = match body_json(state) {
                    Some(v) => v.at("state"@),
                    None => JsonV::Null,
                };
                seq![
                    EventV::Models {
                        list,
                        current: model_ids(s.at("model"@)),
                        thinking_levels: catalog_levels(c),
                        thinking: s.text("thinkingLevel"@),
                    },
                ]
            }
        },
    }
}

fn read_levels(catalog: &Json) -> (out: Vec<(String, Vec<String>)>)
    ensures
        out.deep_view() == catalog_levels(catalog.deep_view()),
{
    let mut out: Vec<(String, Vec<String>)> = Vec::new();
    if let Some(Json::Object(members)) = catalog.get("thinkingLevels") {
        let ghost all = members_view(members@);
        let mut i: usize = 0;
        while i < members.len()
            invariant
                i <= members@.len(),
                all == members_view(members@),
                out.deep_view() == levels_of(all.take(i as int)),
            decreases members@.len() - i,
        {
            let levels: Vec<String> = match members[i].1.as_array() {
                Some(items) => collect_strings(items),
                None => Vec::new(),
            };
            out.push((members[i].0.clone(), levels));
            assert(all.take(i + 1) =~= all.take(i as int).push(all[i as int]));
            assert(all[i as int] == (members@[i as int].0@, json_view(members@[i as int].1)));
            assert(out.deep_view() =~= levels_of(all.take(i + 1)));
            i += 1;
        }
        assert(all.take(i as int) =~= all);
        assert(catalog.deep_view().get("thinkingLevels"@) == Some(JsonV::Object(all)));
    }
    out
}

/// Whether a catalog answer lists a model, so that the session's state is worth
/// asking for.
pub fn has_models(catalog: &Reply) -> (r: bool)
    ensures
        r == (body_json(catalog.deep_view()) matches Some(c) && catalog_at(c, "modelList"@).len()
            > 0),
{
    match catalog {
        Reply::Answer(a) => match parse_json(a.body.as_str()) {
            Some(c) => {
                let list = read_catalog(&c, "modelList");
                assert(list.deep_view().len() == list@.len());
                list.len() > 0
            },
            None => false,
        },
        Reply::Failed(_) => false,
    }
}

/// The model catalog, with the model and the thinking level that the session
/// uses.
pub fn on_models(catalog: &Reply, state: &Reply) -> (out: Vec<Event>)
    ensures
        out.deep_view() == models_events(catalog.deep_view(), state.deep_view()),
{
    let c = match catalog {
        Reply::Answer(a) => match parse_json(a.body.as_str()) {
            Some(c) => c,
            None => {
                return no_event();
            },
        },
        Reply::Failed(_) => {
            return no_event();
        },
    };
    let list = read_catalog(&c, "modelList");
    assert(list.deep_view().len() == list@.len());
    if list.len() == 0 {
        return no_event();
    }
    let thinking_levels = read_levels(&c);
    let null = Json::Null;
    let answer: Option<Json> = match state {
        Reply::Answer(a) => parse_json(a.body.as_str()),
        Reply::Failed(_) => None,
    };
    let s = match &answer {
        Some(v) => v.get("state").unwrap_or(&null),
        None => &null,
    };
    let current = read_model_ids(s.get("model").unwrap_or(&null));
    let thinking = s.owned("thinkingLevel");
    one_event(Event::Models { list, current, thinking_levels, thinking })
}

/// The slash commands an answer lists; a failed request says nothing.
pub fn on_commands(reply: &Reply) -> (out: Vec<Event>)
    ensures
        out.deep_view() == match reply.deep_view() {
            ReplyV::Answer(r) => if is_ok(r.status) {
                seq![
                    EventV::Commands(
                        match json_parse(r.body) {
                            Some(j) => commands_in(j.at("data"@)),
                            None => Seq::empty(),
                        },
                    ),
                ]
            } else {
                Seq::empty()
            },
            ReplyV::Failed(_) => Seq::empty(),
        },
{
    match reply {
        Reply::Answer(r) => {
            if !ok_status(r.status) {
                return no_event();
            }
            match parse_json(r.body.as_str()) {
                Some(j) => {
                    let null = Json::Null;
                    one_event(
                        Event::Commands(parse_commands(j.get("data").unwrap_or(&null))),
                    )
                },
                None => one_event(Event::Commands(Vec::new())),
            }
        },
        Reply::Failed(_) => no_event(),
    }
}

// ── Connecting ──────────────────────────────────────────────────────────────

/// What is reported when a connection attempt begins.
pub fn connecting(endpoint: &str) -> (out: Vec<Event>)
    ensures
        out.deep_view() == seq![
            EventV::Status(StatusV::Connecting),
            EventV::Backend("pi-web · "@ + endpoint@),
        ],
{
    let mut label = "pi-web · ".to_owned();
    label.append(endpoint);
    let mut out: Vec<Event> = Vec::new();
    out.push(Event::Status(Status::Connecting));
    out.push(Event::Backend(label));
    assert(out.deep_view() =~= seq![
        EventV::Status(StatusV::Connecting),
        EventV::Backend("pi-web · "@ + endpoint@),
    ]);
    out
}

/// Where the session `id` stands in the list, or the length of the list.
pub open spec fn session_at(sessions: Seq<SessionInfoV>, id: Seq<char>) -> int
    decreases sessions.len(),
{
    if sessions.len() == 0 || sessions[0].id == id {
        0
    } else {
        1 + session_at(sessions.drop_first(), id)
    }
}

pub proof fn lemma_session_at(sessions: Seq<SessionInfoV>, id: Seq<char>)
    ensures
        0 <= session_at(sessions, id) <= sessions.len(),
        session_at(sessions, id) < sessions.len() ==> sessions[session_at(sessions, id)].id == id,
        forall|i: int| 0 <= i < session_at(sessions, id) ==> (#[trigger] sessions[i]).id != id,
    decreases sessions.len(),
{
    if sessions.len() > 0 && sessions[0].id != id {
        lemma_session_at(sessions.drop_first(), id);
        assert forall|i: int| 0 <= i < session_at(sessions, id) implies (
        #[trigger] sessions[i]).id != id by {
            if i > 0 {
                assert(sessions[i] == sessions.drop_first()[i - 1]);
            }
        }
    }
}

/// Index of the session `id`, or the length of the list.
pub fn find_session(sessions: &Vec<SessionInfo>, id: &str) -> (at: usize)
    ensures
        at == session_at(sessions.deep_view(), id@),
        at <= sessions@.len(),
{
    let ghost all = sessions.deep_view();
    assert(all.skip(0) =~= all);
    let mut i: usize = 0;
    while i < sessions.len()
        invariant
            i <= sessions@.len(),
            all == sessions.deep_view(),
            session_at(all, id@) == i + session_at(all.skip(i as int), id@),
        decreases sessions@.len() - i,
    {
        assert(all.skip(i as int)[0] == sessions@[i as int].deep_view());
        if same(sessions[i].id.as_str(), id) {
            return i;
        }
        assert(all.skip(i as int).drop_first() =~= all.skip(i + 1));
        i += 1;
    }
    i
}

/// Which session is followed: the watched one if it is listed, else the newest.
pub open spec fn followed(watch: Option<Seq<char>>, sessions: Seq<SessionInfoV>) -> Option<int> {
    let first = if sessions.len() > 0 {
        Some(0int)
    } else {
        None
    };
    match watch {
        Some(id) => {
            let at = session_at(sessions, id);
            if at < sessions.len() {
                Some(at)
            } else {
                first
            }
        },
        None => first,
    }
}

/// What follows from the session list.
#[derive(Debug, PartialEq)]
pub enum Follow {
    /// Report the events and try again later.
    Retry(Vec<Event>),
    /// Report the events and follow this session.
    Session { events: Vec<Event>, active: String, cwd: Option<String>, path: Option<String> },
}

/// Model of [`Follow`].
pub enum FollowV {
    Retry(Seq<EventV>),
    Session {
        events: Seq<EventV>,
        active: Seq<char>,
        cwd: Option<Seq<char>>,
        path: Option<Seq<char>>,
    },
}

impl DeepView for Follow {
    type V = FollowV;

    open spec fn deep_view(&self) -> FollowV {
        match self {
            Follow::Retry(events) => FollowV::Retry(events.deep_view()),
            Follow::Session { events, active, cwd, path } => FollowV::Session {
                events: events.deep_view(),
                active: active@,
                cwd: cwd.deep_view(),
                path: path.deep_view(),
            },
        }
    }
}

/// What follows from a session list.
pub open spec fn follow_of(
    watch: Option<Seq<char>>,
    sessions: Seq<SessionInfoV>,
    lang: Lang,
) -> FollowV {
    match followed(watch, sessions) {
        None => FollowV::Retry(
            seq![
                EventV::Sessions(sessions),
                EventV::Status(
                    StatusV::Error(pick(lang, "pi-web 没有会话"@, "pi-web has no sessions"@)),
                ),
            ],
        ),
        Some(at) => FollowV::Session {
            events: seq![
                EventV::Sessions(sessions),
                EventV::Status(
                    StatusV::Ready { session: sessions[at].id, streaming: false },
                ),
            ],
            active: sessions[at].id,
            cwd: sessions[at].cwd,
            path: sessions[at].path,
        },
    }
}

/// What follows from the reply to the request for the session list.
pub open spec fn follow_reply(watch: Option<Seq<char>>, reply: ReplyV, lang: Lang) -> FollowV {
    match reply {
        ReplyV::Failed(e) => FollowV::Retry(seq![EventV::Status(StatusV::Error(e))]),
        ReplyV::Answer(r) => if r.status == 200 {
            follow_of(watch, sessions_in(r.body), lang)
        } else {
            FollowV::Retry(
                seq![
                    EventV::Status(
                        StatusV::Error(
                            filled(
                                pick(
                                    lang,
                                    "pi-web /api/sessions 返回 {status}"@,
                                    "pi-web /api/sessions returned {status}"@,
                                ),
                                seq![("status"@, decimal(r.status as nat))],
                            ),
                        ),
                    ),
                ],
            )
        },
    }
}

/// Chooses the session to follow: an explicitly watched one beats the newest.
pub fn follow_sessions(watch: &Option<String>, sessions: Vec<SessionInfo>, lang: Lang) -> (out:
    Follow)
    ensures
        out.deep_view() == follow_of(watch.deep_view(), sessions.deep_view(), lang),
{
    let ghost all = sessions.deep_view();
    let total: usize = sessions.len();
    let at: usize = match watch {
        Some(id) => {
            let k: usize = find_session(&sessions, id.as_str());
            if k < total {
                k
            } else {
                0
            }
        },
        None => 0,
    };
    let mut events: Vec<Event> = Vec::new();
    if total == 0 {
        events.push(Event::Sessions(sessions));
        events.push(
            Event::Status(
                Status::Error(tr(lang, "pi-web 没有会话", "pi-web has no sessions").to_owned()),
            ),
        );
        assert(events.deep_view() =~= follow_of(watch.deep_view(), all, lang)->Retry_0);
        return Follow::Retry(events);
    }
    assert(followed(watch.deep_view(), all) == Some(at as int));
    assert(all[at as int] == sessions@[at as int].deep_view());
    let active = sessions[at].id.clone();
    let cwd = copy_option(&sessions[at].cwd);
    let path = copy_option(&sessions[at].path);
    let session = active.clone();
    events.push(Event::Sessions(sessions));
    events.push(Event::Status(Status::Ready { session, streaming: false }));
    assert(events.deep_view() =~= follow_of(watch.deep_view(), all, lang)->Session_events);
    Follow::Session { events, active, cwd, path }
}

/// A copy of an optional text.
pub fn copy_option(o: &Option<String>) -> (out: Option<String>)
    ensures
        out.deep_view() == o.deep_view(),
{
    match o {
        Some(s) => Some(s.clone()),
        None => None,
    }
}

/// What follows from the reply to the request for the session list.
pub fn on_sessions(watch: &Option<String>, reply: &Reply, lang: Lang) -> (out: Follow)
    ensures
        out.deep_view() == follow_reply(watch.deep_view(), reply.deep_view(), lang),
{
    match reply {
        Reply::Failed(e) => Follow::Retry(one_event(Event::Status(Status::Error(e.clone())))),
        Reply::Answer(r) => if r.status == 200 {
            follow_sessions(watch, parse_sessions(r.body.as_str()), lang)
        } else {
            Follow::Retry(
                one_event(
                    Event::Status(
                        Status::Error(
                            tr_one(
                                lang,
                                "pi-web /api/sessions 返回 {status}",
                                "pi-web /api/sessions returned {status}",
                                "status",
                                decimal_text(r.status as u64).as_str(),
                            ),
                        ),
                    ),
                ),
            )
        },
    }
}

/// The history read from a session file as events: nothing if there is none.
pub fn backfill(entries: Vec<Entry>) -> (out: Vec<Event>)
    ensures
        out.deep_view() == (if entries.deep_view().len() > 0 {
            seq![EventV::Replace(entries.deep_view())]
        } else {
            Seq::empty()
        }),
{
    assert(entries.deep_view().len() == entries@.len());
    if entries.len() > 0 {
        one_event(Event::Replace(entries))
    } else {
        no_event()
    }
}

// ── Waiting to try again ────────────────────────────────────────────────────

/// What the worker does while it waits to try again.
#[derive(Debug, PartialEq)]
pub enum RetryStep {
    /// Report the events and go on waiting.
    Wait(Vec<Event>),
    /// Send the prompt anyway: only the session list may have failed.
    Prompt { session: String, message: String, image: Option<ImageAttachment>, queued: bool },
    /// Try again now.
    Again,
    /// Leave: the panel is gone.
    Exit,
}

/// Model of [`RetryStep`].
pub enum RetryStepV {
    Wait(Seq<EventV>),
    Prompt {
        session: Seq<char>,
        message: Seq<char>,
        image: Option<ImageAttachmentV>,
        queued: bool,
    },
    Again,
    Exit,
}

impl DeepView for RetryStep {
    type V = RetryStepV;

    open spec fn deep_view(&self) -> RetryStepV {
        match self {
            RetryStep::Wait(events) => RetryStepV::Wait(events.deep_view()),
            RetryStep::Prompt { session, message, image, queued } => RetryStepV::Prompt {
                session: session@,
                message: message@,
                image: image.deep_view(),
                queued: *queued,
            },
            RetryStep::Again => RetryStepV::Again,
            RetryStep::Exit => RetryStepV::Exit,
        }
    }
}

/// A command that fails for want of a connection.
pub open spec fn offline(lang: Lang, zh: Seq<char>, en: Seq<char>) -> RetryStepV {
    RetryStepV::Wait(seq![EventV::SendFailed { message: pick(lang, zh, en) }])
}

/// What an input leads to while the worker waits to try again.
pub open spec fn retry_step(input: InputV, lang: Lang) -> RetryStepV {
    match input {
        InputV::Idle { .. } => RetryStepV::Wait(Seq::empty()),
        InputV::Gone => RetryStepV::Exit,
        InputV::Command(command) => match command {
            CommandV::Watch(_) => RetryStepV::Again,
            CommandV::Reconnect => RetryStepV::Again,
            CommandV::Send { session, message, image, queued } => RetryStepV::Prompt {
                session,
                message,
                image,
                queued,
            },
            CommandV::SetModel { .. } => offline(
                lang,
                "切换模型失败：尚未连接 pi-web"@,
                "model switch failed: pi-web not connected"@,
            ),
            CommandV::SetThinking { .. } => offline(
                lang,
                "切换思考强度失败：尚未连接 pi-web"@,
                "thinking level switch failed: pi-web not connected"@,
            ),
            CommandV::NewSession { .. } => offline(
                lang,
                "新建会话失败：尚未连接 pi-web"@,
                "new session failed: pi-web not connected"@,
            ),
            _ => RetryStepV::Wait(Seq::empty()),
        },
    }
}

/// The session to watch after an input of the waiting worker.
pub open spec fn retry_watch(watch: Option<Seq<char>>, input: InputV) -> Option<Seq<char>> {
    match input {
        InputV::Command(CommandV::Watch(id)) => Some(id),
        _ => watch,
    }
}

fn wait_with(message: &str) -> (out: RetryStep)
    ensures
        out.deep_view() == RetryStepV::Wait(seq![EventV::SendFailed { message: message@ }]),
{
    RetryStep::Wait(one_event(Event::SendFailed { message: message.to_owned() }))
}

/// Handles one input while the worker waits to try again.
pub fn on_retry(input: Input, watch: &mut Option<String>, lang: Lang) -> (out: RetryStep)
    ensures
        out.deep_view() == retry_step(input.deep_view(), lang),
        final(watch).deep_view() == retry_watch(old(watch).deep_view(), input.deep_view()),
{
    let command = match input {
        Input::Command(c) => c,
        Input::Idle { .. } => {
            return RetryStep::Wait(no_event());
        },
        Input::Gone => {
            return RetryStep::Exit;
        },
    };
    match command {
        Command::Watch(id) => {
            *watch = Some(id);
            RetryStep::Again
        },
        Command::Reconnect => RetryStep::Again,
        Command::Send { session, message, image, queued } => RetryStep::Prompt {
            session,
            message,
            image,
            queued,
        },
        Command::SetModel { .. } => wait_with(
            tr(lang, "切换模型失败：尚未连接 pi-web", "model switch failed: pi-web not connected"),
        ),
        Command::SetThinking { .. } => wait_with(
            tr(
                lang,
                "切换思考强度失败：尚未连接 pi-web",
                "thinking level switch failed: pi-web not connected",
            ),
        ),
        Command::NewSession { .. } => wait_with(
            tr(lang, "新建会话失败：尚未连接 pi-web", "new session failed: pi-web not connected"),
        ),
        Command::Browse { .. } => RetryStep::Wait(no_event()),
        Command::FetchFiles { .. } => RetryStep::Wait(no_event()),
        Command::UiRespond { .. } => RetryStep::Wait(no_event()),
        Command::Compact => RetryStep::Wait(no_event()),
        Command::FetchStats => RetryStep::Wait(no_event()),
    }
}

// ── Laws ────────────────────────────────────────────────────────────────────

/// An explicitly watched session is followed whenever it is listed, whatever is
/// newer.
pub proof fn law_watched_session_is_followed(
    id: Seq<char>,
    sessions: Seq<SessionInfoV>,
    lang: Lang,
)
    requires
        exists|i: int| 0 <= i < sessions.len() && (#[trigger] sessions[i]).id == id,
    ensures
        follow_of(Some(id), sessions, lang) matches FollowV::Session { active, .. } && active == id,
{
    lemma_session_at(sessions, id);
}

/// Without a listed watched session the newest one is followed.
pub proof fn law_newest_session_by_default(
    watch: Option<Seq<char>>,
    sessions: Seq<SessionInfoV>,
    lang: Lang,
)
    requires
        sessions.len() > 0,
        watch matches Some(id) ==> forall|i: int|
            0 <= i < sessions.len() ==> (#[trigger] sessions[i]).id != id,
    ensures
        follow_of(watch, sessions, lang) matches FollowV::Session { active, .. } && active
            == sessions[0].id,
{
    if watch is Some {
        lemma_session_at(sessions, watch->0);
    }
}

/// Picking a session makes it the one to follow at the next connection.
pub proof fn law_pick_is_followed(
    watch: Option<Seq<char>>,
    id: Seq<char>,
    active: Seq<char>,
    sessions: Seq<SessionInfoV>,
    lang: Lang,
)
    requires
        id != active,
        exists|i: int| 0 <= i < sessions.len() && (#[trigger] sessions[i]).id == id,
    ensures
        input_step(InputV::Command(CommandV::Watch(id)), active) is Reconnect,
        follow_of(
            watch_after(watch, InputV::Command(CommandV::Watch(id)), active),
            sessions,
            lang,
        ) matches FollowV::Session { active: now, .. } && now == id,
{
    lemma_session_at(sessions, id);
}

/// A fresh session is followed at the next connection, which is made at once.
pub proof fn law_fresh_session_is_followed(
    watch: Option<Seq<char>>,
    reply: ReplyV,
    sessions: Seq<SessionInfoV>,
    lang: Lang,
)
    requires
        fresh_session(reply, lang) matches Ok(id) && exists|i: int|
            0 <= i < sessions.len() && (#[trigger] sessions[i]).id == id,
    ensures
        ends_connection(PurposeV::NewSession),
        reply_events(PurposeV::NewSession, reply, lang).len() == 0,
        follow_of(
            watch_after_reply(watch, PurposeV::NewSession, reply, lang),
            sessions,
            lang,
        ) matches FollowV::Session { active, .. } && fresh_session(reply, lang) == Ok::<
            Seq<char>,
            Seq<char>,
        >(active),
{
    lemma_session_at(sessions, fresh_session(reply, lang)->Ok_0);
}

/// A prompt is answered by silence if and only if it was accepted; a rejected
/// one is reported as failed, once.
pub proof fn law_rejected_prompt_is_reported(reply: ReplyV)
    ensures
        prompt_events(reply).len() == 0 <==> (reply matches ReplyV::Answer(r) && 200 <= r.status
            < 300),
        prompt_events(reply).len() != 0 ==> prompt_events(reply).len() == 1 && prompt_events(
            reply,
        )[0] is SendFailed,
{
}

/// A message reaches the prompt request whole, connected or not: its session, its text,
/// its image and whether it waits.
pub proof fn law_message_reaches_prompt(
    session: Seq<char>,
    message: Seq<char>,
    image: Option<ImageAttachmentV>,
    queued: bool,
    active: Seq<char>,
    lang: Lang,
)
    ensures
        ({
            let input = InputV::Command(CommandV::Send { session, message, image, queued });
            &&& input_step(input, active) == (WebStepV::Prompt { session, message, image, queued })
            &&& retry_step(input, lang) == (RetryStepV::Prompt { session, message, image, queued })
        }),
{
}

/// Every image of a prompt is sent: the attached one first, then those of its references,
/// in order.
pub proof fn law_every_image_is_sent(
    image: Option<ImageAttachmentV>,
    extra: Seq<ImageAttachmentV>,
    i: int,
)
    requires
        0 <= i < extra.len(),
    ensures
        image is None ==> all_images(image, extra) == extra,
        image matches Some(own) ==> all_images(image, extra).len() == extra.len() + 1 && all_images(
            image,
            extra,
        )[0] == own && all_images(image, extra)[i + 1] == extra[i],
        image is Some ==> all_images(image, Seq::empty()) == seq![image->0],
{
    if let Some(own) = image {
        assert(all_images(image, Seq::empty()) =~= seq![own]);
    }
}

/// A command becomes a request to the session that is followed, with its arguments, and
/// its reply is handled for what it was.
pub proof fn law_commands_become_requests(
    active: Seq<char>,
    provider: Seq<char>,
    model_id: Seq<char>,
    level: Seq<char>,
    id: Seq<char>,
    value: Option<Seq<char>>,
    confirmed: Option<bool>,
    cancelled: bool,
)
    ensures
        ({
            let post = |body: Seq<char>| RequestV {
                method: "POST"@,
                path: "/api/agent/"@ + active,
                body: Some(body),
            };
            let step = |c: CommandV| input_step(InputV::Command(c), active);
            &&& step(CommandV::SetModel { provider, model_id }) == (WebStepV::Ask {
                request: post(set_model_json(provider, model_id)),
                purpose: PurposeV::Model { provider, model_id },
            })
            &&& step(CommandV::SetThinking { level }) == (WebStepV::Ask {
                request: post(set_thinking_json(level)),
                purpose: PurposeV::Thinking { level },
            })
            &&& step(CommandV::UiRespond { id, value, confirmed, cancelled }) == (WebStepV::Ask {
                request: post(object_json(answer_fields(id, value, confirmed, cancelled))),
                purpose: PurposeV::Ui,
            })
            &&& step(CommandV::Compact) == (WebStepV::Ask {
                request: post(command_json("compact"@)),
                purpose: PurposeV::Compact,
            })
            &&& step(CommandV::FetchStats) == (WebStepV::Ask {
                request: post(command_json("get_session_stats"@)),
                purpose: PurposeV::Stats,
            })
        }),
{
}

/// Directories, files and sessions are asked for at their own places, by the path the
/// panel asks for, encoded.
pub proof fn law_places_are_asked_for(active: Seq<char>, path: Seq<char>)
    ensures
        ({
            let get = |p: Seq<char>| RequestV { method: "GET"@, path: p, body: None };
            let name = encoded(vstd::utf8::encode_utf8(path));
            &&& input_step(InputV::Command(CommandV::Browse { path }), active) == (WebStepV::Ask {
                request: get("/api/cwd/browse?path="@ + name),
                purpose: PurposeV::Browse { path },
            })
            &&& input_step(InputV::Command(CommandV::FetchFiles { cwd: path }), active) == (
            WebStepV::Ask {
                request: get("/api/file-index?cwd="@ + name),
                purpose: PurposeV::Files { cwd: path },
            })
            &&& input_step(InputV::Command(CommandV::NewSession { cwd: path }), active) == (
            WebStepV::Ask {
                request: RequestV {
                    method: "POST"@,
                    path: "/api/agent/new"@,
                    body: Some(new_session_json(path)),
                },
                purpose: PurposeV::NewSession,
            })
        }),
{
}

/// The connection is made anew when it is asked for, when the stream has ended and when
/// the panel is gone, and not while the panel is merely quiet. Only a session that is
/// picked, and is not followed, changes the one to watch.
pub proof fn law_reconnects_only_when_due(
    watch: Option<Seq<char>>,
    active: Seq<char>,
    command: CommandV,
)
    ensures
        input_step(InputV::Command(CommandV::Reconnect), active) is Reconnect,
        input_step(InputV::Idle { stream_ended: true }, active) is Reconnect,
        input_step(InputV::Gone, active) is Reconnect,
        input_step(InputV::Idle { stream_ended: false }, active) is Wait,
        input_step(InputV::Command(command), active) is Reconnect <==> command is Watch
            || command is Reconnect,
        watch_after(watch, InputV::Command(CommandV::Watch(active)), active) == watch,
        !(command is Watch) ==> watch_after(watch, InputV::Command(command), active) == watch,
{
}

/// A request has failed if it got no answer, or one whose status is no success; then the
/// reason is the error the answer names, or else its status.
pub proof fn law_failures_have_reasons(r: ResponseV, why: Seq<char>)
    ensures
        failure_of(ReplyV::Failed(why)) == Some(why),
        200 <= r.status <= 299 ==> failure_of(ReplyV::Answer(r)) is None,
        r.status < 200 || r.status > 299 ==> failure_of(ReplyV::Answer(r)) is Some,
        r.status < 200 || r.status > 299 ==> (json_parse(r.body) matches Some(j) ==> (j.text(
            "error"@,
        ) matches Some(e) ==> failure_of(ReplyV::Answer(r)) == Some(e))),
        r.status < 200 || r.status > 299 ==> json_parse(r.body) is None ==> failure_of(
            ReplyV::Answer(r),
        ) == Some("HTTP "@ + decimal(r.status as nat)),
{
}

/// A switch that succeeded is reported as what was asked for, or as the model that the
/// answer names; one that failed is reported as failed, with the reason, once.
pub proof fn law_switches_are_reported(
    provider: Seq<char>,
    model_id: Seq<char>,
    level: Seq<char>,
    reply: ReplyV,
    lang: Lang,
)
    ensures
        ({
            let model = reply_events(PurposeV::Model { provider, model_id }, reply, lang);
            let thinking = reply_events(PurposeV::Thinking { level }, reply, lang);
            let message = |zh: Seq<char>, en: Seq<char>, key: Seq<char>, why: Seq<char>|
                EventV::SendFailed {
                    message: filled(
                        match lang {
                            Lang::Zh => zh,
                            Lang::En => en,
                        },
                        seq![(key, why)],
                    ),
                };
            &&& model.len() == 1
            &&& thinking.len() == 1
            &&& match reply {
                ReplyV::Failed(why) => model[0] == message(
                    "切换模型失败：{message}"@,
                    "model switch failed: {message}"@,
                    "message"@,
                    why,
                ) && thinking[0] == message(
                    "切换思考强度失败：{e}"@,
                    "thinking level switch failed: {e}"@,
                    "e"@,
                    why,
                ),
                ReplyV::Answer(r) => if 200 <= r.status <= 299 {
                    &&& thinking[0] == (EventV::ThinkingSet { level })
                    &&& json_parse(r.body) is None ==> model[0] == (EventV::ModelSet {
                        provider,
                        id: model_id,
                    })
                    &&& json_parse(r.body) matches Some(j) ==> (j.get("data"@) is None ==> model[0]
                        == (EventV::ModelSet { provider, id: model_id }))
                    &&& json_parse(r.body) matches Some(j) ==> (j.get("data"@) matches Some(d) ==> (
                    d.text("provider"@) matches Some(a) ==> (d.text("id"@) matches Some(b)
                        ==> model[0] == (EventV::ModelSet { provider: a, id: b }))))
                } else {
                    &&& model[0] == message(
                        "切换模型失败：{message}"@,
                        "model switch failed: {message}"@,
                        "message"@,
                        detail_of(r),
                    )
                    &&& thinking[0] == message(
                        "切换思考强度失败：{detail}"@,
                        "thinking level switch failed: {detail}"@,
                        "detail"@,
                        detail_of(r),
                    )
                },
            }
        }),
{
}

/// A compaction and an answer that succeed are quiet; the accounting is passed on as it
/// is reported. What fails is reported, but for the accounting, which is asked for again.
pub proof fn law_other_replies_are_handled(reply: ReplyV, r: ResponseV, j: JsonV, lang: Lang)
    requires
        reply == ReplyV::Answer(r),
        200 <= r.status <= 299,
        json_parse(r.body) == Some(j),
    ensures
        reply_events(PurposeV::Compact, reply, lang).len() == 0,
        reply_events(PurposeV::Ui, reply, lang).len() == 0,
        j.get("data"@) matches Some(d) ==> reply_events(PurposeV::Stats, reply, lang) == seq![
            EventV::Stats(stats_of(d)),
        ],
        j.get("data"@) is None ==> reply_events(PurposeV::Stats, reply, lang) == seq![
            EventV::Stats(stats_of(j)),
        ],
        j.text("sessionId"@) matches Some(id) ==> watch_after_reply(
            None,
            PurposeV::NewSession,
            reply,
            lang,
        ) == Some(id),
        j.text("sessionId"@) is None ==> reply_events(PurposeV::NewSession, reply, lang).len() == 1
            && reply_events(PurposeV::NewSession, reply, lang)[0] is SendFailed,
{
}

/// A request without an answer is reported, unless it was made behind the user's back.
pub proof fn law_lost_requests_are_reported(
    watch: Option<Seq<char>>,
    why: Seq<char>,
    path: Seq<char>,
    lang: Lang,
)
    ensures
        ({
            let reply = ReplyV::Failed(why);
            &&& reply_events(PurposeV::Compact, reply, lang).len() == 1 && reply_events(
                PurposeV::Compact,
                reply,
                lang,
            )[0] is SendFailed
            &&& reply_events(PurposeV::NewSession, reply, lang).len() == 1 && reply_events(
                PurposeV::NewSession,
                reply,
                lang,
            )[0] is SendFailed
            &&& reply_events(PurposeV::Ui, reply, lang).len() == 1 && reply_events(
                PurposeV::Ui,
                reply,
                lang,
            )[0] is Notice
            &&& reply_events(PurposeV::Stats, reply, lang).len() == 0
            &&& reply_events(PurposeV::Browse { path }, reply, lang).len() == 0
            &&& reply_events(PurposeV::Files { cwd: path }, reply, lang).len() == 0
            &&& watch_after_reply(watch, PurposeV::NewSession, reply, lang) == watch
        }),
{
}

/// Directories of an answer are listed one by one, in order: those with a name and a
/// path.
pub proof fn law_directories_are_listed_in_order(a: Seq<JsonV>, b: Seq<JsonV>, d: JsonV)
    ensures
        listed_dirs(a + b) == listed_dirs(a) + listed_dirs(b),
        d.text("name"@) matches Some(name) ==> (d.text("path"@) matches Some(path) ==> listed_dirs(
            seq![d],
        ) == seq![(name, path)]),
        d.text("name"@) is None || d.text("path"@) is None ==> listed_dirs(seq![d]).len() == 0,
    decreases b.len(),
{
    let one = seq![d];
    assert(one.drop_last() =~= Seq::empty());
    assert(listed_dirs(one.drop_last()) =~= Seq::empty());
    assert(listed_dirs(one) =~= (match listed_dir(d) {
        Some(x) => seq![x],
        None => Seq::empty(),
    }));
    if b.len() == 0 {
        assert(a + b =~= a);
        assert(listed_dirs(a) + listed_dirs(b) =~= listed_dirs(a));
    } else {
        assert((a + b).drop_last() =~= a + b.drop_last());
        law_directories_are_listed_in_order(a, b.drop_last(), d);
        assert(listed_dirs(a + b) =~= listed_dirs(a) + listed_dirs(b));
    }
}

/// A listing and a file index are passed on as the answer gives them; a listing that is
/// refused shows the directory as empty.
pub proof fn law_listings_are_passed_on(
    path: Seq<char>,
    r: ResponseV,
    v: JsonV,
    items: Seq<JsonV>,
    lang: Lang,
)
    requires
        json_parse(r.body) == Some(v),
        v.list("directories"@) == Some(items),
    ensures
        ({
            let reply = ReplyV::Answer(r);
            let listing = reply_events(PurposeV::Browse { path }, reply, lang);
            let files = reply_events(PurposeV::Files { cwd: path }, reply, lang);
            &&& listing.len() == 1
            &&& 200 <= r.status <= 299 ==> (listing[0] matches EventV::DirListing {
                path: at,
                parent,
                dirs,
            } && dirs == listed_dirs(items) && parent == v.text("parentPath"@) && (v.text("path"@)
                matches Some(t) ==> at == t) && (v.text("path"@) is None ==> at == path))
            &&& !(200 <= r.status <= 299) ==> listing[0] == (EventV::DirListing {
                path,
                parent: None,
                dirs: Seq::empty(),
            })
            &&& 200 <= r.status <= 299 ==> files == seq![
                EventV::Files { cwd: path, files: v.strings("files"@) },
            ]
            &&& !(200 <= r.status <= 299) ==> files.len() == 0
        }),
{
}

/// The catalog is passed on with the model and the level that the session's state names;
/// one without a model says nothing.
pub proof fn law_models_are_passed_on(c: JsonV, catalog: ResponseV, state: ResponseV, s: JsonV, m: JsonV)
    requires
        json_parse(catalog.body) == Some(c),
        json_parse(state.body) is Some,
        (json_parse(state.body)->0).get("state"@) == Some(s),
        s.get("model"@) == Some(m),
    ensures
        ({
            let events = models_events(ReplyV::Answer(catalog), ReplyV::Answer(state));
            let list = catalog_at(c, "modelList"@);
            &&& list.len() == 0 ==> events.len() == 0
            &&& list.len() > 0 ==> events.len() == 1 && (events[0] matches EventV::Models {
                list: l,
                current,
                thinking_levels,
                thinking,
            } && l == list && thinking == s.text("thinkingLevel"@) && (m.text("provider"@) matches Some(
                a,
            ) ==> (m.text("id"@) matches Some(b) ==> current == Some((a, b)))) && (c.get(
                "thinkingLevels"@,
            ) matches Some(JsonV::Object(members)) ==> thinking_levels.len() == members.len()))
        }),
        models_events(ReplyV::Failed(Seq::empty()), ReplyV::Answer(state)).len() == 0,
{
}

/// The levels of each model are those that the catalog lists under the model's name.
pub proof fn law_levels_are_per_model(
    catalog: JsonV,
    members: Seq<(Seq<char>, JsonV)>,
    i: int,
    items: Seq<JsonV>,
)
    requires
        catalog.get("thinkingLevels"@) == Some(JsonV::Object(members)),
        0 <= i < members.len(),
        members[i].1 == JsonV::Array(items),
    ensures
        catalog_levels(catalog).len() == members.len(),
        catalog_levels(catalog)[i] == (members[i].0, strings_of(items)),
{
}

/// The session that is followed is reported as ready, with the list, and its own
/// directory and file are used; without any session that is an error.
pub proof fn law_followed_session_is_reported(
    watch: Option<Seq<char>>,
    sessions: Seq<SessionInfoV>,
    lang: Lang,
)
    ensures
        match follow_of(watch, sessions, lang) {
            FollowV::Session { events, active, cwd, path } => {
                &&& sessions.len() > 0
                &&& events == seq![
                    EventV::Sessions(sessions),
                    EventV::Status(StatusV::Ready { session: active, streaming: false }),
                ]
                &&& exists|i: int|
                    #![trigger sessions[i]]
                    0 <= i < sessions.len() && sessions[i].id == active && sessions[i].cwd == cwd
                        && sessions[i].path == path
            },
            FollowV::Retry(events) => {
                &&& sessions.len() == 0
                &&& events.len() == 2
                &&& events[0] == EventV::Sessions(sessions)
                &&& events[1] matches EventV::Status(StatusV::Error(_))
            },
        },
{
    if watch is Some {
        lemma_session_at(sessions, watch->0);
    }
    if let Some(at) = followed(watch, sessions) {
        assert(sessions[at].id == sessions[at].id);
    }
}

/// A session list that cannot be had is an error, and the worker tries again.
pub proof fn law_missing_list_is_an_error(
    watch: Option<Seq<char>>,
    r: ResponseV,
    why: Seq<char>,
    lang: Lang,
)
    requires
        r.status != 200,
    ensures
        follow_reply(watch, ReplyV::Failed(why), lang) == FollowV::Retry(
            seq![EventV::Status(StatusV::Error(why))],
        ),
        follow_reply(watch, ReplyV::Answer(r), lang) matches FollowV::Retry(events)
            && events.len() == 1 && events[0] is Status,
{
}

/// While the worker waits to try again, picking a session or connecting makes it try at
/// once; what needs a connection is reported as failed, and the rest is quiet.
pub proof fn law_waiting_worker_answers(
    watch: Option<Seq<char>>,
    id: Seq<char>,
    command: CommandV,
    lang: Lang,
)
    ensures
        retry_step(InputV::Command(CommandV::Watch(id)), lang) is Again,
        retry_watch(watch, InputV::Command(CommandV::Watch(id))) == Some(id),
        retry_step(InputV::Command(CommandV::Reconnect), lang) is Again,
        retry_step(InputV::Gone, lang) is Exit,
        !(command is Watch) ==> retry_watch(watch, InputV::Command(command)) == watch,
        command is SetModel || command is SetThinking || command is NewSession ==> (retry_step(
            InputV::Command(command),
            lang,
        ) matches RetryStepV::Wait(events) && events.len() == 1 && events[0] is SendFailed),
        command is Browse || command is FetchFiles || command is UiRespond || command is Compact
            || command is FetchStats ==> retry_step(InputV::Command(command), lang)
            == RetryStepV::Wait(Seq::empty()),
{
}

/// What cannot be done is reported in the panel's language: which command needed the
/// connection, what the answer lacks, and what the server said.
pub proof fn law_failures_are_worded(
    watch: Option<Seq<char>>,
    command: CommandV,
    r: ResponseV,
    bad: ResponseV,
    lang: Lang,
)
    requires
        200 <= r.status <= 299,
        json_parse(r.body) is None,
        bad.status != 200,
    ensures
        ({
            let said = |zh: Seq<char>, en: Seq<char>|
                retry_step(InputV::Command(command), lang) == RetryStepV::Wait(
                    seq![
                        EventV::SendFailed {
                            message: match lang {
                                Lang::Zh => zh,
                                Lang::En => en,
                            },
                        },
                    ],
                );
            &&& command is SetModel ==> said(
                "切换模型失败：尚未连接 pi-web"@,
                "model switch failed: pi-web not connected"@,
            )
            &&& command is SetThinking ==> said(
                "切换思考强度失败：尚未连接 pi-web"@,
                "thinking level switch failed: pi-web not connected"@,
            )
            &&& command is NewSession ==> said(
                "新建会话失败：尚未连接 pi-web"@,
                "new session failed: pi-web not connected"@,
            )
        }),
        fresh_session(ReplyV::Answer(r), lang) == Err::<Seq<char>, Seq<char>>(
            match lang {
                Lang::Zh => "响应缺少 sessionId"@,
                Lang::En => "response is missing sessionId"@,
            },
        ),
        follow_of(watch, Seq::empty(), lang) == FollowV::Retry(
            seq![
                EventV::Sessions(Seq::empty()),
                EventV::Status(
                    StatusV::Error(
                        match lang {
                            Lang::Zh => "pi-web 没有会话"@,
                            Lang::En => "pi-web has no sessions"@,
                        },
                    ),
                ),
            ],
        ),
        follow_reply(watch, ReplyV::Answer(bad), lang) == FollowV::Retry(
            seq![
                EventV::Status(
                    StatusV::Error(
                        filled(
                            match lang {
                                Lang::Zh => "pi-web /api/sessions 返回 {status}"@,
                                Lang::En => "pi-web /api/sessions returned {status}"@,
                            },
                            seq![("status"@, decimal(bad.status as nat))],
                        ),
                    ),
                ),
            ],
        ),
{
}

/// A lost compaction, answer or session is reported with its reason, in the panel's
/// language.
pub proof fn law_lost_requests_are_worded(why: Seq<char>, lang: Lang)
    ensures
        ({
            let reply = ReplyV::Failed(why);
            let text = |zh: Seq<char>, en: Seq<char>|
                filled(
                    match lang {
                        Lang::Zh => zh,
                        Lang::En => en,
                    },
                    seq![("e"@, why)],
                );
            &&& reply_events(PurposeV::Compact, reply, lang) == seq![
                EventV::SendFailed { message: text("压缩失败：{e}"@, "compaction failed: {e}"@) },
            ]
            &&& reply_events(PurposeV::NewSession, reply, lang) == seq![
                EventV::SendFailed { message: text("新建会话失败：{e}"@, "new session failed: {e}"@) },
            ]
            &&& reply_events(PurposeV::Ui, reply, lang) == seq![
                EventV::Notice(text("提交确认失败：{e}"@, "confirmation submit failed: {e}"@)),
            ]
        }),
{
}

} // verus!
