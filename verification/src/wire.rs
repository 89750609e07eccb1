//! What the agent's JSON means: events of a running session, messages of a
//! session file, session accounting.

use vstd::prelude::*;

use crate::json::{items_view, json_parse, json_view, parse_json, Json, JsonV};
use crate::lang::{filled, pick, tr, tr_one, Lang};
use crate::protocol::{
    CommandInfo, CommandInfoV, DeltaKind, Entry, EntryV, Event, EventV, ModelInfo, ModelInfoV, Part,
    PartV, SessionStats, SessionStatsV, Status, StatusV,
};
use crate::text::{
    byte_piece, decimal_text, find_byte, first_byte, lines, same, strip_prefix, text_of, trim,
    utf8_text,
};

verus! {

broadcast use crate::model::group_views;

// ── Message content ─────────────────────────────────────────────────────────

/// The `text` members of `items`, joined.
pub open spec fn texts_joined(items: Seq<JsonV>) -> Seq<char>
    decreases items.len(),
{
    if items.len() == 0 {
        Seq::empty()
    } else {
        texts_joined(items.drop_last()) + (match items.last().text("text"@) {
            Some(t) => t,
            None => Seq::empty(),
        })
    }
}

/// The text of a message-like object.
pub open spec fn text_content(msg: JsonV) -> Seq<char> {
    match msg.list("content"@) {
        Some(items) => texts_joined(items),
        None => Seq::empty(),
    }
}

/// Joins the `content[].text` parts of a message-like object.
pub fn content_text(msg: &Json) -> (out: String)
    ensures
        out@ == text_content(msg.deep_view()),
{
    let mut out = String::new();
    assert(out@ =~= Seq::empty());
    if let Some(items) = msg.list("content") {
        let ghost all = items_view(items@);
        assert(all.take(0) =~= Seq::empty());
        let mut i: usize = 0;
        while i < items.len()
            invariant
                i <= items@.len(),
                all == items_view(items@),
                out@ == texts_joined(all.take(i as int)),
            decreases items@.len() - i,
        {
            assert(all.take(i + 1).drop_last() =~= all.take(i as int));
            assert(all.take(i + 1).last() == json_view(items@[i as int]));
            if let Some(t) = items[i].text("text") {
                out.append(t);
            }
            assert(out@ =~= texts_joined(all.take(i + 1)));
            i += 1;
        }
        assert(all.take(i as int) =~= all);
    }
    out
}

/// The first of two members that is present.
pub open spec fn either(j: JsonV, a: Seq<char>, b: Seq<char>) -> Option<JsonV> {
    match j.get(a) {
        Some(v) => Some(v),
        None => j.get(b),
    }
}

/// The text of the first of two members that is present.
pub open spec fn either_text(j: JsonV, a: Seq<char>, b: Seq<char>) -> Option<Seq<char>> {
    match either(j, a, b) {
        Some(v) => v.as_str(),
        None => None,
    }
}

/// The text of the first of two members that is present.
pub fn first_text<'a>(j: &'a Json, a: &str, b: &str) -> (out: Option<&'a str>)
    ensures
        out.deep_view() == either_text(j.deep_view(), a@, b@),
{
    match j.get(a) {
        Some(v) => v.as_str(),
        None => match j.get(b) {
            Some(v) => v.as_str(),
            None => None,
        },
    }
}

/// A text, or `default` where there is none.
pub open spec fn or_text(t: Option<Seq<char>>, default: Seq<char>) -> Seq<char> {
    match t {
        Some(s) => s,
        None => default,
    }
}

pub fn owned_or(t: Option<&str>, default: &str) -> (out: String)
    ensures
        out@ == or_text(t.deep_view(), default@),
{
    match t {
        Some(s) => s.to_owned(),
        None => default.to_owned(),
    }
}

/// The part a content block stands for. Empty texts and tool calls without an
/// id are none.
pub open spec fn part_of(block: JsonV) -> Option<PartV> {
    let ty = block.text_or("type"@, ""@);
    if ty == "text"@ {
        let t = block.text_or("text"@, ""@);
        if t.len() > 0 {
            Some(PartV::Text(t))
        } else {
            None
        }
    } else if ty == "thinking"@ {
        Some(PartV::Thinking(block.text_or("thinking"@, ""@)))
    } else if ty == "toolCall"@ {
        let id = or_text(either_text(block, "id"@, "toolCallId"@), ""@);
        let name = or_text(either_text(block, "name"@, "toolName"@), "tool"@);
        if id.len() > 0 {
            Some(PartV::ToolCall { id, name })
        } else {
            None
        }
    } else {
        None
    }
}

/// The parts of a content array, each with its index.
pub open spec fn parts_of(items: Seq<JsonV>) -> Seq<(usize, PartV)>
    decreases items.len(),
{
    if items.len() == 0 {
        Seq::empty()
    } else {
        match part_of(items.last()) {
            Some(p) => parts_of(items.drop_last()).push(((items.len() - 1) as usize, p)),
            None => parts_of(items.drop_last()),
        }
    }
}

/// The parts of a message-like object.
pub open spec fn message_parts(msg: JsonV) -> Seq<(usize, PartV)> {
    match msg.list("content"@) {
        Some(items) => parts_of(items),
        None => Seq::empty(),
    }
}

fn block_part(block: &Json) -> (out: Option<Part>)
    ensures
        out.deep_view() == part_of(block.deep_view()),
{
    let ty = block.text_or("type", "");
    if same(ty.as_str(), "text") {
        let t = block.text_or("text", "");
        if t.as_str().is_empty() {
            None
        } else {
            Some(Part::Text(t))
        }
    } else if same(ty.as_str(), "thinking") {
        Some(Part::Thinking(block.text_or("thinking", "")))
    } else if same(ty.as_str(), "toolCall") {
        let id = owned_or(first_text(block, "id", "toolCallId"), "");
        let name = owned_or(first_text(block, "name", "toolName"), "tool");
        if id.as_str().is_empty() {
            None
        } else {
            Some(Part::ToolCall { id, name })
        }
    } else {
        None
    }
}

/// Maps a message's `content` array to parts tagged with the content index,
/// which routes streaming deltas to the right block.
pub fn parse_parts(msg: &Json) -> (out: Vec<(usize, Part)>)
    ensures
        out.deep_view() == message_parts(msg.deep_view()),
{
    let mut out: Vec<(usize, Part)> = Vec::new();
    if let Some(items) = msg.list("content") {
        let ghost all = items_view(items@);
        assert(all.take(0) =~= Seq::empty());
        let mut i: usize = 0;
        while i < items.len()
            invariant
                i <= items@.len(),
                all == items_view(items@),
                out.deep_view() == parts_of(all.take(i as int)),
            decreases items@.len() - i,
        {
            assert(all.take(i + 1).drop_last() =~= all.take(i as int));
            assert(all.take(i + 1).last() == json_view(items@[i as int]));
            if let Some(p) = block_part(&items[i]) {
                out.push((i, p));
            }
            i += 1;
        }
        assert(all.take(i as int) =~= all);
    }
    out
}

/// A tool result's text and error flag.
pub fn tool_output(result: &Json) -> (out: (String, bool))
    ensures
        out.0@ == text_content(result.deep_view()),
        out.1 == result.deep_view().flag("isError"@),
{
    (content_text(result), result.flag("isError"))
}

/// The content block that a raw `message_update` refers to: the one at
/// `contentIndex` in `partial.content`.
pub open spec fn partial_block(delta: JsonV) -> Option<JsonV> {
    match delta.get("partial"@) {
        Some(partial) => match partial.list("content"@) {
            Some(items) => match delta.number("contentIndex"@) {
                Some(n) => if (n as usize) < items.len() {
                    Some(items[(n as usize) as int])
                } else {
                    None
                },
                None => None,
            },
            None => None,
        },
        None => None,
    }
}

fn partial_tool_block(delta: &Json) -> (out: Option<&Json>)
    ensures
        out.deep_view() == partial_block(delta.deep_view()),
{
    match delta.get("partial") {
        Some(partial) => match partial.list("content") {
            Some(items) => match delta.number("contentIndex") {
                Some(n) => {
                    let at: usize = n as usize;
                    if at < items.len() {
                        Some(&items[at])
                    } else {
                        None
                    }
                },
                None => None,
            },
            None => None,
        },
        None => None,
    }
}

// ── Events ──────────────────────────────────────────────────────────────────

/// A text found at the top level of a delta, in its `toolCall`, or in the block
/// it refers to, in this order.
pub open spec fn call_text(
    delta: JsonV,
    top: Seq<char>,
    nested: Seq<char>,
    other: Seq<char>,
) -> Option<Seq<char>> {
    match delta.text(top) {
        Some(t) => Some(t),
        None => match delta.at("toolCall"@).text(nested) {
            Some(t) => Some(t),
            None => match partial_block(delta) {
                Some(block) => either_text(block, nested, other),
                None => None,
            },
        },
    }
}

fn find_call_text(delta: &Json, top: &str, nested: &str, other: &str) -> (out: Option<String>)
    ensures
        out.deep_view() == call_text(delta.deep_view(), top@, nested@, other@),
{
    if let Some(t) = delta.text(top) {
        return Some(t.to_owned());
    }
    if let Some(call) = delta.get("toolCall") {
        if let Some(t) = call.text(nested) {
            return Some(t.to_owned());
        }
    }
    match partial_tool_block(delta) {
        Some(block) => match first_text(block, nested, other) {
            Some(t) => Some(t.to_owned()),
            None => None,
        },
        None => None,
    }
}

/// The content index of a delta; 0 where it has none.
pub open spec fn delta_index(delta: JsonV) -> usize {
    match delta.number("contentIndex"@) {
        Some(n) => n as usize,
        None => 0,
    }
}

/// The event of a text or thinking delta.
pub open spec fn chunk_events(delta: JsonV, kind: DeltaKind) -> Seq<EventV> {
    match delta.text("delta"@) {
        Some(chunk) => seq![EventV::Delta { kind, idx: delta_index(delta), chunk }],
        None => Seq::empty(),
    }
}

/// The events of a `message_update`, from its `assistantMessageEvent`.
pub open spec fn update_events(delta: JsonV, lang: Lang) -> Seq<EventV> {
    let ty = delta.text_or("type"@, ""@);
    if ty == "text_delta"@ {
        chunk_events(delta, DeltaKind::Text)
    } else if ty == "thinking_delta"@ {
        chunk_events(delta, DeltaKind::Thinking)
    } else if ty == "toolcall_start"@ || ty == "toolcall_end"@ {
        let id = or_text(call_text(delta, "id"@, "id"@, "toolCallId"@), ""@);
        let name = or_text(call_text(delta, "toolName"@, "name"@, "toolName"@), "tool"@);
        if id.len() > 0 {
            seq![EventV::ToolCallStart { id, name }]
        } else {
            Seq::empty()
        }
    } else if ty == "error"@ {
        let text = text_content(delta.at("error"@));
        seq![
            EventV::StreamError(
                if text.len() == 0 {
                    pick(lang, "生成失败"@, "failed"@)
                } else {
                    filled(pick(lang, "生成失败：{text}"@, "failed: {text}"@), seq![("text"@, text)])
                },
            ),
        ]
    } else {
        Seq::empty()
    }
}

/// The result of a tool call: `ids` names the call, `result` holds the output.
pub open spec fn result_event(ids: JsonV, result: JsonV) -> EventV {
    EventV::ToolResult {
        id: ids.text_or("toolCallId"@, ""@),
        name: ids.text_or("toolName"@, "tool"@),
        output: text_content(result),
        is_error: result.flag("isError"@),
    }
}

/// The events of a `message_start`.
pub open spec fn start_events(msg: JsonV) -> Seq<EventV> {
    let role = msg.text_or("role"@, ""@);
    if role == "assistant"@ {
        seq![EventV::MsgStart { parts: message_parts(msg) }]
    } else if role == "toolResult"@ {
        seq![result_event(msg, msg)]
    } else {
        Seq::empty()
    }
}

/// The events of a `message_end`. A user message is reported even if its text
/// is empty: the echo of an image-only message.
pub open spec fn end_events(msg: JsonV) -> Seq<EventV> {
    let role = msg.text_or("role"@, ""@);
    if role == "user"@ {
        seq![EventV::User(text_content(msg))]
    } else if role == "assistant"@ {
        seq![EventV::AssistantEnd { parts: message_parts(msg) }]
    } else if role == "toolResult"@ {
        seq![result_event(msg, msg)]
    } else {
        Seq::empty()
    }
}

/// The events of an `extension_ui_request`.
pub open spec fn ui_events(ev: JsonV, lang: Lang) -> Seq<EventV> {
    let method = ev.text_or("method"@, ""@);
    if method == "notify"@ {
        let message = ev.text_or("message"@, ""@);
        if message.len() > 0 {
            seq![EventV::Notice(message)]
        } else {
            Seq::empty()
        }
    } else if method == "select"@ || method == "confirm"@ || method == "input"@ || method
        == "editor"@ {
        seq![
            EventV::UiRequest {
                id: ev.text_or("id"@, ""@),
                method,
                title: ev.text_or("title"@, pick(lang, "需要确认"@, "confirmation needed"@)),
                message: ev.text("message"@),
                options: ev.strings("options"@),
                prefill: ev.text("prefill"@),
            },
        ]
    } else {
        Seq::empty()
    }
}

/// The events one payload of the agent's event stream stands for.
pub open spec fn events_of(ev: JsonV, lang: Lang) -> Seq<EventV> {
    let kind = ev.text_or("type"@, ""@);
    if kind == "connected"@ {
        let streaming = ev.flag("isStreaming"@);
        seq![
            EventV::Streaming(streaming),
            EventV::Status(StatusV::Ready { session: ev.text_or("sessionId"@, ""@), streaming }),
        ]
    } else if kind == "message_start"@ {
        start_events(ev.at("message"@))
    } else if kind == "message_update"@ {
        update_events(ev.at("assistantMessageEvent"@), lang)
    } else if kind == "message_end"@ {
        end_events(ev.at("message"@))
    } else if kind == "tool_execution_start"@ {
        seq![
            EventV::ToolCallStart {
                id: ev.text_or("toolCallId"@, ""@),
                name: ev.text_or("toolName"@, "tool"@),
            },
        ]
    } else if kind == "tool_execution_update"@ {
        seq![
            EventV::ToolPartial {
                id: ev.text_or("toolCallId"@, ""@),
                name: ev.text_or("toolName"@, "tool"@),
                output: text_content(ev.at("partialResult"@)),
            },
        ]
    } else if kind == "tool_execution_end"@ {
        seq![result_event(ev, ev.at("result"@))]
    } else if kind == "agent_start"@ {
        seq![EventV::Streaming(true)]
    } else if kind == "agent_end"@ || kind == "agent_settled"@ {
        seq![EventV::Streaming(false)]
    } else if kind == "queue_update"@ {
        seq![EventV::Queue { steering: ev.strings("steering"@), follow_up: ev.strings("followUp"@) }]
    } else if kind == "extension_ui_request"@ {
        ui_events(ev, lang)
    } else if kind == "compaction_start"@ || kind == "auto_compaction_start"@ {
        seq![EventV::Notice(pick(lang, "上下文压缩中…"@, "compacting context…"@))]
    } else if kind == "compaction_end"@ || kind == "auto_compaction_end"@ {
        seq![EventV::Notice(pick(lang, "上下文压缩完成"@, "context compacted"@))]
    } else if kind == "auto_retry_start"@ {
        let attempt = match ev.number("attempt"@) {
            Some(n) => n,
            None => 0,
        };
        seq![
            EventV::Notice(
                filled(
                    pick(lang, "自动重试中（第 {attempt} 次）…"@, "retrying (attempt {attempt})…"@),
                    seq![("attempt"@, crate::text::decimal(attempt as nat))],
                ),
            ),
        ]
    } else if kind == "startup_error"@ {
        seq![
            EventV::Status(
                StatusV::Error(
                    ev.text_or(
                        "errorMessage"@,
                        pick(lang, "pi-web 启动代理失败"@, "pi-web failed to start"@),
                    ),
                ),
            ),
        ]
    } else {
        Seq::empty()
    }
}

/// A list of one event.
pub fn one_event(e: Event) -> (out: Vec<Event>)
    ensures
        out.deep_view() == seq![e.deep_view()],
{
    let mut out: Vec<Event> = Vec::new();
    out.push(e);
    assert(out.deep_view() =~= seq![e.deep_view()]);
    out
}

/// No event.
pub fn no_event() -> (out: Vec<Event>)
    ensures
        out.deep_view() == Seq::<EventV>::empty(),
{
    Vec::new()
}

fn map_chunk(delta: &Json, kind: DeltaKind) -> (out: Vec<Event>)
    ensures
        out.deep_view() == chunk_events(delta.deep_view(), kind),
{
    match delta.text("delta") {
        Some(chunk) => {
            let idx: usize = match delta.number("contentIndex") {
                Some(n) => n as usize,
                None => 0,
            };
            one_event(Event::Delta { kind, idx, chunk: chunk.to_owned() })
        },
        None => no_event(),
    }
}

fn map_update(delta: &Json, lang: Lang) -> (out: Vec<Event>)
    ensures
        out.deep_view() == update_events(delta.deep_view(), lang),
{
    let ty = delta.text_or("type", "");
    let ty = ty.as_str();
    if same(ty, "text_delta") {
        map_chunk(delta, DeltaKind::Text)
    } else if same(ty, "thinking_delta") {
        map_chunk(delta, DeltaKind::Thinking)
    } else if same(ty, "toolcall_start") || same(ty, "toolcall_end") {
        let id = match find_call_text(delta, "id", "id", "toolCallId") {
            Some(t) => t,
            None => "".to_owned(),
        };
        let name = match find_call_text(delta, "toolName", "name", "toolName") {
            Some(t) => t,
            None => "tool".to_owned(),
        };
        if id.as_str().is_empty() {
            no_event()
        } else {
            one_event(Event::ToolCallStart { id, name })
        }
    } else if same(ty, "error") {
        let text = match delta.get("error") {
            Some(e) => content_text(e),
            None => {
                let none = String::new();
                assert(none@ =~= text_content(JsonV::Null));
                none
            },
        };
        let message = if text.as_str().is_empty() {
            tr(lang, "生成失败", "failed").to_owned()
        } else {
            tr_one(lang, "生成失败：{text}", "failed: {text}", "text", text.as_str())
        };
        one_event(Event::StreamError(message))
    } else {
        no_event()
    }
}

fn map_result(ids: &Json, result: &Json) -> (out: Event)
    ensures
        out.deep_view() == result_event(ids.deep_view(), result.deep_view()),
{
    let (output, is_error) = tool_output(result);
    Event::ToolResult {
        id: ids.text_or("toolCallId", ""),
        name: ids.text_or("toolName", "tool"),
        output,
        is_error,
    }
}

fn map_start(msg: &Json) -> (out: Vec<Event>)
    ensures
        out.deep_view() == start_events(msg.deep_view()),
{
    let role = msg.text_or("role", "");
    if same(role.as_str(), "assistant") {
        one_event(Event::MsgStart { parts: parse_parts(msg) })
    } else if same(role.as_str(), "toolResult") {
        one_event(map_result(msg, msg))
    } else {
        no_event()
    }
}

fn map_end(msg: &Json) -> (out: Vec<Event>)
    ensures
        out.deep_view() == end_events(msg.deep_view()),
{
    let role = msg.text_or("role", "");
    if same(role.as_str(), "user") {
        one_event(Event::User(content_text(msg)))
    } else if same(role.as_str(), "assistant") {
        one_event(Event::AssistantEnd { parts: parse_parts(msg) })
    } else if same(role.as_str(), "toolResult") {
        one_event(map_result(msg, msg))
    } else {
        no_event()
    }
}

fn map_ui(ev: &Json, lang: Lang) -> (out: Vec<Event>)
    ensures
        out.deep_view() == ui_events(ev.deep_view(), lang),
{
    let method = ev.text_or("method", "");
    if same(method.as_str(), "notify") {
        let message = ev.text_or("message", "");
        if message.as_str().is_empty() {
            no_event()
        } else {
            one_event(Event::Notice(message))
        }
    } else if same(method.as_str(), "select") || same(method.as_str(), "confirm") || same(
        method.as_str(),
        "input",
    ) || same(method.as_str(), "editor") {
        one_event(
            Event::UiRequest {
                id: ev.text_or("id", ""),
                method,
                title: ev.text_or("title", tr(lang, "需要确认", "confirmation needed")),
                message: ev.owned("message"),
                options: ev.strings("options"),
                prefill: ev.owned("prefill"),
            },
        )
    } else {
        no_event()
    }
}

/// Maps one payload of the agent's event stream to the events the panel
/// applies. Both backends send these payloads.
pub fn sse_to_events(ev: &Json, lang: Lang) -> (out: Vec<Event>)
    ensures
        out.deep_view() == events_of(ev.deep_view(), lang),
{
    let null = Json::Null;
    let kind = ev.text_or("type", "");
    let kind = kind.as_str();
    if same(kind, "connected") {
        let streaming = ev.flag("isStreaming");
        let mut out: Vec<Event> = Vec::new();
        out.push(Event::Streaming(streaming));
        out.push(Event::Status(Status::Ready { session: ev.text_or("sessionId", ""), streaming }));
        assert(out.deep_view() =~= events_of(ev.deep_view(), lang));
        out
    } else if same(kind, "message_start") {
        map_start(ev.get("message").unwrap_or(&null))
    } else if same(kind, "message_update") {
        map_update(ev.get("assistantMessageEvent").unwrap_or(&null), lang)
    } else if same(kind, "message_end") {
        map_end(ev.get("message").unwrap_or(&null))
    } else if same(kind, "tool_execution_start") {
        one_event(
            Event::ToolCallStart {
                id: ev.text_or("toolCallId", ""),
                name: ev.text_or("toolName", "tool"),
            },
        )
    } else if same(kind, "tool_execution_update") {
        one_event(
            Event::ToolPartial {
                id: ev.text_or("toolCallId", ""),
                name: ev.text_or("toolName", "tool"),
                output: content_text(ev.get("partialResult").unwrap_or(&null)),
            },
        )
    } else if same(kind, "tool_execution_end") {
        one_event(map_result(ev, ev.get("result").unwrap_or(&null)))
    } else if same(kind, "agent_start") {
        one_event(Event::Streaming(true))
    } else if same(kind, "agent_end") || same(kind, "agent_settled") {
        one_event(Event::Streaming(false))
    } else if same(kind, "queue_update") {
        one_event(
            Event::Queue { steering: ev.strings("steering"), follow_up: ev.strings("followUp") },
        )
    } else if same(kind, "extension_ui_request") {
        map_ui(ev, lang)
    } else if same(kind, "compaction_start") || same(kind, "auto_compaction_start") {
        one_event(Event::Notice(tr(lang, "上下文压缩中…", "compacting context…").to_owned()))
    } else if same(kind, "compaction_end") || same(kind, "auto_compaction_end") {
        one_event(Event::Notice(tr(lang, "上下文压缩完成", "context compacted").to_owned()))
    } else if same(kind, "auto_retry_start") {
        let attempt: u64 = match ev.number("attempt") {
            Some(n) => n,
            None => 0,
        };
        one_event(
            Event::Notice(
                tr_one(
                    lang,
                    "自动重试中（第 {attempt} 次）…",
                    "retrying (attempt {attempt})…",
                    "attempt",
                    decimal_text(attempt).as_str(),
                ),
            ),
        )
    } else if same(kind, "startup_error") {
        one_event(
            Event::Status(
                Status::Error(
                    ev.text_or(
                        "errorMessage",
                        tr(lang, "pi-web 启动代理失败", "pi-web failed to start"),
                    ),
                ),
            ),
        )
    } else {
        no_event()
    }
}

/// The payload of one line of a server-sent event stream: what follows
/// `data: `. Heartbeats and other lines have none.
pub open spec fn sse_payload(line: Seq<char>) -> Option<JsonV> {
    if crate::text::begins(line, "data: "@) {
        json_parse(crate::text::trimmed(line.skip("data: "@.len() as int)))
    } else {
        None
    }
}

/// The events of one line of a server-sent event stream.
pub fn sse_line_events(line: &str, lang: Lang) -> (out: Vec<Event>)
    ensures
        out.deep_view() == match sse_payload(line@) {
            Some(ev) => events_of(ev, lang),
            None => Seq::empty(),
        },
{
    match strip_prefix(line, "data: ") {
        Some(data) => match parse_json(trim(data.as_str()).as_str()) {
            Some(ev) => sse_to_events(&ev, lang),
            None => no_event(),
        },
        None => no_event(),
    }
}

/// Whether a run is streaming after `events`, if it was before as `flag` says.
pub open spec fn streaming_after(flag: bool, events: Seq<EventV>) -> bool
    decreases events.len(),
{
    if events.len() == 0 {
        flag
    } else {
        match events.last() {
            EventV::Streaming(v) => v,
            _ => streaming_after(flag, events.drop_last()),
        }
    }
}

/// Whether a run is streaming after `events`.
pub fn track_streaming(flag: bool, events: &Vec<Event>) -> (out: bool)
    ensures
        out == streaming_after(flag, events.deep_view()),
{
    let mut out = flag;
    let ghost all = events.deep_view();
    assert(all.take(0) =~= Seq::empty());
    let mut i: usize = 0;
    while i < events.len()
        invariant
            i <= events@.len(),
            all == events.deep_view(),
            out == streaming_after(flag, all.take(i as int)),
        decreases events@.len() - i,
    {
        assert(all.take(i + 1).drop_last() =~= all.take(i as int));
        assert(all.take(i + 1).last() == events@[i as int].deep_view());
        if let Event::Streaming(v) = &events[i] {
            out = *v;
        }
        i += 1;
    }
    assert(all.take(i as int) =~= all);
    out
}

// ── Session history ─────────────────────────────────────────────────────────

/// The entry a part of a stored assistant message becomes.
pub open spec fn part_entry(part: PartV) -> Option<EntryV> {
    match part {
        PartV::Text(t) => if t.len() > 0 {
            Some(EntryV::Assistant(t))
        } else {
            None
        },
        PartV::Thinking(t) => Some(EntryV::Thinking(t)),
        PartV::ToolCall { id, name } => Some(
            EntryV::Tool { id, name, output: Seq::empty(), done: false, is_error: false },
        ),
    }
}

/// `out` followed by the entries of `parts`.
pub open spec fn with_parts(out: Seq<EntryV>, parts: Seq<(usize, PartV)>) -> Seq<EntryV>
    decreases parts.len(),
{
    if parts.len() == 0 {
        out
    } else {
        let before = with_parts(out, parts.drop_last());
        match part_entry(parts.last().1) {
            Some(e) => before.push(e),
            None => before,
        }
    }
}

/// Whether `e` is the tool call `id`.
pub open spec fn is_call(e: EntryV, id: Seq<char>) -> bool {
    match e {
        EntryV::Tool { id: tid, .. } => tid == id,
        _ => false,
    }
}

/// Where the last tool call `id` stands in `out`, or -1.
pub open spec fn last_call(out: Seq<EntryV>, id: Seq<char>) -> int
    decreases out.len(),
{
    if out.len() == 0 {
        -1
    } else if is_call(out.last(), id) {
        out.len() - 1
    } else {
        last_call(out.drop_last(), id)
    }
}

/// `out` after a tool result: it fills the last call with its id, or stands
/// alone if there is none.
pub open spec fn with_result(
    out: Seq<EntryV>,
    id: Seq<char>,
    name: Seq<char>,
    output: Seq<char>,
    is_error: bool,
) -> Seq<EntryV> {
    let at = last_call(out, id);
    if 0 <= at < out.len() {
        out.update(
            at,
            EntryV::Tool { id, name: out[at]->Tool_name, output, done: true, is_error },
        )
    } else {
        out.push(EntryV::Tool { id, name, output, done: true, is_error })
    }
}

/// `out` after one more stored message.
pub open spec fn with_message(out: Seq<EntryV>, msg: JsonV) -> Seq<EntryV> {
    let role = msg.text_or("role"@, ""@);
    if role == "user"@ {
        if text_content(msg).len() > 0 {
            out.push(EntryV::User(text_content(msg)))
        } else {
            out
        }
    } else if role == "assistant"@ {
        with_parts(out, message_parts(msg))
    } else if role == "toolResult"@ {
        with_result(
            out,
            msg.text_or("toolCallId"@, ""@),
            msg.text_or("toolName"@, "tool"@),
            text_content(msg),
            msg.flag("isError"@),
        )
    } else {
        out
    }
}

/// The transcript that stored messages make up.
pub open spec fn entries_of(messages: Seq<JsonV>) -> Seq<EntryV>
    decreases messages.len(),
{
    if messages.len() == 0 {
        Seq::empty()
    } else {
        with_message(entries_of(messages.drop_last()), messages.last())
    }
}

fn push_parts(out: &mut Vec<Entry>, parts: Vec<(usize, Part)>)
    ensures
        final(out).deep_view() == with_parts(old(out).deep_view(), parts.deep_view()),
{
    let ghost all = parts.deep_view();
    let ghost start = out.deep_view();
    assert(all.take(0) =~= Seq::empty());
    for item in it: parts
        invariant
            it.seq() == parts@,
            all == parts.deep_view(),
            out.deep_view() == with_parts(start, all.take(it.index() as int)),
    {
        assert(all.take(it.index() + 1).drop_last() =~= all.take(it.index() as int));
        assert(all.take(it.index() + 1).last() == item.deep_view());
        match item.1 {
            Part::Text(t) => if !t.as_str().is_empty() {
                out.push(Entry::Assistant(t));
            },
            Part::Thinking(t) => {
                out.push(Entry::Thinking(t));
            },
            Part::ToolCall { id, name } => {
                let output = String::new();
                assert(output@ =~= Seq::empty());
                out.push(Entry::Tool { id, name, output, done: false, is_error: false });
            },
        }
    }
    assert(all.take(all.len() as int) =~= all);
}

fn push_result(out: &mut Vec<Entry>, id: String, name: String, output: String, is_error: bool)
    ensures
        final(out).deep_view() == with_result(old(out).deep_view(), id@, name@, output@, is_error),
{
    let ghost start = out.deep_view();
    let mut n: usize = out.len();
    assert(start.take(n as int) =~= start);
    while n > 0
        invariant
            n <= out@.len(),
            start == out.deep_view(),
            start == old(out).deep_view(),
            last_call(start.take(n as int), id@) == last_call(start, id@),
        decreases n,
    {
        let at: usize = n - 1;
        assert(start[at as int] == out@[at as int].deep_view());
        assert(start.take(n as int).last() == start[at as int]);
        if let Entry::Tool { id: tid, name: old_name, .. } = &out[at] {
            if same(tid.as_str(), id.as_str()) {
                let kept = old_name.clone();
                let filled = Entry::Tool { id, name: kept, output, done: true, is_error };
                out.set(at, filled);
                assert(out.deep_view() =~= with_result(start, id@, name@, output@, is_error));
                return ;
            }
        }
        assert(start.take(n as int).drop_last() =~= start.take(at as int));
        n = at;
    }
    out.push(Entry::Tool { id, name, output, done: true, is_error });
}

fn push_message(out: &mut Vec<Entry>, msg: &Json)
    ensures
        final(out).deep_view() == with_message(old(out).deep_view(), msg.deep_view()),
{
    let role = msg.text_or("role", "");
    if same(role.as_str(), "user") {
        let text = content_text(msg);
        if !text.as_str().is_empty() {
            out.push(Entry::User(text));
        }
    } else if same(role.as_str(), "assistant") {
        push_parts(out, parse_parts(msg));
    } else if same(role.as_str(), "toolResult") {
        let (output, is_error) = tool_output(msg);
        push_result(
            out,
            msg.text_or("toolCallId", ""),
            msg.text_or("toolName", "tool"),
            output,
            is_error,
        );
    }
}

/// Converts stored messages to transcript entries.
pub fn messages_to_entries(messages: &Vec<Json>) -> (out: Vec<Entry>)
    ensures
        out.deep_view() == entries_of(items_view(messages@)),
{
    let mut out: Vec<Entry> = Vec::new();
    let ghost all = items_view(messages@);
    assert(all.take(0) =~= Seq::empty());
    let mut i: usize = 0;
    while i < messages.len()
        invariant
            i <= messages@.len(),
            all == items_view(messages@),
            out.deep_view() == entries_of(all.take(i as int)),
        decreases messages@.len() - i,
    {
        assert(all.take(i + 1).drop_last() =~= all.take(i as int));
        assert(all.take(i + 1).last() == json_view(messages@[i as int]));
        push_message(&mut out, &messages[i]);
        i += 1;
    }
    assert(all.take(i as int) =~= all);
    out
}

/// The message of a session file's line, if the line records one.
pub open spec fn line_message(line: Seq<char>) -> Option<JsonV> {
    match json_parse(line) {
        Some(j) => if j.text("type"@) == Some("message"@) {
            Some(j.at("message"@))
        } else {
            None
        },
        None => None,
    }
}

/// The messages recorded by the lines of a session file.
pub open spec fn line_messages(lines: Seq<Seq<char>>) -> Seq<JsonV>
    decreases lines.len(),
{
    if lines.len() == 0 {
        Seq::empty()
    } else {
        match line_message(lines.last()) {
            Some(m) => line_messages(lines.drop_last()).push(m),
            None => line_messages(lines.drop_last()),
        }
    }
}

/// The whole lines of a tail: a tail that does not begin the file loses its
/// first line, which is probably cut, and may be so inside a character.
pub open spec fn whole_lines(tail: Seq<u8>, cut: bool) -> Seq<u8> {
    if cut {
        let at = find_byte(tail, 10);
        if at < tail.len() {
            tail.skip(at + 1)
        } else {
            Seq::empty()
        }
    } else {
        tail
    }
}

/// The transcript that the whole lines of a tail record; none if they are no
/// text.
pub open spec fn tail_entries(tail: Seq<u8>, cut: bool) -> Seq<EntryV> {
    match text_of(whole_lines(tail, cut)) {
        Some(text) => entries_of(line_messages(crate::text::lines_of(text))),
        None => Seq::empty(),
    }
}

/// Where reading a session file of `len` bytes starts, to read at most
/// `max_bytes` of it.
pub fn tail_start(len: u64, max_bytes: u64) -> (out: u64)
    ensures
        out == (if len <= max_bytes {
            0
        } else {
            len - max_bytes
        }),
{
    if len <= max_bytes {
        0
    } else {
        len - max_bytes
    }
}

/// Reconstructs the transcript from the bytes at the end of a session file; `cut`
/// says that they do not begin the file. Only whole lines are decoded.
pub fn read_jsonl_tail(tail: &Vec<u8>, cut: bool) -> (out: Vec<Entry>)
    ensures
        out.deep_view() == tail_entries(tail@, cut),
{
    let total: usize = tail.len();
    let from: usize = if cut {
        let at: usize = first_byte(tail, 10);
        if at < total {
            at + 1
        } else {
            total
        }
    } else {
        0
    };
    let whole = byte_piece(tail, from, total);
    assert(whole@ =~= whole_lines(tail@, cut));
    let body = match utf8_text(whole) {
        Some(text) => text,
        None => {
            return Vec::new();
        },
    };
    let rows = lines(body.as_str());
    let ghost all = rows.deep_view();
    let mut out: Vec<Entry> = Vec::new();
    assert(all.take(0) =~= Seq::empty());
    let mut i: usize = 0;
    while i < rows.len()
        invariant
            i <= rows@.len(),
            all == rows.deep_view(),
            out.deep_view() == entries_of(line_messages(all.take(i as int))),
        decreases rows@.len() - i,
    {
        assert(all.take(i + 1).drop_last() =~= all.take(i as int));
        assert(all.take(i + 1).last() == rows@[i as int]@);
        if let Some(j) = parse_json(rows[i].as_str()) {
            let is_message = match j.text("type") {
                Some(t) => same(t, "message"),
                None => false,
            };
            if is_message {
                let null = Json::Null;
                let ghost before = line_messages(all.take(i as int));
                let ghost msg = j.deep_view().at("message"@);
                push_message(&mut out, j.get("message").unwrap_or(&null));
                assert(before.push(msg).drop_last() =~= before);
            }
        }
        i += 1;
    }
    assert(all.take(i as int) =~= all);
    out
}

// ── Accounting and catalogs ─────────────────────────────────────────────────

/// A count in `j`; 0 where it is missing.
pub open spec fn count_at(j: JsonV, key: Seq<char>) -> u64 {
    match j.number(key) {
        Some(n) => n,
        None => 0,
    }
}

/// Session accounting as the agent reports it.
pub open spec fn stats_of(data: JsonV) -> SessionStatsV {
    let tokens = data.at("tokens"@);
    let usage = data.at("contextUsage"@);
    SessionStatsV {
        input: count_at(tokens, "input"@),
        output: count_at(tokens, "output"@),
        cache_read: count_at(tokens, "cacheRead"@),
        cache_write: count_at(tokens, "cacheWrite"@),
        cost: match data.get("cost"@) {
            Some(JsonV::Number { text, .. }) => Some(text),
            _ => None,
        },
        context_tokens: usage.number("tokens"@),
        context_window: usage.number("contextWindow"@),
        context_percent: match usage.number("percent"@) {
            Some(p) => Some(
                if p < 255 {
                    p as u8
                } else {
                    255u8
                },
            ),
            None => None,
        },
    }
}

fn count_or_zero(j: &Json, key: &str) -> (out: u64)
    ensures
        out == count_at(j.deep_view(), key@),
{
    match j.number(key) {
        Some(n) => n,
        None => 0,
    }
}

/// Reads session accounting. Both backends report the same shape.
pub fn parse_stats(data: &Json) -> (out: SessionStats)
    ensures
        out.deep_view() == stats_of(data.deep_view()),
{
    let null = Json::Null;
    let tokens = data.get("tokens").unwrap_or(&null);
    let usage = data.get("contextUsage").unwrap_or(&null);
    let cost: Option<String> = match data.get("cost") {
        Some(Json::Number { text, .. }) => Some(text.clone()),
        _ => None,
    };
    let context_percent: Option<u8> = match usage.number("percent") {
        Some(p) => Some(
            if p < 255 {
                p as u8
            } else {
                255u8
            },
        ),
        None => None,
    };
    SessionStats {
        input: count_or_zero(tokens, "input"),
        output: count_or_zero(tokens, "output"),
        cache_read: count_or_zero(tokens, "cacheRead"),
        cache_write: count_or_zero(tokens, "cacheWrite"),
        cost,
        context_tokens: usage.number("tokens"),
        context_window: usage.number("contextWindow"),
        context_percent,
    }
}

/// Provider and id of a model object.
pub open spec fn model_ids(m: JsonV) -> Option<(Seq<char>, Seq<char>)> {
    match (m.text("provider"@), either_text(m, "id"@, "modelId"@)) {
        (Some(provider), Some(id)) => Some((provider, id)),
        _ => None,
    }
}

/// Provider and id of a model object.
pub fn read_model_ids(m: &Json) -> (out: Option<(String, String)>)
    ensures
        out.deep_view() == model_ids(m.deep_view()),
{
    match m.text("provider") {
        Some(provider) => match first_text(m, "id", "modelId") {
            Some(id) => Some((provider.to_owned(), id.to_owned())),
            None => None,
        },
        None => None,
    }
}

/// A catalog entry; its id stands in for a missing name.
pub open spec fn model_of(m: JsonV) -> Option<ModelInfoV> {
    match model_ids(m) {
        Some((provider, id)) => Some(ModelInfoV { provider, id, name: m.text_or("name"@, id) }),
        None => None,
    }
}

/// The catalog entries among `items`.
pub open spec fn models_of(items: Seq<JsonV>) -> Seq<ModelInfoV>
    decreases items.len(),
{
    if items.len() == 0 {
        Seq::empty()
    } else {
        match model_of(items.last()) {
            Some(m) => models_of(items.drop_last()).push(m),
            None => models_of(items.drop_last()),
        }
    }
}

/// The catalog in the array at `key`.
pub open spec fn catalog_at(j: JsonV, key: Seq<char>) -> Seq<ModelInfoV> {
    match j.list(key) {
        Some(items) => models_of(items),
        None => Seq::empty(),
    }
}

/// The catalog in the array at `key`.
pub fn read_catalog(j: &Json, key: &str) -> (out: Vec<ModelInfo>)
    ensures
        out.deep_view() == catalog_at(j.deep_view(), key@),
{
    let mut out: Vec<ModelInfo> = Vec::new();
    if let Some(items) = j.list(key) {
        let ghost all = items_view(items@);
        assert(all.take(0) =~= Seq::empty());
        let mut i: usize = 0;
        while i < items.len()
            invariant
                i <= items@.len(),
                all == items_view(items@),
                out.deep_view() == models_of(all.take(i as int)),
            decreases items@.len() - i,
        {
            assert(all.take(i + 1).drop_last() =~= all.take(i as int));
            assert(all.take(i + 1).last() == json_view(items@[i as int]));
            if let Some((provider, id)) = read_model_ids(&items[i]) {
                let name = items[i].text_or("name", id.as_str());
                out.push(ModelInfo { provider, id, name });
            }
            i += 1;
        }
        assert(all.take(i as int) =~= all);
    }
    out
}

/// `{models:[{id,name,provider,…}]}` as a catalog.
pub fn parse_models(data: &Json) -> (out: Vec<ModelInfo>)
    ensures
        out.deep_view() == catalog_at(data.deep_view(), "models"@),
{
    read_catalog(data, "models")
}

/// `{levels:[…]}` as level names.
pub fn parse_levels(data: &Json) -> (out: Vec<String>)
    ensures
        out.deep_view() == data.deep_view().strings("levels"@),
{
    data.strings("levels")
}

/// A slash command; it needs a name.
pub open spec fn command_of(c: JsonV) -> Option<CommandInfoV> {
    match c.text("name"@) {
        Some(name) => Some(
            CommandInfoV {
                name,
                description: c.text_or("description"@, ""@),
                source: c.text_or("source"@, ""@),
            },
        ),
        None => None,
    }
}

/// The slash commands among `items`.
pub open spec fn commands_of(items: Seq<JsonV>) -> Seq<CommandInfoV>
    decreases items.len(),
{
    if items.len() == 0 {
        Seq::empty()
    } else {
        match command_of(items.last()) {
            Some(c) => commands_of(items.drop_last()).push(c),
            None => commands_of(items.drop_last()),
        }
    }
}

/// The slash commands of `{commands:[…]}`.
pub open spec fn commands_in(data: JsonV) -> Seq<CommandInfoV> {
    match data.list("commands"@) {
        Some(items) => commands_of(items),
        None => Seq::empty(),
    }
}

/// `{commands:[{name,description,source}]}` as a command list.
pub fn parse_commands(data: &Json) -> (out: Vec<CommandInfo>)
    ensures
        out.deep_view() == commands_in(data.deep_view()),
{
    let mut out: Vec<CommandInfo> = Vec::new();
    if let Some(items) = data.list("commands") {
        let ghost all = items_view(items@);
        assert(all.take(0) =~= Seq::empty());
        let mut i: usize = 0;
        while i < items.len()
            invariant
                i <= items@.len(),
                all == items_view(items@),
                out.deep_view() == commands_of(all.take(i as int)),
            decreases items@.len() - i,
        {
            assert(all.take(i + 1).drop_last() =~= all.take(i as int));
            assert(all.take(i + 1).last() == json_view(items@[i as int]));
            if let Some(name) = items[i].text("name") {
                out.push(
                    CommandInfo {
                        name: name.to_owned(),
                        description: items[i].text_or("description", ""),
                        source: items[i].text_or("source", ""),
                    },
                );
            }
            i += 1;
        }
        assert(all.take(i as int) =~= all);
    }
    out
}

// ── Laws ────────────────────────────────────────────────────────────────────

/// A window that starts inside the first line, wherever that is, gives the
/// transcript of the lines behind it.
pub proof fn law_cut_line_is_dropped(first: Seq<u8>, rest: Seq<u8>)
    requires
        !first.contains(10),
    ensures
        tail_entries(first + seq![10u8] + rest, true) == tail_entries(rest, false),
{
    let tail = first + seq![10u8] + rest;
    lemma_find_break(first, rest);
    assert(tail.skip(first.len() as int + 1) =~= rest);
}

proof fn lemma_find_break(first: Seq<u8>, rest: Seq<u8>)
    requires
        !first.contains(10),
    ensures
        find_byte(first + seq![10u8] + rest, 10) == first.len(),
    decreases first.len(),
{
    let tail = first + seq![10u8] + rest;
    if first.len() > 0 {
        let less = first.drop_first();
        assert forall|i: int| 0 <= i < less.len() implies less[i] != 10 by {
            assert(less[i] == first[i + 1]);
        }
        assert(first.contains(first[0]));
        lemma_find_break(less, rest);
        assert(tail.drop_first() =~= less + seq![10u8] + rest);
    }
}

/// The roles of a message, and the types of its blocks, are told apart.
proof fn lemma_role_names()
    ensures
        "user"@.len() == 4,
        "assistant"@.len() == 9,
        "toolResult"@.len() == 10,
{
    reveal_strlit("user");
    reveal_strlit("assistant");
    reveal_strlit("toolResult");
}

/// The types of a content block are told apart.
proof fn lemma_block_names()
    ensures
        "text"@.len() == 4,
        "thinking"@.len() == 8,
        "thinking"@[1] == 'h',
        "toolCall"@.len() == 8,
        "toolCall"@[1] == 'o',
{
    reveal_strlit("text");
    reveal_strlit("thinking");
    reveal_strlit("toolCall");
}

// ── Laws of a stored history ────────────────────────────────────────────────

/// `after` is what became of the entry `before`: a tool call may have got its result
/// and nothing else changes.
pub open spec fn still_stands(before: EntryV, after: EntryV) -> bool {
    match before {
        EntryV::Tool { id, name, .. } => after matches EntryV::Tool { id: i, name: n, .. } && i == id
            && n == name,
        _ => after == before,
    }
}

proof fn lemma_last_call(out: Seq<EntryV>, id: Seq<char>)
    ensures
        -1 <= last_call(out, id) < out.len(),
        last_call(out, id) >= 0 ==> is_call(out[last_call(out, id)], id),
        forall|i: int| last_call(out, id) < i < out.len() ==> !is_call(#[trigger] out[i], id),
    decreases out.len(),
{
    if out.len() > 0 && !is_call(out.last(), id) {
        lemma_last_call(out.drop_last(), id);
        assert forall|i: int| last_call(out, id) < i < out.len() implies !is_call(
            #[trigger] out[i],
            id,
        ) by {
            if i < out.len() - 1 {
                assert(out.drop_last()[i] == out[i]);
            }
        }
    }
}

proof fn lemma_parts_grow(out: Seq<EntryV>, parts: Seq<(usize, PartV)>)
    ensures
        out.len() <= with_parts(out, parts).len(),
        with_parts(out, parts).take(out.len() as int) == out,
    decreases parts.len(),
{
    if parts.len() > 0 {
        lemma_parts_grow(out, parts.drop_last());
        let before = with_parts(out, parts.drop_last());
        assert(with_parts(out, parts).take(out.len() as int) =~= before.take(out.len() as int));
    } else {
        assert(out.take(out.len() as int) =~= out);
    }
}

proof fn lemma_message_grows(out: Seq<EntryV>, msg: JsonV)
    ensures
        out.len() <= with_message(out, msg).len(),
        forall|i: int|
            0 <= i < out.len() ==> still_stands(#[trigger] out[i], with_message(out, msg)[i]),
{
    let after = with_message(out, msg);
    let role = msg.text_or("role"@, ""@);
    if role == "user"@ {
    } else if role == "assistant"@ {
        lemma_parts_grow(out, message_parts(msg));
        assert forall|i: int| 0 <= i < out.len() implies still_stands(#[trigger] out[i], after[i]) by {
            assert(after.take(out.len() as int)[i] == after[i]);
        }
    } else if role == "toolResult"@ {
        lemma_last_call(out, msg.text_or("toolCallId"@, ""@));
    }
}

/// The transcript of a history only grows: whatever messages follow, every entry of the
/// earlier ones stands where it stood. Only a tool call may get its result.
pub proof fn law_history_only_grows(a: Seq<JsonV>, b: Seq<JsonV>)
    ensures
        entries_of(a).len() <= entries_of(a + b).len(),
        forall|i: int|
            0 <= i < entries_of(a).len() ==> still_stands(
                #[trigger] entries_of(a)[i],
                entries_of(a + b)[i],
            ),
    decreases b.len(),
{
    if b.len() == 0 {
        assert(a + b =~= a);
    } else {
        let less = b.drop_last();
        law_history_only_grows(a, less);
        assert((a + b).drop_last() =~= a + less);
        assert((a + b).last() == b.last());
        let mid = entries_of(a + less);
        lemma_message_grows(mid, b.last());
        assert forall|i: int| 0 <= i < entries_of(a).len() implies still_stands(
            #[trigger] entries_of(a)[i],
            entries_of(a + b)[i],
        ) by {
            assert(still_stands(entries_of(a)[i], mid[i]));
            assert(still_stands(mid[i], entries_of(a + b)[i]));
        }
    }
}

/// The texts of the user's entries.
pub open spec fn user_texts(entries: Seq<EntryV>) -> Seq<Seq<char>>
    decreases entries.len(),
{
    if entries.len() == 0 {
        Seq::empty()
    } else {
        match entries.last() {
            EntryV::User(t) => user_texts(entries.drop_last()).push(t),
            _ => user_texts(entries.drop_last()),
        }
    }
}

/// What the user said: the texts of the user's messages that have any.
pub open spec fn said_by_user(messages: Seq<JsonV>) -> Seq<Seq<char>>
    decreases messages.len(),
{
    if messages.len() == 0 {
        Seq::empty()
    } else {
        let before = said_by_user(messages.drop_last());
        let m = messages.last();
        if m.text("role"@) == Some("user"@) && text_content(m).len() > 0 {
            before.push(text_content(m))
        } else {
            before
        }
    }
}

proof fn lemma_parts_add_no_user(out: Seq<EntryV>, parts: Seq<(usize, PartV)>)
    ensures
        user_texts(with_parts(out, parts)) == user_texts(out),
    decreases parts.len(),
{
    if parts.len() > 0 {
        lemma_parts_add_no_user(out, parts.drop_last());
        let before = with_parts(out, parts.drop_last());
        if let Some(e) = part_entry(parts.last().1) {
            assert(before.push(e).drop_last() =~= before);
        }
    }
}

proof fn lemma_update_keeps_users(out: Seq<EntryV>, at: int, e: EntryV)
    requires
        0 <= at < out.len(),
        !(out[at] is User),
        !(e is User),
    ensures
        user_texts(out.update(at, e)) == user_texts(out),
    decreases out.len(),
{
    let after = out.update(at, e);
    if at == out.len() - 1 {
        assert(after.drop_last() =~= out.drop_last());
    } else {
        lemma_update_keeps_users(out.drop_last(), at, e);
        assert(after.drop_last() =~= out.drop_last().update(at, e));
    }
}

/// The user's entries are exactly what the user said, in order: nothing is dropped,
/// added or shown twice.
pub proof fn law_user_messages_are_shown(messages: Seq<JsonV>)
    ensures
        user_texts(entries_of(messages)) == said_by_user(messages),
    decreases messages.len(),
{
    if messages.len() > 0 {
        law_user_messages_are_shown(messages.drop_last());
        lemma_role_names();
        reveal_strlit("");
        let out = entries_of(messages.drop_last());
        let m = messages.last();
        let role = m.text_or("role"@, ""@);
        if role == "user"@ {
            if text_content(m).len() > 0 {
                assert(out.push(EntryV::User(text_content(m))).drop_last() =~= out);
            }
        } else if role == "assistant"@ {
            lemma_parts_add_no_user(out, message_parts(m));
        } else if role == "toolResult"@ {
            let id = m.text_or("toolCallId"@, ""@);
            lemma_last_call(out, id);
            let at = last_call(out, id);
            if at >= 0 {
                lemma_update_keeps_users(out, at, entries_of(messages)[at]);
            } else {
                assert(entries_of(messages).drop_last() =~= out);
            }
        }
    }
}

proof fn lemma_parts_split(out: Seq<EntryV>, a: Seq<JsonV>, b: Seq<JsonV>)
    ensures
        with_parts(out, parts_of(a + b)) == with_parts(with_parts(out, parts_of(a)), parts_of(b)),
    decreases b.len(),
{
    if b.len() == 0 {
        assert(a + b =~= a);
    } else {
        assert((a + b).drop_last() =~= a + b.drop_last());
        assert((a + b).last() == b.last());
        lemma_parts_split(out, a, b.drop_last());
        if let Some(p) = part_of(b.last()) {
            let x = parts_of(a + b.drop_last());
            let y = parts_of(b.drop_last());
            assert(parts_of(a + b).drop_last() =~= x);
            assert(parts_of(b).drop_last() =~= y);
        }
    }
}

/// A message of the assistant shows its blocks one by one, in order: one with two runs
/// of blocks shows what two messages with one run each show.
pub proof fn law_message_shows_its_blocks_in_order(
    messages: Seq<JsonV>,
    whole: JsonV,
    first: JsonV,
    second: JsonV,
    a: Seq<JsonV>,
    b: Seq<JsonV>,
)
    requires
        whole.text("role"@) == Some("assistant"@),
        first.text("role"@) == Some("assistant"@),
        second.text("role"@) == Some("assistant"@),
        whole.list("content"@) == Some(a + b),
        first.list("content"@) == Some(a),
        second.list("content"@) == Some(b),
    ensures
        entries_of(messages.push(whole)) == entries_of(messages.push(first).push(second)),
{
    lemma_role_names();
    let out = entries_of(messages);
    assert(messages.push(whole).drop_last() =~= messages);
    assert(messages.push(first).drop_last() =~= messages);
    assert(messages.push(first).push(second).drop_last() =~= messages.push(first));
    assert(entries_of(messages.push(first)) == with_parts(out, parts_of(a)));
    lemma_parts_split(out, a, b);
}

/// Each block of a message of the assistant becomes an entry behind all others: a text
/// that is not empty, a thought, and a tool call that waits for its result. Other
/// blocks show nothing.
pub proof fn law_block_becomes_an_entry(messages: Seq<JsonV>, msg: JsonV, block: JsonV)
    requires
        msg.text("role"@) == Some("assistant"@),
        msg.list("content"@) == Some(seq![block]),
    ensures
        ({
            let before = entries_of(messages);
            let after = entries_of(messages.push(msg));
            &&& block.text("type"@) == Some("text"@) ==> (match block.text("text"@) {
                Some(t) => after == (if t.len() > 0 {
                    before.push(EntryV::Assistant(t))
                } else {
                    before
                }),
                None => after == before,
            })
            &&& block.text("type"@) == Some("thinking"@) ==> (block.text("thinking"@) matches Some(t)
                ==> after == before.push(EntryV::Thinking(t)))
            &&& block.text("type"@) == Some("toolCall"@) ==> (block.text("id"@) matches Some(id) ==> (
            block.text("name"@) matches Some(name) ==> after == (if id.len() == 0 {
                before
            } else {
                before.push(
                    EntryV::Tool { id, name, output: Seq::empty(), done: false, is_error: false },
                )
            })))
            &&& block.text("type"@) == Some("toolCall"@) && block.get("id"@) is None && block.get(
                "name"@,
            ) is None ==> (block.text("toolCallId"@) matches Some(id) ==> (block.text("toolName"@)
                matches Some(name) ==> after == (if id.len() == 0 {
                before
            } else {
                before.push(
                    EntryV::Tool { id, name, output: Seq::empty(), done: false, is_error: false },
                )
            })))
            &&& (block.text("type"@) matches Some(ty) ==> ty != "text"@ && ty != "thinking"@ && ty
                != "toolCall"@) ==> after == before
        }),
{
    lemma_role_names();
    lemma_block_names();
    reveal_strlit("");
    let items = seq![block];
    assert(messages.push(msg).drop_last() =~= messages);
    assert(items.drop_last() =~= Seq::empty());
    assert(parts_of(items.drop_last()) =~= Seq::empty());
    let out = entries_of(messages);
    if let Some(p) = part_of(block) {
        assert(parts_of(items).drop_last() =~= Seq::empty());
        assert(with_parts(out, parts_of(items).drop_last()) == out);
    }
}

/// A tool result fills the last call with its id and leaves every other entry as it is;
/// without such a call it stands behind all others.
pub proof fn law_result_fills_its_call(messages: Seq<JsonV>, msg: JsonV, id: Seq<char>)
    requires
        msg.text("role"@) == Some("toolResult"@),
        msg.text("toolCallId"@) == Some(id),
    ensures
        ({
            let before = entries_of(messages);
            let after = entries_of(messages.push(msg));
            let output = text_content(msg);
            let is_error = msg.get("isError"@) == Some(JsonV::Bool(true));
            if exists|i: int| 0 <= i < before.len() && (#[trigger] before[i] matches EntryV::Tool { id: x, .. } && x == id) {
                &&& after.len() == before.len()
                &&& exists|at: int| #![trigger before[at]]
                    {
                        &&& 0 <= at < before.len()
                        &&& before[at] matches EntryV::Tool { id: x, name, .. } && x == id && after[at] == (EntryV::Tool { id, name, output, done: true, is_error })
                        &&& forall|j: int| at < j < before.len() ==> !(#[trigger] before[j] matches EntryV::Tool { id: y, .. } && y == id)
                        &&& forall|j: int| 0 <= j < before.len() && j != at ==> #[trigger] after[j] == before[j]
                    }
            } else {
                &&& after.len() == before.len() + 1
                &&& after.drop_last() == before
                &&& after.last() matches EntryV::Tool { id: x, name, output: o, done, is_error: e } && x == id && o == output && done && e == is_error && (msg.text("toolName"@) matches Some(n) ==> name == n)
            }
        }),
{
    lemma_role_names();
    assert(messages.push(msg).drop_last() =~= messages);
    let before = entries_of(messages);
    let after = entries_of(messages.push(msg));
    lemma_last_call(before, id);
    let at = last_call(before, id);
    if at >= 0 {
        assert(is_call(before[at], id));
        assert(before[at] matches EntryV::Tool { id: x, .. } && x == id);
        assert forall|j: int| at < j < before.len() implies !(#[trigger] before[j] matches EntryV::Tool { id: y, .. } && y == id) by {
            assert(!is_call(before[j], id));
        }
    } else {
        assert forall|j: int| 0 <= j < before.len() implies !(#[trigger] before[j] matches EntryV::Tool { id: y, .. } && y == id) by {
            assert(!is_call(before[j], id));
        }
        assert(after.drop_last() =~= before);
    }
}

/// A message of any other role shows nothing.
pub proof fn law_other_roles_show_nothing(messages: Seq<JsonV>, msg: JsonV)
    requires
        msg.text("role"@) matches Some(r) ==> r != "user"@ && r != "assistant"@ && r != "toolResult"@,
    ensures
        entries_of(messages.push(msg)) == entries_of(messages),
{
    lemma_role_names();
    reveal_strlit("");
    assert(messages.push(msg).drop_last() =~= messages);
}

/// The text of a message is that of its blocks, one behind the other.
pub proof fn law_text_is_joined(a: Seq<JsonV>, b: Seq<JsonV>)
    ensures
        texts_joined(a + b) == texts_joined(a) + texts_joined(b),
    decreases b.len(),
{
    if b.len() == 0 {
        assert(a + b =~= a);
        assert(texts_joined(a) + texts_joined(b) =~= texts_joined(a));
    } else {
        assert((a + b).drop_last() =~= a + b.drop_last());
        law_text_is_joined(a, b.drop_last());
        assert(texts_joined(a + b) =~= texts_joined(a) + texts_joined(b));
    }
}

/// A block's text is its `text` member, if that is a text, and nothing else.
pub proof fn law_text_of_one_block(msg: JsonV, block: JsonV)
    requires
        msg.list("content"@) == Some(seq![block]),
    ensures
        block.get("text"@) matches Some(JsonV::Str(t)) ==> text_content(msg) == t,
        !(block.get("text"@) matches Some(JsonV::Str(_))) ==> text_content(msg).len() == 0,
{
    let items = seq![block];
    assert(items.drop_last() =~= Seq::empty());
    assert(texts_joined(items.drop_last()) =~= Seq::empty());
    if let Some(t) = block.text("text"@) {
        assert(texts_joined(items) =~= t);
    }
}

/// The lines of a session file are read one by one: those in front record the same
/// messages whatever follows.
pub proof fn law_lines_are_read_in_order(a: Seq<Seq<char>>, b: Seq<Seq<char>>)
    ensures
        line_messages(a + b) == line_messages(a) + line_messages(b),
    decreases b.len(),
{
    if b.len() == 0 {
        assert(a + b =~= a);
        assert(line_messages(a) + line_messages(b) =~= line_messages(a));
    } else {
        assert((a + b).drop_last() =~= a + b.drop_last());
        law_lines_are_read_in_order(a, b.drop_last());
        assert(line_messages(a + b) =~= line_messages(a) + line_messages(b));
    }
}

/// A line that says it is a message records its `message` member; any other line, and
/// one that is no JSON, records nothing.
pub proof fn law_line_records_its_message(line: Seq<char>)
    ensures
        ({
            let found = line_messages(seq![line]);
            match json_parse(line) {
                Some(j) => if j.get("type"@) == Some(JsonV::Str("message"@)) {
                    found.len() == 1 && (j.get("message"@) matches Some(m) ==> found[0] == m)
                } else {
                    found.len() == 0
                },
                None => found.len() == 0,
            }
        }),
{
    let all = seq![line];
    assert(all.drop_last() =~= Seq::empty());
    assert(line_messages(all.drop_last()) =~= Seq::empty());
}

/// The kinds of payload are told apart.
proof fn lemma_kind_names()
    ensures
        "connected"@.len() == 9,
        "connected"@[0] == 'c',
        "message_start"@.len() == 13,
        "message_start"@[0] == 'm',
        "message_update"@.len() == 14,
        "message_update"@[0] == 'm',
        "message_end"@.len() == 11,
        "message_end"@[0] == 'm',
        "tool_execution_start"@.len() == 20,
        "tool_execution_start"@[0] == 't',
        "tool_execution_update"@.len() == 21,
        "tool_execution_update"@[0] == 't',
        "tool_execution_end"@.len() == 18,
        "agent_start"@.len() == 11,
        "agent_start"@[0] == 'a',
        "agent_end"@.len() == 9,
        "agent_end"@[0] == 'a',
        "agent_settled"@.len() == 13,
        "agent_settled"@[0] == 'a',
        "queue_update"@.len() == 12,
        "extension_ui_request"@.len() == 20,
        "extension_ui_request"@[0] == 'e',
        "compaction_start"@.len() == 16,
        "compaction_start"@[0] == 'c',
        "auto_compaction_start"@.len() == 21,
        "auto_compaction_start"@[0] == 'a',
        "compaction_end"@.len() == 14,
        "compaction_end"@[0] == 'c',
        "auto_compaction_end"@.len() == 19,
        "auto_retry_start"@.len() == 16,
        "auto_retry_start"@[0] == 'a',
        "startup_error"@.len() == 13,
        "startup_error"@[0] == 's',
{
    reveal_strlit("connected");
    reveal_strlit("message_start");
    reveal_strlit("message_update");
    reveal_strlit("message_end");
    reveal_strlit("tool_execution_start");
    reveal_strlit("tool_execution_update");
    reveal_strlit("tool_execution_end");
    reveal_strlit("agent_start");
    reveal_strlit("agent_end");
    reveal_strlit("agent_settled");
    reveal_strlit("queue_update");
    reveal_strlit("extension_ui_request");
    reveal_strlit("compaction_start");
    reveal_strlit("auto_compaction_start");
    reveal_strlit("compaction_end");
    reveal_strlit("auto_compaction_end");
    reveal_strlit("auto_retry_start");
    reveal_strlit("startup_error");
}

/// The ways of asking are told apart.
proof fn lemma_method_names()
    ensures
        "notify"@.len() == 6,
        "notify"@[0] == 'n',
        "select"@.len() == 6,
        "select"@[0] == 's',
        "confirm"@.len() == 7,
        "input"@.len() == 5,
        "editor"@.len() == 6,
        "editor"@[0] == 'e',
{
    reveal_strlit("notify");
    reveal_strlit("select");
    reveal_strlit("confirm");
    reveal_strlit("input");
    reveal_strlit("editor");
}

/// The kinds of update are told apart.
proof fn lemma_update_names()
    ensures
        "text_delta"@.len() == 10,
        "thinking_delta"@.len() == 14,
        "thinking_delta"@[1] == 'h',
        "toolcall_start"@.len() == 14,
        "toolcall_start"@[1] == 'o',
        "toolcall_end"@.len() == 12,
        "error"@.len() == 5,
{
    reveal_strlit("text_delta");
    reveal_strlit("thinking_delta");
    reveal_strlit("toolcall_start");
    reveal_strlit("toolcall_end");
    reveal_strlit("error");
}

// ── Laws of live events ─────────────────────────────────────────────────────

/// A payload that says what it is.
pub open spec fn is_kind(ev: JsonV, kind: Seq<char>) -> bool {
    ev.get("type"@) == Some(JsonV::Str(kind))
}

/// A question of an extension reaches the panel whole, whichever of the four ways of
/// asking it uses.
pub proof fn law_question_is_passed_on(ev: JsonV, method: Seq<char>, lang: Lang)
    requires
        is_kind(ev, "extension_ui_request"@),
        ev.text("method"@) == Some(method),
        method == "select"@ || method == "confirm"@ || method == "input"@ || method == "editor"@,
    ensures
        ({
            let events = events_of(ev, lang);
            &&& events.len() == 1
            &&& events[0] matches EventV::UiRequest { id, method: m, title, message, options, prefill }
                && m == method && (ev.text("id"@) matches Some(t) ==> id == t) && (ev.text("title"@)
                matches Some(t) ==> title == t) && message == ev.text("message"@) && options
                == ev.strings("options"@) && prefill == ev.text("prefill"@)
        }),
{
    lemma_kind_names();
    lemma_method_names();
}

/// A notification becomes a notice with its message, unless that is empty; a request of
/// any other method asks nothing.
pub proof fn law_notification_is_shown(ev: JsonV, method: Seq<char>, lang: Lang)
    requires
        is_kind(ev, "extension_ui_request"@),
        ev.text("method"@) == Some(method),
        method != "select"@ && method != "confirm"@ && method != "input"@ && method != "editor"@,
    ensures
        method == "notify"@ ==> (ev.text("message"@) matches Some(t) ==> events_of(ev, lang) == (
        if t.len() > 0 {
            seq![EventV::Notice(t)]
        } else {
            Seq::empty()
        })),
        method != "notify"@ ==> events_of(ev, lang).len() == 0,
{
    lemma_kind_names();
    lemma_method_names();
}

/// More text of the streaming message goes to the block that the payload names, in the
/// kind that it names, with nothing added or left out.
pub proof fn law_delta_is_passed_on(ev: JsonV, delta: JsonV, chunk: Seq<char>, lang: Lang)
    requires
        is_kind(ev, "message_update"@),
        ev.get("assistantMessageEvent"@) == Some(delta),
        delta.text("delta"@) == Some(chunk),
        is_kind(delta, "text_delta"@) || is_kind(delta, "thinking_delta"@),
    ensures
        ({
            let events = events_of(ev, lang);
            &&& events.len() == 1
            &&& events[0] matches EventV::Delta { kind, idx, chunk: c } && c == chunk && (kind
                == DeltaKind::Text <==> is_kind(delta, "text_delta"@)) && (delta.number(
                "contentIndex"@,
            ) matches Some(n) ==> n <= usize::MAX ==> idx == n) && (delta.get("contentIndex"@)
                is None ==> idx == 0)
        }),
{
    lemma_kind_names();
    lemma_update_names();
}

/// The failure of a stream is reported with its text.
pub proof fn law_stream_error_is_passed_on(ev: JsonV, delta: JsonV, lang: Lang)
    requires
        is_kind(ev, "message_update"@),
        ev.get("assistantMessageEvent"@) == Some(delta),
        is_kind(delta, "error"@),
    ensures
        events_of(ev, lang).len() == 1,
        events_of(ev, lang)[0] is StreamError,
        delta.get("error"@) matches Some(e) ==> text_content(e).len() > 0 ==> events_of(ev, lang)[0]
            == EventV::StreamError(
            filled(
                match lang {
                    Lang::Zh => "生成失败：{text}"@,
                    Lang::En => "failed: {text}"@,
                },
                seq![("text"@, text_content(e))],
            ),
        ),
{
    lemma_kind_names();
    lemma_update_names();
}

/// A tool call becomes known by its id: when it begins and when it ends to be written,
/// and when it is run. Without an id nothing is reported while it is written.
pub proof fn law_tool_call_is_announced(ev: JsonV, delta: JsonV, lang: Lang)
    ensures
        is_kind(ev, "message_update"@) && ev.get("assistantMessageEvent"@) == Some(delta) && (is_kind(
            delta,
            "toolcall_start"@,
        ) || is_kind(delta, "toolcall_end"@)) ==> (delta.text("id"@) matches Some(id) ==> (
        delta.text("toolName"@) matches Some(name) ==> events_of(ev, lang) == (if id.len() > 0 {
            seq![EventV::ToolCallStart { id, name }]
        } else {
            Seq::empty()
        }))),
        is_kind(ev, "message_update"@) && ev.get("assistantMessageEvent"@) == Some(delta) && (is_kind(
            delta,
            "toolcall_start"@,
        ) || is_kind(delta, "toolcall_end"@)) && delta.text("id"@) is None && delta.text(
            "toolName"@,
        ) is None ==> (delta.get("toolCall"@) matches Some(call) ==> (call.text("id"@) matches Some(
            id,
        ) ==> (call.text("name"@) matches Some(name) ==> id.len() > 0 ==> events_of(ev, lang)
            == seq![EventV::ToolCallStart { id, name }]))),
        is_kind(ev, "tool_execution_start"@) ==> (ev.text("toolCallId"@) matches Some(id) ==> (
        ev.text("toolName"@) matches Some(name) ==> events_of(ev, lang)
            == seq![EventV::ToolCallStart { id, name }])),
{
    lemma_kind_names();
    lemma_update_names();
}

/// A tool call of which only the streamed snapshot holds the id is announced with the
/// id and the name of the block that the payload refers to.
pub proof fn law_tool_call_is_found_in_snapshot(
    ev: JsonV,
    delta: JsonV,
    items: Seq<JsonV>,
    n: u64,
    id: Seq<char>,
    name: Seq<char>,
    lang: Lang,
)
    requires
        is_kind(ev, "message_update"@),
        ev.get("assistantMessageEvent"@) == Some(delta),
        is_kind(delta, "toolcall_start"@) || is_kind(delta, "toolcall_end"@),
        delta.get("id"@) is None,
        delta.get("toolName"@) is None,
        delta.get("toolCall"@) is None,
        delta.get("partial"@) is Some,
        (delta.get("partial"@)->0).list("content"@) == Some(items),
        delta.number("contentIndex"@) == Some(n),
        n <= usize::MAX,
        n < items.len(),
        items[n as int].text("id"@) == Some(id),
        items[n as int].text("name"@) == Some(name),
        id.len() > 0,
    ensures
        events_of(ev, lang) == seq![EventV::ToolCallStart { id, name }],
{
    lemma_kind_names();
    lemma_update_names();
}

/// Output of a tool call is passed on with the id of the call: what there is so far
/// while it runs, and all of it, with its error flag, when it has ended.
pub proof fn law_tool_output_is_passed_on(
    ev: JsonV,
    id: Seq<char>,
    name: Seq<char>,
    result: JsonV,
    lang: Lang,
)
    requires
        ev.text("toolCallId"@) == Some(id),
        ev.text("toolName"@) == Some(name),
    ensures
        is_kind(ev, "tool_execution_update"@) && ev.get("partialResult"@) == Some(result)
            ==> events_of(ev, lang) == seq![
            EventV::ToolPartial { id, name, output: text_content(result) },
        ],
        is_kind(ev, "tool_execution_end"@) && ev.get("result"@) == Some(result) ==> events_of(
            ev,
            lang,
        ) == seq![
            EventV::ToolResult {
                id,
                name,
                output: text_content(result),
                is_error: result.get("isError"@) == Some(JsonV::Bool(true)),
            },
        ],
{
    lemma_kind_names();
}

/// A message is reported when it starts and when it ends, by its role: one of the
/// assistant with its parts, both times; a tool result as such, both times; one of the
/// user at its end, even if it has no text.
pub proof fn law_message_is_passed_on(ev: JsonV, msg: JsonV, role: Seq<char>, lang: Lang)
    requires
        is_kind(ev, "message_start"@) || is_kind(ev, "message_end"@),
        ev.get("message"@) == Some(msg),
        msg.text("role"@) == Some(role),
    ensures
        ({
            let ended = is_kind(ev, "message_end"@);
            let events = events_of(ev, lang);
            &&& role == "assistant"@ ==> events == seq![
                if ended {
                    EventV::AssistantEnd { parts: message_parts(msg) }
                } else {
                    EventV::MsgStart { parts: message_parts(msg) }
                },
            ]
            &&& role == "user"@ ==> events == (if ended {
                seq![EventV::User(text_content(msg))]
            } else {
                Seq::empty()
            })
            &&& role == "toolResult"@ ==> (msg.text("toolCallId"@) matches Some(id) ==> (msg.text(
                "toolName"@,
            ) matches Some(name) ==> events == seq![
                EventV::ToolResult {
                    id,
                    name,
                    output: text_content(msg),
                    is_error: msg.get("isError"@) == Some(JsonV::Bool(true)),
                },
            ]))
            &&& role != "assistant"@ && role != "user"@ && role != "toolResult"@ ==> events.len()
                == 0
        }),
{
    lemma_kind_names();
    lemma_role_names();
}

/// The parts of a message are those of its blocks, each with the place of its block, in
/// order: nothing else, and none twice.
pub proof fn law_parts_keep_their_places(items: Seq<JsonV>)
    requires
        items.len() <= usize::MAX,
    ensures
        forall|k: int|
            #![trigger parts_of(items)[k]]
            0 <= k < parts_of(items).len() ==> parts_of(items)[k].0 < items.len() && part_of(
                items[parts_of(items)[k].0 as int],
            ) == Some(parts_of(items)[k].1),
        forall|j: int, k: int|
            0 <= j < k < parts_of(items).len() ==> (#[trigger] parts_of(items)[j]).0 < (
            #[trigger] parts_of(items)[k]).0,
        forall|i: int|
            0 <= i < items.len() && part_of(#[trigger] items[i]) is Some ==> parts_of(
                items,
            ).contains((i as usize, part_of(items[i])->0)),
    decreases items.len(),
{
    if items.len() > 0 {
        let less = items.drop_last();
        law_parts_keep_their_places(less);
        let before = parts_of(less);
        let all = parts_of(items);
        assert forall|k: int| #![trigger all[k]] 0 <= k < all.len() implies all[k].0 < items.len()
            && part_of(items[all[k].0 as int]) == Some(all[k].1) by {
            if k < before.len() {
                assert(all[k] == before[k]);
                assert(less[before[k].0 as int] == items[before[k].0 as int]);
            }
        }
        assert forall|j: int, k: int| 0 <= j < k < all.len() implies (#[trigger] all[j]).0 < (
        #[trigger] all[k]).0 by {
            assert(all[j] == before[j]);
            if k < before.len() {
                assert(all[k] == before[k]);
            }
        }
        assert forall|i: int| 0 <= i < items.len() && part_of(#[trigger] items[i]) is Some implies all.contains(
            (i as usize, part_of(items[i])->0),
        ) by {
            let part = (i as usize, part_of(items[i])->0);
            if i < less.len() {
                assert(less[i] == items[i]);
                assert(before.contains(part));
                let k = before.index_of(part);
                assert(all[k] == part);
            } else {
                assert(all.last() == part);
            }
        }
    }
}

/// A text block is a part if it has a text, a thought is one as it stands, and a tool
/// call if it has an id. Nothing else is a part.
pub proof fn law_blocks_are_parts(block: JsonV)
    ensures
        is_kind(block, "text"@) ==> (block.text("text"@) matches Some(t) ==> part_of(block) == (
        if t.len() > 0 {
            Some(PartV::Text(t))
        } else {
            None
        })),
        is_kind(block, "thinking"@) ==> (block.text("thinking"@) matches Some(t) ==> part_of(block)
            == Some(PartV::Thinking(t))),
        is_kind(block, "toolCall"@) ==> (block.text("id"@) matches Some(id) ==> (block.text("name"@)
            matches Some(name) ==> part_of(block) == (if id.len() > 0 {
            Some(PartV::ToolCall { id, name })
        } else {
            None
        }))),
        !is_kind(block, "text"@) && !is_kind(block, "thinking"@) && !is_kind(block, "toolCall"@)
            ==> part_of(block) is None,
{
    lemma_block_names();
    reveal_strlit("");
}

/// A run is streaming from its start to its end, and when the connection says so; the
/// connection also names the session.
pub proof fn law_runs_are_tracked(ev: JsonV, lang: Lang)
    ensures
        is_kind(ev, "agent_start"@) ==> events_of(ev, lang) == seq![EventV::Streaming(true)],
        is_kind(ev, "agent_end"@) || is_kind(ev, "agent_settled"@) ==> events_of(ev, lang)
            == seq![EventV::Streaming(false)],
        is_kind(ev, "connected"@) ==> (ev.text("sessionId"@) matches Some(session) ==> {
            let streaming = ev.get("isStreaming"@) == Some(JsonV::Bool(true));
            events_of(ev, lang) == seq![
                EventV::Streaming(streaming),
                EventV::Status(StatusV::Ready { session, streaming }),
            ]
        }),
{
    lemma_kind_names();
}

/// The waiting prompts are passed on, each list as it is; a failure to start is an error
/// with its text; compaction and retries are noted.
pub proof fn law_session_news_is_passed_on(ev: JsonV, lang: Lang)
    ensures
        is_kind(ev, "queue_update"@) ==> events_of(ev, lang) == seq![
            EventV::Queue { steering: ev.strings("steering"@), follow_up: ev.strings("followUp"@) },
        ],
        is_kind(ev, "startup_error"@) ==> (ev.text("errorMessage"@) matches Some(e) ==> events_of(
            ev,
            lang,
        ) == seq![EventV::Status(StatusV::Error(e))]),
        is_kind(ev, "compaction_start"@) || is_kind(ev, "auto_compaction_start"@) ==> events_of(
            ev,
            lang,
        ) == seq![
            EventV::Notice(
                match lang {
                    Lang::Zh => "上下文压缩中…"@,
                    Lang::En => "compacting context…"@,
                },
            ),
        ],
        is_kind(ev, "compaction_end"@) || is_kind(ev, "auto_compaction_end"@) ==> events_of(ev, lang)
            == seq![
            EventV::Notice(
                match lang {
                    Lang::Zh => "上下文压缩完成"@,
                    Lang::En => "context compacted"@,
                },
            ),
        ],
        is_kind(ev, "auto_retry_start"@) ==> (ev.number("attempt"@) matches Some(n) ==> events_of(
            ev,
            lang,
        ) == seq![
            EventV::Notice(
                filled(
                    match lang {
                        Lang::Zh => "自动重试中（第 {attempt} 次）…"@,
                        Lang::En => "retrying (attempt {attempt})…"@,
                    },
                    seq![("attempt"@, crate::text::decimal(n as nat))],
                ),
            ),
        ]),
{
    lemma_kind_names();
}

/// A line of the event stream is its payload's events, with white space around the
/// payload; a line without the mark, and one whose payload is no JSON, is nothing.
pub proof fn law_stream_lines_are_payloads(line: Seq<char>, payload: Seq<char>)
    ensures
        sse_payload("data: "@ + payload) == json_parse(crate::text::trimmed(payload)),
        line.len() < 6 || line.take(6) != "data: "@ ==> sse_payload(line) is None,
{
    reveal_strlit("data: ");
    let whole = "data: "@ + payload;
    assert(whole.take(6) =~= "data: "@);
    assert(whole.skip(6) =~= payload);
}

/// What is streaming after two runs of events is what the second makes of what the first
/// left; the last word counts, and other events have none.
pub proof fn law_last_word_on_streaming_counts(
    flag: bool,
    a: Seq<EventV>,
    b: Seq<EventV>,
    e: EventV,
)
    ensures
        streaming_after(flag, a + b) == streaming_after(streaming_after(flag, a), b),
        streaming_after(flag, a.push(e)) == (match e {
            EventV::Streaming(v) => v,
            _ => streaming_after(flag, a),
        }),
    decreases b.len(),
{
    assert(a.push(e).drop_last() =~= a);
    if b.len() == 0 {
        assert(a + b =~= a);
    } else {
        assert((a + b).drop_last() =~= a + b.drop_last());
        law_last_word_on_streaming_counts(flag, a, b.drop_last(), e);
    }
}

// ── Laws of accounting and catalogs ─────────────────────────────────────────

/// Each number of the accounting is the one the agent reports under its name; a missing
/// count is zero, and a percentage never exceeds what fits.
pub proof fn law_stats_are_as_reported(data: JsonV, tokens: JsonV, usage: JsonV)
    requires
        data.get("tokens"@) == Some(tokens),
        data.get("contextUsage"@) == Some(usage),
    ensures
        ({
            let s = stats_of(data);
            &&& tokens.number("input"@) matches Some(n) ==> s.input == n
            &&& tokens.number("output"@) matches Some(n) ==> s.output == n
            &&& tokens.number("cacheRead"@) matches Some(n) ==> s.cache_read == n
            &&& tokens.number("cacheWrite"@) matches Some(n) ==> s.cache_write == n
            &&& tokens.number("input"@) is None ==> s.input == 0
            &&& tokens.number("output"@) is None ==> s.output == 0
            &&& tokens.number("cacheRead"@) is None ==> s.cache_read == 0
            &&& tokens.number("cacheWrite"@) is None ==> s.cache_write == 0
            &&& data.get("cost"@) matches Some(JsonV::Number { text, .. }) ==> s.cost == Some(text)
            &&& data.get("cost"@) is None ==> s.cost is None
            &&& s.context_tokens == usage.number("tokens"@)
            &&& s.context_window == usage.number("contextWindow"@)
            &&& usage.number("percent"@) matches Some(p) ==> s.context_percent matches Some(q) && (q
                == p || (p > 255 && q == 255))
            &&& usage.number("percent"@) is None ==> s.context_percent is None
        }),
{
}

/// A catalog is read item by item, in order. An item with a provider and an id is listed
/// under its name; any other is left out.
pub proof fn law_catalog_is_read_in_order(a: Seq<JsonV>, b: Seq<JsonV>, m: JsonV)
    ensures
        models_of(a + b) == models_of(a) + models_of(b),
        m.text("provider"@) matches Some(provider) ==> (m.text("id"@) matches Some(id) ==> (m.text(
            "name"@,
        ) matches Some(name) ==> models_of(seq![m]) == seq![ModelInfoV { provider, id, name }])),
        m.text("provider"@) matches Some(provider) ==> (m.text("id"@) matches Some(id) ==> m.get(
            "name"@,
        ) is None ==> models_of(seq![m]) == seq![ModelInfoV { provider, id, name: id }]),
        m.text("provider"@) is None ==> models_of(seq![m]).len() == 0,
        m.get("id"@) is None && m.get("modelId"@) is None ==> models_of(seq![m]).len() == 0,
    decreases b.len(),
{
    let one = seq![m];
    assert(one.drop_last() =~= Seq::empty());
    assert(models_of(one.drop_last()) =~= Seq::empty());
    assert(models_of(one) =~= (match model_of(m) {
        Some(x) => seq![x],
        None => Seq::empty(),
    }));
    if b.len() == 0 {
        assert(a + b =~= a);
        assert(models_of(a) + models_of(b) =~= models_of(a));
    } else {
        assert((a + b).drop_last() =~= a + b.drop_last());
        law_catalog_is_read_in_order(a, b.drop_last(), m);
        assert(models_of(a + b) =~= models_of(a) + models_of(b));
    }
}

/// The slash commands are read item by item, in order. An item with a name is listed;
/// any other is left out.
pub proof fn law_commands_are_read_in_order(a: Seq<JsonV>, b: Seq<JsonV>, c: JsonV)
    ensures
        commands_of(a + b) == commands_of(a) + commands_of(b),
        c.text("name"@) matches Some(name) ==> (c.text("description"@) matches Some(description)
            ==> (c.text("source"@) matches Some(source) ==> commands_of(seq![c])
            == seq![CommandInfoV { name, description, source }])),
        c.text("name"@) matches Some(name) ==> commands_of(seq![c]).len() == 1 && commands_of(
            seq![c],
        )[0].name == name,
        c.text("name"@) is None ==> commands_of(seq![c]).len() == 0,
    decreases b.len(),
{
    let one = seq![c];
    assert(one.drop_last() =~= Seq::empty());
    assert(commands_of(one.drop_last()) =~= Seq::empty());
    assert(commands_of(one) =~= (match command_of(c) {
        Some(x) => seq![x],
        None => Seq::empty(),
    }));
    if b.len() == 0 {
        assert(a + b =~= a);
        assert(commands_of(a) + commands_of(b) =~= commands_of(a));
    } else {
        assert((a + b).drop_last() =~= a + b.drop_last());
        law_commands_are_read_in_order(a, b.drop_last(), c);
        assert(commands_of(a + b) =~= commands_of(a) + commands_of(b));
    }
}

/// A catalog, or a list of commands, is that of the array under its name; without the
/// array there is none.
pub proof fn law_catalogs_are_found(j: JsonV, key: Seq<char>, items: Seq<JsonV>)
    ensures
        j.get(key) == Some(JsonV::Array(items)) ==> catalog_at(j, key) == models_of(items),
        j.get(key) is None ==> catalog_at(j, key).len() == 0,
        j.get("commands"@) == Some(JsonV::Array(items)) ==> commands_in(j) == commands_of(items),
        j.get("commands"@) is None ==> commands_in(j).len() == 0,
{
}

/// Any other payload is nothing to the panel.
pub proof fn law_other_payloads_are_ignored(ev: JsonV, kind: Seq<char>, lang: Lang)
    requires
        is_kind(ev, kind) || (ev.text("type"@) is None && kind.len() == 0),
        kind != "connected"@ && kind != "message_start"@ && kind != "message_update"@,
        kind != "message_end"@ && kind != "tool_execution_start"@,
        kind != "tool_execution_update"@ && kind != "tool_execution_end"@,
        kind != "agent_start"@ && kind != "agent_end"@ && kind != "agent_settled"@,
        kind != "queue_update"@ && kind != "extension_ui_request"@,
        kind != "compaction_start"@ && kind != "auto_compaction_start"@,
        kind != "compaction_end"@ && kind != "auto_compaction_end"@,
        kind != "auto_retry_start"@ && kind != "startup_error"@,
    ensures
        events_of(ev, lang).len() == 0,
{
    reveal_strlit("");
    lemma_kind_names();
}

/// What a payload does not name has a default: a tool is a `tool`, and a question asks
/// for a confirmation.
pub proof fn law_missing_names_have_defaults(ev: JsonV, lang: Lang)
    ensures
        ev.get("toolName"@) is None ==> {
            &&& is_kind(ev, "tool_execution_start"@) ==> events_of(ev, lang)[0]->ToolCallStart_name
                == "tool"@
            &&& is_kind(ev, "tool_execution_update"@) ==> events_of(ev, lang)[0]->ToolPartial_name
                == "tool"@
            &&& is_kind(ev, "tool_execution_end"@) ==> events_of(ev, lang)[0]->ToolResult_name
                == "tool"@
        },
        is_kind(ev, "extension_ui_request"@) && ev.text("method"@) == Some("confirm"@) && ev.get(
            "title"@,
        ) is None ==> events_of(ev, lang)[0]->UiRequest_title == (match lang {
            Lang::Zh => "需要确认"@,
            Lang::En => "confirmation needed"@,
        }),
{
    lemma_kind_names();
    lemma_method_names();
}

/// A session file that is read whole gives the transcript of the messages on its lines,
/// all of them and in order; bytes that are no text give none.
pub proof fn law_whole_file_is_read(tail: Seq<u8>, text: Seq<char>)
    ensures
        text_of(tail) == Some(text) ==> tail_entries(tail, false) == entries_of(
            line_messages(crate::text::lines_of(text)),
        ),
        text_of(tail) is None ==> tail_entries(tail, false).len() == 0,
        !tail.contains(10) ==> tail_entries(tail, true).len() == 0,
{
    if !tail.contains(10) {
        lemma_no_break(tail);
        let none = Seq::<u8>::empty();
        assert(whole_lines(tail, true) =~= none);
        if let Some(text) = text_of(none) {
            assert(text =~= Seq::<char>::empty());
            assert(crate::text::lines_of(text) =~= Seq::<Seq<char>>::empty());
        }
    }
}

proof fn lemma_no_break(s: Seq<u8>)
    requires
        !s.contains(10),
    ensures
        find_byte(s, 10) == s.len(),
    decreases s.len(),
{
    if s.len() > 0 {
        assert(s.contains(s[0]));
        let less = s.drop_first();
        assert(!less.contains(10)) by {
            assert forall|i: int| 0 <= i < less.len() implies less[i] != 10 by {
                assert(s.contains(s[i + 1]));
            }
        }
        lemma_no_break(less);
    }
}

/// A model is known by its provider and its id, under either of the id's names.
pub proof fn law_models_have_provider_and_id(m: JsonV, provider: Seq<char>, id: Seq<char>)
    requires
        m.text("provider"@) == Some(provider),
    ensures
        m.text("id"@) == Some(id) ==> model_ids(m) == Some((provider, id)),
        m.get("id"@) is None && m.text("modelId"@) == Some(id) ==> model_ids(m) == Some(
            (provider, id),
        ),
        m.get("id"@) is None && m.get("modelId"@) is None ==> model_ids(m) is None,
{
}

/// A failure without a text is reported all the same, and a command without a
/// description or a source is listed without them.
pub proof fn law_missing_texts_are_left_out(ev: JsonV, delta: JsonV, c: JsonV, lang: Lang)
    ensures
        is_kind(ev, "message_update"@) && ev.get("assistantMessageEvent"@) == Some(delta) && is_kind(
            delta,
            "error"@,
        ) && delta.get("error"@) is None ==> events_of(ev, lang) == seq![
            EventV::StreamError(
                match lang {
                    Lang::Zh => "生成失败"@,
                    Lang::En => "failed"@,
                },
            ),
        ],
        c.get("description"@) is None && c.get("source"@) is None ==> (c.text("name"@) matches Some(
            name,
        ) ==> commands_of(seq![c]) == seq![
            CommandInfoV { name, description: Seq::empty(), source: Seq::empty() },
        ]),
{
    lemma_kind_names();
    lemma_update_names();
    reveal_strlit("");
    assert(""@ =~= Seq::<char>::empty());
    assert(text_content(JsonV::Null) =~= Seq::<char>::empty());
    let one = seq![c];
    assert(one.drop_last() =~= Seq::empty());
    assert(commands_of(one.drop_last()) =~= Seq::empty());
    assert(commands_of(one) =~= (match command_of(c) {
        Some(x) => seq![x],
        None => Seq::empty(),
    }));
}

} // verus!
