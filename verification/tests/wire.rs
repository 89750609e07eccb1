//! What the agent's events and session files mean.

use ocs_pi::json::{copy_json, parse_json, parse_or_error, Json};
use ocs_pi::lang::Lang;
use ocs_pi::protocol::{DeltaKind, Entry, Event, ModelInfo, Part, Status};
use ocs_pi::web::error_detail;
use ocs_pi::http::Response;
use ocs_pi::wire::{
    content_text, messages_to_entries, parse_commands, parse_levels, parse_models, parse_parts,
    parse_stats, read_jsonl_tail, sse_line_events, sse_to_events, tail_start, tool_output,
    track_streaming,
};

fn json(text: &str) -> Json {
    parse_json(text).expect("valid JSON")
}

fn events(text: &str) -> Vec<Event> {
    sse_to_events(&json(text), Lang::Zh)
}

#[test]
fn content_text_joins_text_parts() {
    let msg = json(r#"{"content":[{"type":"text","text":"a"},{"type":"text","text":"b"}]}"#);
    assert_eq!(content_text(&msg), "ab");
}

#[test]
fn parts_split_text_thinking_toolcall() {
    let msg = json(
        r#"{"content":[
            {"type":"thinking","thinking":"想一想"},
            {"type":"text","text":"答案"},
            {"type":"toolCall","id":"t1","name":"bash"}
        ]}"#,
    );
    assert_eq!(
        parse_parts(&msg),
        vec![
            (0, Part::Thinking("想一想".into())),
            (1, Part::Text("答案".into())),
            (2, Part::ToolCall { id: "t1".into(), name: "bash".into() }),
        ]
    );
}

#[test]
fn parts_keep_their_index_and_skip_empty_ones() {
    let msg = json(
        r#"{"content":[
            {"type":"text","text":""},
            {"type":"thinking"},
            {"type":"toolCall","name":"x"},
            {"type":"toolCall","toolCallId":"t2","toolName":"read"},
            {"type":"toolCall","id":7,"toolCallId":"t3"},
            {"type":"image"},
            "junk"
        ]}"#,
    );
    assert_eq!(
        parse_parts(&msg),
        vec![
            (1, Part::Thinking("".into())),
            (3, Part::ToolCall { id: "t2".into(), name: "read".into() }),
        ]
    );
    assert_eq!(parse_parts(&json("{}")), vec![]);
}

#[test]
fn connected_sets_ready_and_streaming_flag() {
    let events = events(r#"{"type":"connected","sessionId":"s1","isStreaming":true}"#);
    assert_eq!(
        events,
        vec![
            Event::Streaming(true),
            Event::Status(Status::Ready { session: "s1".into(), streaming: true }),
        ]
    );
}

#[test]
fn text_and_thinking_deltas_map_with_index() {
    let text = events(
        r#"{"type":"message_update","assistantMessageEvent":{"type":"text_delta","contentIndex":1,"delta":"你好"}}"#,
    );
    assert_eq!(
        text,
        vec![Event::Delta { kind: DeltaKind::Text, idx: 1, chunk: "你好".into() }]
    );
    assert_eq!(
        events(
            r#"{"type":"message_update","assistantMessageEvent":{"type":"thinking_delta","contentIndex":0,"delta":"嗯"}}"#
        ),
        vec![Event::Delta { kind: DeltaKind::Thinking, idx: 0, chunk: "嗯".into() }]
    );
}

#[test]
fn toolcall_start_and_tool_result_are_idempotent_events() {
    let start = events(
        r#"{"type":"message_update","assistantMessageEvent":{"type":"toolcall_start","contentIndex":2,"id":"t9","toolName":"read"}}"#,
    );
    assert_eq!(start, vec![Event::ToolCallStart { id: "t9".into(), name: "read".into() }]);

    let end = events(
        r#"{"type":"tool_execution_end","toolCallId":"t9","toolName":"read","result":{"content":[{"type":"text","text":"文件内容"}],"isError":true}}"#,
    );
    assert_eq!(
        end,
        vec![Event::ToolResult {
            id: "t9".into(),
            name: "read".into(),
            output: "文件内容".into(),
            is_error: true
        }]
    );
}

#[test]
fn toolcall_metadata_comes_from_the_nearest_place() {
    // Nested `toolCall`.
    assert_eq!(
        events(
            r#"{"type":"message_update","assistantMessageEvent":{"type":"toolcall_end","toolCall":{"id":"t1","name":"bash"}}}"#
        ),
        vec![Event::ToolCallStart { id: "t1".into(), name: "bash".into() }]
    );
    // The block of the partial message.
    assert_eq!(
        events(
            r#"{"type":"message_update","assistantMessageEvent":{"type":"toolcall_start","contentIndex":1,"partial":{"content":[{},{"toolCallId":"t2","toolName":"read"}]}}}"#
        ),
        vec![Event::ToolCallStart { id: "t2".into(), name: "read".into() }]
    );
    // Without a name it is a "tool"; without an id it is nothing.
    assert_eq!(
        events(
            r#"{"type":"message_update","assistantMessageEvent":{"type":"toolcall_start","id":"t3"}}"#
        ),
        vec![Event::ToolCallStart { id: "t3".into(), name: "tool".into() }]
    );
    assert_eq!(
        events(r#"{"type":"message_update","assistantMessageEvent":{"type":"toolcall_start"}}"#),
        vec![]
    );
}

#[test]
fn user_message_end_pushes_user_entry() {
    let events = events(
        r#"{"type":"message_end","message":{"role":"user","content":[{"type":"text","text":"你好"}]}}"#,
    );
    assert_eq!(events, vec![Event::User("你好".into())]);
}

#[test]
fn assistant_end_carries_final_parts() {
    let events = events(
        r#"{"type":"message_end","message":{"role":"assistant","content":[{"type":"thinking","thinking":"t"},{"type":"text","text":"final"}]}}"#,
    );
    assert_eq!(
        events,
        vec![Event::AssistantEnd {
            parts: vec![(0, Part::Thinking("t".into())), (1, Part::Text("final".into()))]
        }]
    );
}

#[test]
fn agent_lifecycle_sets_streaming_flag() {
    assert_eq!(events(r#"{"type":"agent_start"}"#), vec![Event::Streaming(true)]);
    assert_eq!(events(r#"{"type":"agent_end","messages":[]}"#), vec![Event::Streaming(false)]);
    assert_eq!(events(r#"{"type":"agent_settled"}"#), vec![Event::Streaming(false)]);
}

#[test]
fn queue_update_collects_follow_ups() {
    let events = events(r#"{"type":"queue_update","steering":["a"],"followUp":["b","c"]}"#);
    assert_eq!(
        events,
        vec![Event::Queue { steering: vec!["a".into()], follow_up: vec!["b".into(), "c".into()] }]
    );
}

#[test]
fn http_error_body_maps_to_send_failed() {
    let body = r#"{"error":"Session not found","code":"prompt_rejected","accepted":false}"#;
    let detail = error_detail(&Response { status: 500, body: body.to_string() });
    assert_eq!(detail, "Session not found");
    // Without an `error` text the status is named.
    assert_eq!(error_detail(&Response { status: 500, body: "oops".into() }), "HTTP 500");
    assert_eq!(error_detail(&Response { status: 404, body: r#"{"error":1}"#.into() }), "HTTP 404");
}

#[test]
fn messages_start_and_end_by_role() {
    assert_eq!(
        events(r#"{"type":"message_start","message":{"role":"user","content":[]}}"#),
        vec![]
    );
    assert_eq!(
        events(
            r#"{"type":"message_start","message":{"role":"assistant","content":[{"type":"text","text":"半"}]}}"#
        ),
        vec![Event::MsgStart { parts: vec![(0, Part::Text("半".into()))] }]
    );
    for kind in ["message_start", "message_end"] {
        let text = format!(
            r#"{{"type":"{kind}","message":{{"role":"toolResult","toolCallId":"t","content":[{{"text":"o"}}]}}}}"#
        );
        assert_eq!(
            events(&text),
            vec![Event::ToolResult {
                id: "t".into(),
                name: "tool".into(),
                output: "o".into(),
                is_error: false
            }]
        );
    }
    // An image-only user message ends with an empty text.
    assert_eq!(
        events(r#"{"type":"message_end","message":{"role":"user","content":[{"type":"image"}]}}"#),
        vec![Event::User("".into())]
    );
    assert_eq!(events(r#"{"type":"message_end"}"#), vec![]);
}

#[test]
fn running_tools_report_partial_output() {
    assert_eq!(
        events(r#"{"type":"tool_execution_start","toolCallId":"t","toolName":"bash"}"#),
        vec![Event::ToolCallStart { id: "t".into(), name: "bash".into() }]
    );
    assert_eq!(
        events(
            r#"{"type":"tool_execution_update","toolCallId":"t","partialResult":{"content":[{"text":"1"},{"text":"2"}]}}"#
        ),
        vec![Event::ToolPartial { id: "t".into(), name: "tool".into(), output: "12".into() }]
    );
    assert_eq!(
        tool_output(&json(r#"{"content":[{"text":"x"}],"isError":true}"#)),
        ("x".to_string(), true)
    );
}

#[test]
fn stream_errors_are_worded_per_language() {
    let failed = r#"{"type":"message_update","assistantMessageEvent":{"type":"error","error":{"content":[{"text":"超时"}]}}}"#;
    assert_eq!(events(failed), vec![Event::StreamError("生成失败：超时".into())]);
    assert_eq!(
        sse_to_events(&json(failed), Lang::En),
        vec![Event::StreamError("failed: 超时".into())]
    );
    assert_eq!(
        events(r#"{"type":"message_update","assistantMessageEvent":{"type":"error"}}"#),
        vec![Event::StreamError("生成失败".into())]
    );
}

#[test]
fn extension_requests_become_questions_or_notices() {
    assert_eq!(
        events(r#"{"type":"extension_ui_request","method":"notify","message":"嘿"}"#),
        vec![Event::Notice("嘿".into())]
    );
    assert_eq!(events(r#"{"type":"extension_ui_request","method":"notify"}"#), vec![]);
    assert_eq!(
        events(
            r#"{"type":"extension_ui_request","id":"q","method":"select","options":["a",1,"b"],"prefill":"p"}"#
        ),
        vec![Event::UiRequest {
            id: "q".into(),
            method: "select".into(),
            title: "需要确认".into(),
            message: None,
            options: vec!["a".into(), "b".into()],
            prefill: Some("p".into()),
        }]
    );
    assert_eq!(
        events(r#"{"type":"extension_ui_request","id":"q","method":"setWidget"}"#),
        vec![]
    );
}

#[test]
fn bookkeeping_events_become_notices() {
    assert_eq!(
        events(r#"{"type":"compaction_start"}"#),
        vec![Event::Notice("上下文压缩中…".into())]
    );
    assert_eq!(
        sse_to_events(&json(r#"{"type":"auto_compaction_end"}"#), Lang::En),
        vec![Event::Notice("context compacted".into())]
    );
    assert_eq!(
        events(r#"{"type":"auto_retry_start","attempt":3}"#),
        vec![Event::Notice("自动重试中（第 3 次）…".into())]
    );
    assert_eq!(
        events(r#"{"type":"startup_error","errorMessage":"坏了"}"#),
        vec![Event::Status(Status::Error("坏了".into()))]
    );
    assert_eq!(
        sse_to_events(&json(r#"{"type":"startup_error"}"#), Lang::En),
        vec![Event::Status(Status::Error("pi-web failed to start".into()))]
    );
    assert_eq!(events(r#"{"type":"turn_start"}"#), vec![]);
    assert_eq!(events("[]"), vec![]);
}

#[test]
fn stream_lines_carry_one_payload_each() {
    assert_eq!(
        sse_line_events("data: {\"type\":\"agent_start\"}\r\n", Lang::Zh),
        vec![Event::Streaming(true)]
    );
    assert_eq!(sse_line_events(": heartbeat\n", Lang::Zh), vec![]);
    assert_eq!(sse_line_events("data: {broken\n", Lang::Zh), vec![]);
    assert_eq!(sse_line_events("data:{\"type\":\"agent_start\"}\n", Lang::Zh), vec![]);
}

#[test]
fn last_streaming_event_decides() {
    assert!(track_streaming(false, &vec![Event::Streaming(false), Event::Streaming(true)]));
    assert!(!track_streaming(true, &vec![Event::Streaming(false), Event::User("x".into())]));
    assert!(track_streaming(true, &vec![]));
}

#[test]
fn jsonl_tail_reconstructs_transcript() {
    let file = "{\"type\":\"session\",\"version\":3,\"id\":\"s\"}\n\
                {\"type\":\"model_change\",\"provider\":\"x\"}\n\
                {\"type\":\"message\",\"message\":{\"role\":\"user\",\"content\":[{\"type\":\"text\",\"text\":\"问\"}]}}\n\
                {\"type\":\"message\",\"message\":{\"role\":\"assistant\",\"content\":[{\"type\":\"thinking\",\"thinking\":\"思\"},{\"type\":\"text\",\"text\":\"答\"},{\"type\":\"toolCall\",\"id\":\"t1\",\"name\":\"bash\"}]}}\n\
                {\"type\":\"message\",\"message\":{\"role\":\"toolResult\",\"toolCallId\":\"t1\",\"toolName\":\"bash\",\"content\":[{\"type\":\"text\",\"text\":\"输出\"}],\"isError\":false}}\n";
    let start = tail_start(file.len() as u64, 1 << 20);
    assert_eq!(start, 0);
    let got = read_jsonl_tail(&file.as_bytes()[start as usize..].to_vec(), start > 0);
    assert_eq!(
        got,
        vec![
            Entry::User("问".into()),
            Entry::Thinking("思".into()),
            Entry::Assistant("答".into()),
            Entry::Tool {
                id: "t1".into(),
                name: "bash".into(),
                output: "输出".into(),
                done: true,
                is_error: false
            },
        ]
    );
}

#[test]
fn jsonl_tail_skips_partial_first_line() {
    let full = "{\"type\":\"session\"}\n{\"type\":\"message\",\"message\":{\"role\":\"user\",\"content\":[{\"type\":\"text\",\"text\":\"hi\"}]}}\n";
    // A window that starts mid-way through the header line (100 bytes
    // leaves the whole message line intact after dropping the partial
    // first line).
    let start = tail_start(full.len() as u64, 100);
    let got = read_jsonl_tail(&full.as_bytes()[start as usize..].to_vec(), start > 0);
    assert_eq!(got, vec![Entry::User("hi".into())]);
}

#[test]
fn jsonl_tail_may_start_inside_a_character() {
    let full = "你\n{\"type\":\"message\",\"message\":{\"role\":\"user\",\"content\":[{\"type\":\"text\",\"text\":\"hi\"}]}}\n".as_bytes();
    for lost in 1..4 {
        let start = tail_start(full.len() as u64, (full.len() - lost) as u64) as usize;
        assert_eq!(start, lost);
        let got = read_jsonl_tail(&full[start..].to_vec(), true);
        assert_eq!(got, vec![Entry::User("hi".into())]);
    }
    // A window within one line holds nothing whole, and bytes that are no text
    // give no transcript.
    assert_eq!(read_jsonl_tail(&b"{\"type\":1}".to_vec(), true), vec![]);
    assert_eq!(read_jsonl_tail(&full[1..].to_vec(), false), vec![]);
    assert_eq!(read_jsonl_tail(&vec![], false), vec![]);
}

#[test]
fn results_fill_the_latest_call_or_stand_alone() {
    let messages = vec![
        json(r#"{"role":"assistant","content":[{"type":"toolCall","id":"t"},{"type":"text","text":""}]}"#),
        json(r#"{"role":"assistant","content":[{"type":"toolCall","id":"t"}]}"#),
        json(r#"{"role":"toolResult","toolCallId":"t","content":[{"text":"o"}],"isError":true}"#),
        json(r#"{"role":"toolResult","toolCallId":"u","toolName":"ls","content":[]}"#),
        json(r#"{"role":"user","content":[]}"#),
    ];
    let tool = |id: &str, name: &str, output: &str, done: bool, is_error: bool| Entry::Tool {
        id: id.into(),
        name: name.into(),
        output: output.into(),
        done,
        is_error,
    };
    assert_eq!(
        messages_to_entries(&messages),
        vec![
            tool("t", "tool", "", false, false),
            tool("t", "tool", "o", true, true),
            tool("u", "ls", "", true, false),
        ]
    );
}

#[test]
fn model_and_level_and_command_parsers() {
    let models = parse_models(&json(
        r#"{"models":[
            {"id":"m1","name":"Model One","provider":"p"},
            {"id":"m2","provider":"p"}
        ]}"#,
    ));
    assert_eq!(models.len(), 2);
    assert_eq!(models[0].name, "Model One");
    assert_eq!(models[1].name, "m2");

    assert_eq!(
        parse_levels(&json(r#"{"levels":["off","high","max"]}"#)),
        vec!["off", "high", "max"]
    );

    let commands = parse_commands(&json(
        r#"{"commands":[
            {"name":"fix","description":"fix stuff","source":"prompt"},
            {"name":"skill:x","source":"skill"}
        ]}"#,
    ));
    assert_eq!(commands.len(), 2);
    assert_eq!(commands[0].source, "prompt");
    assert_eq!(commands[1].description, "");
}

#[test]
fn incomplete_catalog_entries_are_left_out() {
    assert_eq!(
        parse_models(&json(
            r#"{"models":[{"id":"x"},{"provider":"p"},{"provider":"p","modelId":"m"}]}"#
        )),
        vec![ModelInfo { provider: "p".into(), id: "m".into(), name: "m".into() }]
    );
    assert_eq!(parse_levels(&json("{}")), Vec::<String>::new());
    assert!(parse_commands(&json(r#"{"commands":[{"source":"x"}]}"#)).is_empty());
}

#[test]
fn stats_read_counts_cost_and_context() {
    let stats = parse_stats(&json(
        r#"{"tokens":{"input":12,"output":3,"cacheRead":4,"cacheWrite":-1},"cost":0.25,"contextUsage":{"tokens":10,"contextWindow":200,"percent":300}}"#,
    ));
    assert_eq!((stats.input, stats.output, stats.cache_read, stats.cache_write), (12, 3, 4, 0));
    assert_eq!(stats.cost.as_deref(), Some("0.25"));
    assert_eq!(stats.context_tokens, Some(10));
    assert_eq!(stats.context_window, Some(200));
    assert_eq!(stats.context_percent, Some(255));
    let empty = parse_stats(&json("null"));
    assert_eq!((empty.input, empty.cost, empty.context_percent), (0, None, None));
}

#[test]
fn tails_start_at_the_last_bytes() {
    assert_eq!(tail_start(10, 4), 6);
    assert_eq!(tail_start(4, 10), 0);
}

#[test]
fn parsed_values_keep_their_shape() {
    let tree = json(r#" {"b":[1,-2,2.5,"x",true,null],"a":{}} "#);
    let list = tree.get("b").and_then(|b| b.as_array()).expect("an array");
    assert_eq!(list[0].as_u64(), Some(1));
    assert_eq!(list[1].as_u64(), None);
    assert_eq!(list[2].as_u64(), None);
    assert_eq!(list[3].as_str(), Some("x"));
    assert_eq!(list[4].as_bool(), Some(true));
    assert_eq!(list[5], Json::Null);
    assert!(tree.get("c").is_none());
    assert_eq!(copy_json(&tree), tree);
    assert!(parse_json("{").is_none());
    assert_eq!(parse_or_error("[]"), Ok(Json::Array(vec![])));
    let error = parse_or_error("{").expect_err("cut short");
    assert!(error.contains("EOF while parsing an object"), "{error}");
}
