//! The `pi --mode rpc` backend.

use ocs_pi::bodies::{
    answer_body, command_body, new_session_body, set_model_body, switch_session_body, tagged_body,
};
use ocs_pi::json::{parse_json, Json};
use ocs_pi::lang::Lang;
use ocs_pi::protocol::{Command, Entry, Event, ImageAttachment, ModelInfo, SessionInfo, Status};
use ocs_pi::rpc::{
    exited, handshake, keep_error_line, on_retry, read_line, send_prompt, start_failed, started,
    RpcAction, RpcRetry, RpcSession, RpcStep,
};
use ocs_pi::web::Input;

fn json(text: &str) -> Json {
    parse_json(text).expect("valid JSON")
}

fn on(session: &mut RpcSession, text: &str) -> Vec<RpcAction> {
    session.on_value(&json(text), Lang::Zh)
}

fn field(line: &str, key: &str) -> Option<String> {
    json(line).owned(key)
}

fn failed(message: &str) -> Vec<RpcAction> {
    vec![RpcAction::Emit(Event::SendFailed { message: message.into() })]
}

fn input(session: &RpcSession, command: Command) -> RpcStep {
    session.on_input(Input::Command(command), "/p", Lang::Zh)
}

#[test]
fn handshake_asks_for_four_things() {
    let lines = handshake();
    let pairs: Vec<(Option<String>, Option<String>)> =
        lines.iter().map(|l| (field(l, "id"), field(l, "type"))).collect();
    let pair = |a: &str, b: &str| (Some(a.to_string()), Some(b.to_string()));
    assert_eq!(
        pairs,
        vec![
            pair("h1", "get_state"),
            pair("h2", "get_available_models"),
            pair("h3", "get_available_thinking_levels"),
            pair("h4", "get_commands"),
        ]
    );
    assert_eq!(lines[0], r#"{"id":"h1","type":"get_state"}"#);
}

#[test]
fn lines_are_one_value_each() {
    assert!(read_line("").is_none());
    assert!(read_line("  \r").is_none());
    assert!(read_line("oops").is_none());
    assert_eq!(read_line("{\"a\":true}\r").map(|j| j.flag("a")), Some(true));
}

#[test]
fn ready_follows_the_state_once() {
    let mut s = RpcSession::new();
    assert_eq!(s.poll_ready(), vec![]);
    on(
        &mut s,
        r#"{"type":"response","command":"get_available_models","success":true,"data":{"models":[{"provider":"p","id":"m"}]}}"#,
    );
    on(
        &mut s,
        r#"{"type":"response","command":"get_available_thinking_levels","success":true,"data":{"levels":["off"]}}"#,
    );
    assert_eq!(s.poll_ready(), vec![]);
    on(
        &mut s,
        r#"{"type":"response","command":"get_state","success":true,"data":{"sessionId":"s","isStreaming":true,"model":{"provider":"p","id":"m"},"thinkingLevel":"off"}}"#,
    );
    assert_eq!(
        s.poll_ready(),
        vec![
            RpcAction::Emit(Event::Status(Status::Ready { session: "s".into(), streaming: true })),
            RpcAction::Scan,
            RpcAction::Emit(Event::Models {
                list: vec![ModelInfo { provider: "p".into(), id: "m".into(), name: "m".into() }],
                current: Some(("p".into(), "m".into())),
                thinking_levels: vec![("p:m".into(), vec!["off".into()])],
                thinking: Some("off".into()),
            }),
        ]
    );
    assert!(s.streaming);
    assert_eq!(s.poll_ready(), vec![]);
}

#[test]
fn ready_without_catalog_names_no_models() {
    let mut s = RpcSession::new();
    on(&mut s, r#"{"type":"response","command":"get_state"}"#);
    assert_eq!(
        s.poll_ready(),
        vec![
            RpcAction::Emit(Event::Status(Status::Ready { session: "pi".into(), streaming: false })),
            RpcAction::Scan,
        ]
    );
}

#[test]
fn responses_turn_into_events_and_further_commands() {
    let mut s = RpcSession::new();
    let actions = on(
        &mut s,
        r#"{"type":"response","command":"set_model","success":true,"data":{"provider":"p","id":"m"}}"#,
    );
    assert_eq!(
        actions[0],
        RpcAction::Emit(Event::ModelSet { provider: "p".into(), id: "m".into() })
    );
    assert!(
        matches!(&actions[1], RpcAction::Write(l) if field(l, "type").as_deref() == Some("get_available_thinking_levels"))
    );
    assert_eq!(
        on(&mut s, r#"{"type":"response","command":"set_model","data":"坏"}"#),
        failed("切换模型失败：坏")
    );
    assert_eq!(
        on(&mut s, r#"{"type":"response","command":"set_thinking_level","success":true,"data":{"level":"max"}}"#),
        vec![RpcAction::Emit(Event::ThinkingSet { level: "max".into() })]
    );
    assert_eq!(
        on(&mut s, r#"{"type":"response","command":"set_thinking_level","success":true,"data":"low"}"#),
        vec![RpcAction::Emit(Event::ThinkingSet { level: "low".into() })]
    );
    assert_eq!(
        on(&mut s, r#"{"type":"response","command":"set_thinking_level"}"#),
        failed("切换思考强度失败：未知错误")
    );
    let actions = on(&mut s, r#"{"type":"response","command":"switch_session","success":true}"#);
    assert_eq!(actions.len(), 3);
    assert!(matches!(&actions[0], RpcAction::Write(l) if field(l, "type").as_deref() == Some("get_state")));
    assert!(matches!(&actions[1], RpcAction::Write(l) if field(l, "type").as_deref() == Some("get_messages")));
    assert_eq!(actions[2], RpcAction::Scan);
    assert_eq!(
        on(&mut s, r#"{"type":"response","command":"new_session"}"#),
        failed("切换会话失败：未知错误")
    );
    assert_eq!(
        on(&mut s, r#"{"type":"response","command":"compact"}"#),
        failed("压缩失败：未知错误")
    );
    assert_eq!(on(&mut s, r#"{"type":"response","command":"compact","success":true}"#), vec![]);
    assert_eq!(
        on(&mut s, r#"{"type":"response","command":"prompt"}"#),
        failed("发送失败：指令被拒绝")
    );
    assert_eq!(
        on(
            &mut s,
            r#"{"type":"response","command":"get_messages","data":{"messages":[{"role":"user","content":[{"text":"问"}]}]}}"#
        ),
        vec![RpcAction::Emit(Event::Replace(vec![Entry::User("问".into())]))]
    );
    assert!(matches!(
        &on(&mut s, r#"{"type":"response","command":"get_session_stats","data":{"tokens":{"input":3}}}"#)[..],
        [RpcAction::Emit(Event::Stats(stats))] if stats.input == 3
    ));
    assert_eq!(
        on(&mut s, r#"{"type":"response","command":"get_commands","data":{}}"#),
        vec![RpcAction::Emit(Event::Commands(vec![]))]
    );
    assert_eq!(on(&mut s, r#"{"type":"response","command":"other"}"#), vec![]);
}

#[test]
fn agent_events_pass_through_and_set_the_flag() {
    let mut s = RpcSession::new();
    assert_eq!(
        on(&mut s, r#"{"type":"agent_start"}"#),
        vec![RpcAction::Emit(Event::Streaming(true))]
    );
    assert!(s.streaming);
    let step = input(
        &s,
        Command::Send { session: "s".into(), message: "m".into(), image: None, queued: false },
    );
    assert_eq!(step, RpcStep::Prompt { message: "m".into(), image: None, queued: true });
}

#[test]
fn watching_needs_the_session_file() {
    let mut s = RpcSession::new();
    assert_eq!(
        input(&s, Command::Watch("a".into())),
        RpcStep::ScanAndSwitch { id: "a".into() }
    );
    s.record(&vec![SessionInfo {
        id: "a".into(),
        label: "".into(),
        path: Some("/s/a.jsonl".into()),
        cwd: None,
    }]);
    let RpcStep::Do(actions) = input(&s, Command::Watch("a".into())) else {
        panic!("expected actions")
    };
    let [RpcAction::Write(line)] = &actions[..] else { panic!("expected a command") };
    assert_eq!(field(line, "type").as_deref(), Some("switch_session"));
    assert_eq!(field(line, "sessionPath").as_deref(), Some("/s/a.jsonl"));
    assert_eq!(
        input(&s, Command::Watch("b".into())),
        RpcStep::Do(vec![RpcAction::Emit(Event::Notice("找不到会话文件：b".into()))])
    );
    assert_eq!(
        s.switch_to("b", Lang::En),
        RpcAction::Emit(Event::Notice("session file not found: b".into()))
    );
}

#[test]
fn commands_write_lines_or_restart() {
    let s = RpcSession::new();
    let kind = |command: Command| match input(&s, command) {
        RpcStep::Do(actions) => match &actions[..] {
            [RpcAction::Write(line)] => field(line, "type"),
            _ => None,
        },
        _ => None,
    };
    let some = |t: &str| Some(t.to_string());
    assert_eq!(
        kind(Command::SetModel { provider: "p".into(), model_id: "m".into() }),
        some("set_model")
    );
    assert_eq!(kind(Command::SetThinking { level: "x".into() }), some("set_thinking_level"));
    assert_eq!(kind(Command::NewSession { cwd: "/p".into() }), some("new_session"));
    assert_eq!(kind(Command::Compact), some("compact"));
    assert_eq!(kind(Command::FetchStats), some("get_session_stats"));
    assert_eq!(
        input(&s, Command::NewSession { cwd: "/q".into() }),
        RpcStep::Restart(Some("/q".into()))
    );
    assert_eq!(input(&s, Command::Reconnect), RpcStep::Restart(None));
    assert_eq!(input(&s, Command::Browse { path: "/".into() }), RpcStep::Browse { path: "/".into() });
    assert_eq!(input(&s, Command::FetchFiles { cwd: "/".into() }), RpcStep::Files { cwd: "/".into() });
    assert_eq!(s.on_input(Input::Gone, "/p", Lang::Zh), RpcStep::Stop);
    assert_eq!(s.on_input(Input::Idle { stream_ended: false }, "/p", Lang::Zh), RpcStep::Do(vec![]));
}

#[test]
fn prompts_surface_notices_first() {
    let image = ImageAttachment { mime: "image/png".into(), base64: "QQ==".into() };
    let actions = send_prompt("m", None, vec![image], vec!["注意".into()], true);
    assert_eq!(actions[0], RpcAction::Emit(Event::Notice("注意".into())));
    let RpcAction::Write(line) = &actions[1] else { panic!("expected a command") };
    assert_eq!(field(line, "message").as_deref(), Some("m"));
    assert_eq!(field(line, "streamingBehavior").as_deref(), Some("followUp"));
    assert_eq!(json(line).list("images").map(|l| l.len()), Some(1));
    assert_eq!(actions.len(), 2);
}

#[test]
fn bodies_are_compact_json() {
    assert_eq!(command_body("compact"), r#"{"type":"compact"}"#);
    assert_eq!(tagged_body("t1", "x"), r#"{"id":"t1","type":"x"}"#);
    assert_eq!(
        set_model_body("p", "m"),
        r#"{"modelId":"m","provider":"p","type":"set_model"}"#
    );
    assert_eq!(new_session_body("/a\"b"), r#"{"cwd":"/a\"b","type":"ensure_session"}"#);
    assert_eq!(
        switch_session_body("/s"),
        r#"{"sessionPath":"/s","type":"switch_session"}"#
    );
    let some = || Some("v".to_string());
    let answer = |value: Option<String>, confirmed: Option<bool>, cancelled: bool| {
        answer_body("q", &value, confirmed, cancelled)
    };
    assert_eq!(
        answer(some(), Some(true), true),
        r#"{"cancelled":true,"id":"q","type":"extension_ui_response"}"#
    );
    assert_eq!(
        answer(some(), Some(true), false),
        r#"{"id":"q","type":"extension_ui_response","value":"v"}"#
    );
    assert_eq!(
        answer(None, Some(false), false),
        r#"{"confirmed":false,"id":"q","type":"extension_ui_response"}"#
    );
    assert_eq!(answer(None, None, false), r#"{"id":"q","type":"extension_ui_response"}"#);
}

#[test]
fn error_tail_keeps_five_lines() {
    let mut tail = Vec::new();
    for i in 0..7 {
        keep_error_line(&mut tail, &format!(" e{i} "));
        keep_error_line(&mut tail, "  ");
    }
    assert_eq!(tail, vec!["e2", "e3", "e4", "e5", "e6"]);
    assert_eq!(exited("exit status: 1", &vec![], Lang::Zh), "pi rpc 退出（exit status: 1）");
    assert_eq!(
        exited("1", &vec!["a".into(), "b".into()], Lang::En),
        "pi rpc exited (1): a; b"
    );
    assert_eq!(
        start_failed("pi", "no file", Lang::Zh),
        Event::Status(Status::Error("启动 pi 失败：no file".into()))
    );
    assert_eq!(started("/p"), Event::Backend("pi rpc · /p".into()));
}

#[test]
fn waiting_for_a_restart() {
    let retry = |command: Command| on_retry(Input::Command(command), Lang::Zh);
    assert_eq!(retry(Command::Reconnect), RpcRetry::Restart(None));
    assert_eq!(
        retry(Command::NewSession { cwd: "/q".into() }),
        RpcRetry::Restart(Some("/q".into()))
    );
    assert_eq!(retry(Command::Browse { path: "/".into() }), RpcRetry::Browse { path: "/".into() });
    assert_eq!(retry(Command::FetchFiles { cwd: "/".into() }), RpcRetry::Files { cwd: "/".into() });
    assert_eq!(retry(Command::Watch("a".into())), RpcRetry::Wait(vec![]));
    assert_eq!(
        retry(Command::Compact),
        RpcRetry::Wait(vec![Event::SendFailed { message: "尚未连接 pi（rpc）".into() }])
    );
    assert_eq!(on_retry(Input::Gone, Lang::Zh), RpcRetry::Stop);
}
