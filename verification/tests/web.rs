//! The pi-web backend: which request follows what, and what replies mean.

use ocs_pi::bodies::prompt_body;
use ocs_pi::http::{Request, Response};
use ocs_pi::json::parse_json;
use ocs_pi::lang::Lang;
use ocs_pi::protocol::{
    Command, CommandInfo, Entry, Event, ImageAttachment, ModelInfo, SessionInfo, Status,
};
use ocs_pi::web::{
    backfill, commands_request, connecting, failure, find_session, follow_sessions, has_models,
    is_last_reply, models_request, on_commands, on_input, on_models, on_prompt_reply, on_reply, on_retry,
    on_sessions, prompt_request, sessions_request, state_request, Follow, Input, Purpose, Reply,
    RetryStep, WebStep,
};

fn answer(status: u16, body: &str) -> Reply {
    Reply::Answer(Response { status, body: body.into() })
}

fn lost() -> Reply {
    Reply::Failed("断".into())
}

fn text_of(request: &Request, key: &str) -> Option<String> {
    let body = request.body.as_ref().expect("a body");
    parse_json(body).expect("JSON").owned(key)
}

fn failed(message: &str) -> Vec<Event> {
    vec![Event::SendFailed { message: message.into() }]
}

fn session(id: &str) -> SessionInfo {
    SessionInfo { id: id.into(), label: "".into(), path: None, cwd: Some(format!("/{id}")) }
}

#[test]
fn requests_name_their_paths() {
    let parts = |r: Request| (r.method, r.path);
    let pair = |m: &str, p: &str| (m.to_string(), p.to_string());
    assert_eq!(parts(sessions_request()), pair("GET", "/api/sessions"));
    assert_eq!(parts(models_request()), pair("GET", "/api/models"));
    assert_eq!(parts(state_request("s")), pair("GET", "/api/agent/s"));
    let commands = commands_request("s");
    assert_eq!(text_of(&commands, "type").as_deref(), Some("get_commands"));
    assert_eq!(parts(commands), pair("POST", "/api/agent/s"));
}

#[test]
fn prompts_carry_message_images_and_queue_mark() {
    let image = |b: &str| ImageAttachment { mime: "image/png".into(), base64: b.into() };
    let request = prompt_request("s", "说\"话\"", Some(image("QQ==")), vec![image("Qg==")], false, true);
    assert_eq!(request.path, "/api/agent/s");
    let body = parse_json(request.body.as_ref().expect("a body")).expect("JSON");
    assert_eq!(body.text("type"), Some("prompt"));
    assert_eq!(body.text("message"), Some("说\"话\""));
    assert_eq!(body.text("streamingBehavior"), Some("followUp"));
    let images = body.list("images").expect("images");
    assert_eq!(images.len(), 2);
    assert_eq!(images[0].text("type"), Some("image"));
    assert_eq!(images[0].text("data"), Some("QQ=="));
    assert_eq!(images[1].text("data"), Some("Qg=="));
    assert_eq!(images[1].text("mimeType"), Some("image/png"));

    let plain = parse_json(&prompt_body("x", &vec![], false)).expect("JSON");
    assert!(plain.get("streamingBehavior").is_none() && plain.get("images").is_none());
    assert_eq!(prompt_body("x", &vec![], false), r#"{"message":"x","type":"prompt"}"#);
}

#[test]
fn commands_become_requests_to_the_followed_session() {
    let mut watch = None;
    let step = on_input(
        Input::Command(Command::SetModel { provider: "p".into(), model_id: "m".into() }),
        "s",
        &mut watch,
    );
    let WebStep::Ask { request, purpose } = step else { panic!("expected a request") };
    assert_eq!(purpose, Purpose::Model { provider: "p".into(), model_id: "m".into() });
    assert_eq!((request.method.as_str(), request.path.as_str()), ("POST", "/api/agent/s"));
    assert_eq!(text_of(&request, "type").as_deref(), Some("set_model"));
    assert_eq!(text_of(&request, "provider").as_deref(), Some("p"));
    assert_eq!(text_of(&request, "modelId").as_deref(), Some("m"));

    for (command, kind) in [
        (Command::SetThinking { level: "max".into() }, "set_thinking_level"),
        (Command::Compact, "compact"),
        (Command::FetchStats, "get_session_stats"),
        (
            Command::UiRespond { id: "q".into(), value: None, confirmed: Some(false), cancelled: false },
            "extension_ui_response",
        ),
    ] {
        let WebStep::Ask { request, .. } = on_input(Input::Command(command), "s", &mut watch)
        else {
            panic!("expected a request")
        };
        assert_eq!(text_of(&request, "type").as_deref(), Some(kind));
        assert_eq!(request.path, "/api/agent/s");
    }
    let WebStep::Ask { request, .. } =
        on_input(Input::Command(Command::Browse { path: "/a b".into() }), "s", &mut watch)
    else {
        panic!("expected a request")
    };
    assert_eq!(request.path, "/api/cwd/browse?path=/a%20b");
    let WebStep::Ask { request, .. } =
        on_input(Input::Command(Command::FetchFiles { cwd: "/w".into() }), "s", &mut watch)
    else {
        panic!("expected a request")
    };
    assert_eq!(request.path, "/api/file-index?cwd=/w");
    let WebStep::Ask { request, purpose } =
        on_input(Input::Command(Command::NewSession { cwd: "/w".into() }), "s", &mut watch)
    else {
        panic!("expected a request")
    };
    assert_eq!(purpose, Purpose::NewSession);
    assert_eq!(request.path, "/api/agent/new");
    assert_eq!(text_of(&request, "cwd").as_deref(), Some("/w"));
    assert_eq!(text_of(&request, "type").as_deref(), Some("ensure_session"));
    assert_eq!(watch, None);
}

#[test]
fn watching_and_losing_the_stream_reconnect() {
    let mut watch = None;
    assert_eq!(
        on_input(Input::Command(Command::Watch("s".into())), "s", &mut watch),
        WebStep::Reconnect
    );
    assert_eq!(watch, None);
    assert_eq!(
        on_input(Input::Command(Command::Watch("t".into())), "s", &mut watch),
        WebStep::Reconnect
    );
    assert_eq!(watch.as_deref(), Some("t"));
    assert_eq!(
        on_input(Input::Command(Command::Reconnect), "s", &mut watch),
        WebStep::Reconnect
    );
    assert_eq!(on_input(Input::Idle { stream_ended: false }, "s", &mut watch), WebStep::Wait);
    assert_eq!(on_input(Input::Idle { stream_ended: true }, "s", &mut watch), WebStep::Reconnect);
    assert_eq!(on_input(Input::Gone, "s", &mut watch), WebStep::Reconnect);
}

#[test]
fn rejected_prompts_tell_why() {
    assert_eq!(on_prompt_reply(&answer(200, "")), vec![]);
    assert_eq!(on_prompt_reply(&answer(299, "")), vec![]);
    assert_eq!(on_prompt_reply(&answer(500, r#"{"error":"满"}"#)), failed("满"));
    assert_eq!(on_prompt_reply(&answer(300, "x")), failed("HTTP 300"));
    assert_eq!(on_prompt_reply(&lost()), failed("断"));
    assert_eq!(failure(&answer(204, "")), None);
}

#[test]
fn replies_report_models_levels_and_failures() {
    let mut watch = None;
    let mut reply = |purpose: Purpose, reply: Reply| on_reply(purpose, &reply, Lang::Zh, &mut watch);
    let model = || Purpose::Model { provider: "p".into(), model_id: "m".into() };
    let set = |p: &str, i: &str| vec![Event::ModelSet { provider: p.into(), id: i.into() }];
    assert_eq!(reply(model(), answer(200, "")), set("p", "m"));
    assert_eq!(
        reply(model(), answer(200, r#"{"data":{"provider":"q","modelId":"n"}}"#)),
        set("q", "n")
    );
    assert_eq!(reply(model(), answer(400, "")), failed("切换模型失败：HTTP 400"));
    assert_eq!(reply(model(), lost()), failed("切换模型失败：断"));
    let thinking = || Purpose::Thinking { level: "max".into() };
    assert_eq!(
        reply(thinking(), answer(200, "")),
        vec![Event::ThinkingSet { level: "max".into() }]
    );
    assert_eq!(reply(thinking(), answer(400, "")), failed("切换思考强度失败：HTTP 400"));
    assert_eq!(reply(thinking(), lost()), failed("切换思考强度失败：断"));
    assert_eq!(reply(Purpose::Ui, answer(500, "")), vec![]);
    assert_eq!(reply(Purpose::Ui, lost()), vec![Event::Notice("提交确认失败：断".into())]);
    assert_eq!(reply(Purpose::Compact, answer(200, "{}")), vec![]);
    assert_eq!(reply(Purpose::Compact, answer(500, r#"{"error":"忙"}"#)), failed("压缩失败：忙"));
    assert!(matches!(
        &reply(Purpose::Compact, answer(200, "{"))[..],
        [Event::SendFailed { message }] if message.starts_with("压缩失败：EOF")
    ));
    let stats = reply(Purpose::Stats, answer(200, r#"{"data":{"tokens":{"input":7}}}"#));
    assert!(matches!(&stats[..], [Event::Stats(s)] if s.input == 7));
    assert_eq!(reply(Purpose::Stats, answer(500, "")), vec![]);
}

#[test]
fn replies_list_directories_and_files() {
    let mut watch = None;
    let browse = || Purpose::Browse { path: "/p".into() };
    let listing = |path: &str, parent: Option<&str>, dirs: Vec<(String, String)>| {
        vec![Event::DirListing {
            path: path.into(),
            parent: parent.map(|p| p.to_string()),
            dirs,
        }]
    };
    assert_eq!(
        on_reply(
            browse(),
            &answer(
                200,
                r#"{"path":"/q","parentPath":"/","directories":[{"name":"a","path":"/q/a"},{"name":"b"}]}"#
            ),
            Lang::Zh,
            &mut watch
        ),
        listing("/q", Some("/"), vec![("a".into(), "/q/a".into())])
    );
    assert_eq!(
        on_reply(browse(), &answer(403, ""), Lang::Zh, &mut watch),
        listing("/p", None, vec![])
    );
    assert_eq!(on_reply(browse(), &answer(200, "x"), Lang::Zh, &mut watch), vec![]);
    assert_eq!(on_reply(browse(), &lost(), Lang::Zh, &mut watch), vec![]);
    let files = || Purpose::Files { cwd: "/w".into() };
    assert_eq!(
        on_reply(files(), &answer(200, r#"{"files":["a",1,"b"]}"#), Lang::Zh, &mut watch),
        vec![Event::Files { cwd: "/w".into(), files: vec!["a".into(), "b".into()] }]
    );
    assert_eq!(
        on_reply(files(), &answer(200, "x"), Lang::Zh, &mut watch),
        vec![Event::Files { cwd: "/w".into(), files: vec![] }]
    );
    assert_eq!(on_reply(files(), &answer(500, ""), Lang::Zh, &mut watch), vec![]);
}

#[test]
fn fresh_sessions_are_followed() {
    let mut watch = None;
    assert_eq!(
        on_reply(Purpose::NewSession, &answer(200, "{}"), Lang::En, &mut watch),
        failed("new session failed: response is missing sessionId")
    );
    assert_eq!(watch, None);
    assert_eq!(
        on_reply(Purpose::NewSession, &answer(201, r#"{"sessionId":"n"}"#), Lang::En, &mut watch),
        vec![]
    );
    assert_eq!(watch.as_deref(), Some("n"));
    assert_eq!(
        on_reply(Purpose::NewSession, &answer(500, ""), Lang::Zh, &mut watch),
        failed("新建会话失败：HTTP 500")
    );
    assert_eq!(watch.as_deref(), Some("n"));
    assert!(is_last_reply(&Purpose::NewSession));
    assert!(!is_last_reply(&Purpose::Compact));
    let list = answer(200, r#"{"sessions":[{"id":"s1"},{"id":"n"}]}"#);
    let followed = on_sessions(&watch, &list, Lang::Zh);
    assert!(matches!(followed, Follow::Session { active, .. } if active == "n"));
}

#[test]
fn catalog_combines_models_and_session_state() {
    let catalog = answer(
        200,
        r#"{"modelList":[{"provider":"p","id":"m"}],"thinkingLevels":{"p:m":["off","max"],"q":1}}"#,
    );
    assert!(has_models(&catalog));
    assert!(!has_models(&answer(200, r#"{"modelList":[]}"#)));
    assert_eq!(
        on_models(
            &catalog,
            &answer(200, r#"{"state":{"model":{"provider":"p","id":"m"},"thinkingLevel":"max"}}"#)
        ),
        vec![Event::Models {
            list: vec![ModelInfo { provider: "p".into(), id: "m".into(), name: "m".into() }],
            current: Some(("p".into(), "m".into())),
            thinking_levels: vec![
                ("p:m".into(), vec!["off".into(), "max".into()]),
                ("q".into(), vec![]),
            ],
            thinking: Some("max".into()),
        }]
    );
    assert_eq!(on_models(&lost(), &lost()), vec![]);
    assert_eq!(
        on_commands(&answer(200, r#"{"data":{"commands":[{"name":"fix"}]}}"#)),
        vec![Event::Commands(vec![CommandInfo {
            name: "fix".into(),
            description: "".into(),
            source: "".into()
        }])]
    );
    assert_eq!(on_commands(&answer(200, "x")), vec![Event::Commands(vec![])]);
    assert_eq!(on_commands(&answer(404, "")), vec![]);
    assert_eq!(on_commands(&lost()), vec![]);
}

#[test]
fn watched_session_beats_the_newest() {
    let list = || vec![session("new"), session("old")];
    let followed = |watch: Option<&str>| {
        match follow_sessions(&watch.map(|w| w.to_string()), list(), Lang::Zh) {
            Follow::Session { active, cwd, .. } => (active, cwd),
            Follow::Retry(_) => panic!("a session can be followed"),
        }
    };
    assert_eq!(followed(None), ("new".into(), Some("/new".into())));
    assert_eq!(followed(Some("old")), ("old".into(), Some("/old".into())));
    assert_eq!(followed(Some("gone")), ("new".into(), Some("/new".into())));
    assert_eq!(find_session(&list(), "old"), 1);
    assert_eq!(find_session(&list(), "gone"), 2);
}

#[test]
fn session_list_replies() {
    assert_eq!(
        connecting("http://h"),
        vec![
            Event::Status(Status::Connecting),
            Event::Backend("pi-web · http://h".into()),
        ]
    );
    assert_eq!(
        on_sessions(&None, &answer(200, r#"{"sessions":[]}"#), Lang::En),
        Follow::Retry(vec![
            Event::Sessions(vec![]),
            Event::Status(Status::Error("pi-web has no sessions".into())),
        ])
    );
    assert_eq!(
        on_sessions(&None, &answer(201, ""), Lang::Zh),
        Follow::Retry(vec![Event::Status(Status::Error("pi-web /api/sessions 返回 201".into()))])
    );
    assert_eq!(
        on_sessions(&None, &lost(), Lang::Zh),
        Follow::Retry(vec![Event::Status(Status::Error("断".into()))])
    );
    assert_eq!(
        on_sessions(&None, &answer(200, r#"{"sessions":[{"id":"a","path":"/a.jsonl"}]}"#), Lang::Zh),
        Follow::Session {
            events: vec![
                Event::Sessions(vec![SessionInfo {
                    id: "a".into(),
                    label: "".into(),
                    path: Some("/a.jsonl".into()),
                    cwd: None
                }]),
                Event::Status(Status::Ready { session: "a".into(), streaming: false }),
            ],
            active: "a".into(),
            cwd: None,
            path: Some("/a.jsonl".into()),
        }
    );
    assert_eq!(backfill(vec![]), vec![]);
    assert_eq!(
        backfill(vec![Entry::User("x".into())]),
        vec![Event::Replace(vec![Entry::User("x".into())])]
    );
}

#[test]
fn waiting_answers_what_it_can() {
    let mut watch = None;
    let mut retry = |input: Input| on_retry(input, &mut watch, Lang::Zh);
    assert_eq!(retry(Input::Command(Command::Reconnect)), RetryStep::Again);
    assert_eq!(retry(Input::Gone), RetryStep::Exit);
    assert_eq!(retry(Input::Idle { stream_ended: false }), RetryStep::Wait(vec![]));
    assert_eq!(
        retry(Input::Command(Command::SetThinking { level: "x".into() })),
        RetryStep::Wait(failed("切换思考强度失败：尚未连接 pi-web"))
    );
    assert_eq!(
        retry(Input::Command(Command::NewSession { cwd: "/".into() })),
        RetryStep::Wait(failed("新建会话失败：尚未连接 pi-web"))
    );
    assert_eq!(retry(Input::Command(Command::FetchStats)), RetryStep::Wait(vec![]));
    assert!(matches!(
        retry(Input::Command(Command::Send {
            session: "s".into(),
            message: "m".into(),
            image: None,
            queued: false
        })),
        RetryStep::Prompt { .. }
    ));
    assert_eq!(retry(Input::Command(Command::Watch("t".into()))), RetryStep::Again);
    assert_eq!(watch.as_deref(), Some("t"));
}
