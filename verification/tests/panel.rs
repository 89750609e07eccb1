//! The panel's state: what events and the user do to it.

use ocs_pi::actions::{selection_label, Effect, PiMsg};
use ocs_pi::attach::Staged;
use ocs_pi::files::file_refs;
use ocs_pi::ids::{fnv1a, stable_id, LIVE_ID_BASE};
use ocs_pi::panel::{
    BrowseState, PendingUi, PiEntryKind, PiPanelState, PiStatus, Start, StreamBlock,
};
use ocs_pi::popup::Popup;
use ocs_pi::protocol::{
    Command, CommandInfo, DeltaKind, Entry, Event, ImageAttachment, ModelInfo, Part, SessionInfo,
    SessionStats, Status,
};

fn state() -> PiPanelState {
    PiPanelState::empty()
}

/// The composer with the cursor behind its text.
fn typed(text: &str) -> PiMsg {
    let end = text.chars().count();
    PiMsg::Editor { text: text.into(), caret: (end, end) }
}

fn connected() -> PiPanelState {
    let mut s = PiPanelState::new(None, "auto", None, None, Some("/home/u"));
    assert!(s.ensure_worker().is_some());
    s
}

fn session(id: &str, label: &str, cwd: Option<&str>) -> SessionInfo {
    SessionInfo {
        id: id.into(),
        label: label.into(),
        path: None,
        cwd: cwd.map(|c| c.to_string()),
    }
}

fn notice(s: &PiPanelState, at: usize) -> &str {
    match &s.entries[at].kind {
        PiEntryKind::Notice(n) => n,
        _ => panic!("expected a notice"),
    }
}

#[test]
fn user_echo_consumes_optimistic_bubble() {
    let mut s = state();
    s.input = "你好".to_string();
    assert!(s.send_current());
    assert_eq!(s.entries.len(), 1);
    assert_eq!(s.pending_echoes.len(), 1);
    // The SSE echo of the same message is consumed, not duplicated.
    assert!(!s.apply(Event::User("你好".into())));
    assert_eq!(s.entries.len(), 1);
    // A different user message still renders.
    assert!(s.apply(Event::User("再来一条".into())));
    assert_eq!(s.entries.len(), 2);
}

#[test]
fn streaming_text_appends_in_place_and_finalizes() {
    let mut s = state();
    assert!(s.apply(Event::MsgStart { parts: vec![] }));
    assert!(s.apply(Event::Delta { kind: DeltaKind::Text, idx: 0, chunk: "你好".into() }));
    assert!(s.apply(Event::Delta { kind: DeltaKind::Text, idx: 0, chunk: "，世界".into() }));
    // Still one live block, not entries.
    assert_eq!(s.streaming.blocks.len(), 1);
    assert_eq!(s.entries.len(), 0);
    assert!(s.apply(Event::AssistantEnd { parts: vec![(0, Part::Text("你好，世界".into()))] }));
    // Final flush lands as one Assistant entry; live buffer cleared.
    assert_eq!(s.entries.len(), 1);
    assert!(
        matches!(&s.entries[0].kind, PiEntryKind::Assistant(body) if body.text == "你好，世界")
    );
    assert!(s.streaming.blocks.is_empty());
}

#[test]
fn thinking_block_streams_collapsed_and_lands_before_text() {
    let mut s = state();
    s.apply(Event::MsgStart { parts: vec![] });
    s.apply(Event::Delta { kind: DeltaKind::Thinking, idx: 0, chunk: "先想".into() });
    s.apply(Event::Delta { kind: DeltaKind::Thinking, idx: 0, chunk: "一想".into() });
    s.apply(Event::Delta { kind: DeltaKind::Text, idx: 1, chunk: "答案".into() });
    // Two live blocks: thinking at idx 0, text at idx 1.
    assert_eq!(s.streaming.blocks.len(), 2);
    assert_eq!(
        s.streaming.blocks[0],
        StreamBlock::Thinking { idx: 0, text: "先想一想".into() }
    );
    assert!(s.apply(Event::AssistantEnd {
        parts: vec![(0, Part::Thinking("先想一想".into())), (1, Part::Text("答案".into()))],
    }));
    assert_eq!(s.entries.len(), 2);
    assert!(matches!(&s.entries[0].kind, PiEntryKind::Thinking(_)));
    assert!(matches!(&s.entries[1].kind, PiEntryKind::Assistant(_)));
    // Thinking entries start collapsed.
    assert!(!s.entries[0].expanded);
}

#[test]
fn tool_lifecycle_keyed_by_call_id() {
    let mut s = state();
    s.apply(Event::ToolCallStart { id: "t1".into(), name: "bash".into() });
    s.apply(Event::ToolPartial {
        id: "t1".into(),
        name: "bash".into(),
        output: "部分输出".into(),
    });
    assert_eq!(s.entries.len(), 1);
    assert!(
        matches!(&s.entries[0].kind, PiEntryKind::Tool { output, done: false, .. } if output == "部分输出")
    );
    // Duplicate start (toolcall_start + tool_execution_start) is idempotent.
    s.apply(Event::ToolCallStart { id: "t1".into(), name: "bash".into() });
    assert_eq!(s.entries.len(), 1);
    s.apply(Event::ToolResult {
        id: "t1".into(),
        name: "bash".into(),
        output: "全部输出".into(),
        is_error: false,
    });
    assert!(
        matches!(&s.entries[0].kind, PiEntryKind::Tool { output, done: true, is_error: false, .. } if output == "全部输出")
    );
}

#[test]
fn backfill_replace_keeps_stable_tool_ids() {
    let mut s = state();
    s.apply(Event::ToolCallStart { id: "t9".into(), name: "read".into() });
    let live_tool_id = s.entries[0].id;
    // Reconnect: backfill reconstructs the same tool call from the file.
    let replaced = s.apply(Event::Replace(vec![Entry::Tool {
        id: "t9".into(),
        name: "read".into(),
        output: "内容".into(),
        done: true,
        is_error: false,
    }]));
    assert!(replaced);
    assert_eq!(s.entries.len(), 1);
    assert_eq!(s.entries[0].id, live_tool_id, "tool id must survive reconnect backfill");
}

#[test]
fn backfill_keeps_expanded_entries_expanded() {
    let mut s = state();
    s.apply(Event::ToolCallStart { id: "t9".into(), name: "read".into() });
    let id = s.entries[0].id;
    s.toggle_entry(id);
    s.apply(Event::Replace(vec![
        Entry::User("问".into()),
        Entry::Tool {
            id: "t9".into(),
            name: "read".into(),
            output: "内容".into(),
            done: true,
            is_error: false,
        },
    ]));
    assert!(!s.entries[0].expanded);
    assert!(s.entries[1].expanded);
}

#[test]
fn send_failed_removes_optimistic_bubble() {
    let mut s = state();
    s.input = "会被拒绝的消息".to_string();
    s.send_current();
    assert_eq!(s.entries.len(), 1);
    assert!(s.apply(Event::SendFailed { message: "Session not found".into() }));
    // Bubble removed, notice added.
    assert!(
        matches!(&s.entries[0].kind, PiEntryKind::Notice(n) if n.contains("Session not found"))
    );
    assert_eq!(notice(&s, 0), "发送失败：Session not found");
    assert_eq!(s.entries.len(), 1);
    assert!(s.pending_echoes.is_empty());
}

#[test]
fn queued_send_marks_message_and_streaming_flag_updates() {
    let mut s = state();
    s.status = PiStatus::Ready { session: "s1".into(), streaming: false };
    s.apply(Event::Streaming(true));
    assert!(s.is_streaming());
    s.apply(Event::Streaming(false));
    assert!(!s.is_streaming());
    s.apply(Event::Queue { steering: vec![], follow_up: vec!["a".into(), "b".into()] });
    assert_eq!(s.queued_followups, Some(2));
}

#[test]
fn user_picked_session_beats_follow_newest() {
    let mut s = state();
    s.apply(Event::Sessions(vec![
        session("newest", "最新", None),
        session("picked", "手选", None),
    ]));
    // Default: newest.
    assert_eq!(s.active.as_deref(), Some("newest"));
    s.watch_session("picked".into());
    assert_eq!(s.active.as_deref(), Some("picked"));
    assert!(s.entries.is_empty());
    // A later session list refresh must not steal the user's pick.
    s.apply(Event::Sessions(vec![session("newer", "更新", None)]));
    assert_eq!(s.active.as_deref(), Some("picked"));
}

#[test]
fn status_ready_updates_active_session() {
    let mut s = state();
    s.apply(Event::Status(Status::Ready { session: "abc".into(), streaming: true }));
    assert_eq!(s.active.as_deref(), Some("abc"));
    assert!(s.is_streaming());
    assert!(s.status_label().contains("生成中"));
    assert_eq!(s.status_label(), "● 生成中 · 会话 abc");
}

#[test]
fn fresh_panel_takes_defaults_from_the_environment() {
    let s = PiPanelState::new(None, "rpc", None, None, None);
    assert_eq!(s.endpoint, "http://127.0.0.1:30141");
    assert_eq!((s.mode.as_str(), s.pi_bin.as_str(), s.project_cwd.as_str()), ("rpc", "pi", "/"));
    let s = PiPanelState::new(Some("http://h:1"), "web", Some("/b/pi"), None, Some("/home/u"));
    assert_eq!(s.endpoint, "http://h:1");
    assert_eq!((s.pi_bin.as_str(), s.project_cwd.as_str()), ("/b/pi", "/home/u"));
    let s = PiPanelState::new(None, "auto", None, Some("/p"), Some("/home/u"));
    assert_eq!(s.project_cwd, "/p");
    assert_eq!(s.status, PiStatus::Idle);
}

#[test]
fn commands_reach_the_worker_in_order() {
    let mut s = state();
    s.send_command(Command::Compact);
    assert!(s.take_outbox().is_empty());
    let mut s = connected();
    s.send_command(Command::Compact);
    s.send_command(Command::FetchStats);
    assert_eq!(s.take_outbox(), vec![Command::Compact, Command::FetchStats]);
    assert!(s.take_outbox().is_empty());
}

#[test]
fn sent_message_goes_out_with_image_and_queue_mark() {
    let mut s = connected();
    s.apply(Event::Status(Status::Ready { session: "s1".into(), streaming: true }));
    assert_eq!(s.take_outbox(), vec![Command::FetchStats]);
    s.input = "  做 \n".to_string();
    let image = || ImageAttachment { mime: "image/png".into(), base64: "QQ==".into() };
    s.image_pasted(Staged::Image { image: image(), width: 2, height: 3 });
    assert_eq!(s.pending_image_size, Some((2, 3)));
    assert!(s.send_current());
    assert_eq!(
        s.take_outbox(),
        vec![Command::Send {
            session: "s1".into(),
            message: "做".into(),
            image: Some(image()),
            queued: true,
        }]
    );
    assert_eq!(s.input, "");
    assert_eq!(s.pending_image, None);
    assert_eq!(s.pending_image_size, None);
    // Nothing to send: nothing happens.
    s.input = " \t ".to_string();
    assert!(!s.send_current());
    assert!(s.take_outbox().is_empty());
}

#[test]
fn echoes_are_consumed_in_order_sent() {
    let mut s = state();
    for text in ["一", "二"] {
        s.input = text.to_string();
        s.send_current();
    }
    // The second echo does not fit the first ticket; it repeats the last bubble.
    assert!(!s.apply(Event::User("二".into())));
    assert_eq!(s.pending_echoes, vec!["一", "二"]);
    assert!(!s.apply(Event::User("一".into())));
    assert!(!s.apply(Event::User("二".into())));
    assert!(s.pending_echoes.is_empty());
    assert_eq!(s.entries.len(), 2);
    // An empty echo that nobody waits for shows nothing.
    assert!(!s.apply(Event::User("".into())));
    assert_eq!(s.entries.len(), 2);
}

#[test]
fn repeated_stream_errors_are_shown_once() {
    let mut s = state();
    assert!(s.apply(Event::StreamError("断".into())));
    assert!(!s.apply(Event::StreamError("断".into())));
    assert!(s.apply(Event::StreamError("又断".into())));
    assert_eq!(s.entries.len(), 2);
    assert_eq!((notice(&s, 0), notice(&s, 1)), ("断", "又断"));
}

#[test]
fn end_of_a_run_asks_for_stats() {
    let mut s = connected();
    s.status = PiStatus::Ready { session: "s".into(), streaming: true };
    s.apply(Event::Streaming(false));
    assert_eq!(s.take_outbox(), vec![Command::FetchStats]);
    s.apply(Event::Streaming(false));
    assert!(s.take_outbox().is_empty());
}

#[test]
fn message_start_shows_blocks_and_announces_tools() {
    let mut s = state();
    s.apply(Event::MsgStart {
        parts: vec![
            (0, Part::Thinking("想".into())),
            (1, Part::ToolCall { id: "t".into(), name: "ls".into() }),
            (2, Part::Text("半".into())),
        ],
    });
    assert_eq!(
        s.streaming.blocks,
        vec![
            StreamBlock::Thinking { idx: 0, text: "想".into() },
            StreamBlock::Text { idx: 2, text: "半".into() },
        ]
    );
    assert_eq!(s.entries.len(), 1);
    assert_eq!(s.entries[0].id, stable_id("tool", "t", 0));
}

#[test]
fn empty_parts_leave_no_entry() {
    let mut s = state();
    s.apply(Event::AssistantEnd {
        parts: vec![(0, Part::Thinking("".into())), (1, Part::Text("".into()))],
    });
    assert!(s.entries.is_empty());
}

#[test]
fn catalog_keeps_what_it_does_not_report() {
    let mut s = state();
    s.apply(Event::ModelSet { provider: "p".into(), id: "m".into() });
    s.apply(Event::ThinkingSet { level: "high".into() });
    s.apply(Event::Models {
        list: vec![ModelInfo { provider: "p".into(), id: "m".into(), name: "M".into() }],
        current: None,
        thinking_levels: vec![("p:m".into(), vec!["off".into(), "high".into()])],
        thinking: None,
    });
    assert_eq!(s.current_model, Some(("p".to_string(), "m".to_string())));
    assert_eq!(s.current_thinking.as_deref(), Some("high"));
    assert_eq!(s.selected_model(), Some(0));
    let levels = s.levels();
    assert_eq!(levels, vec!["off", "high"]);
    assert_eq!(s.selected_level(&levels), Some(1));
}

#[test]
fn live_ids_count_up_from_the_base() {
    let mut s = state();
    s.push_notice("a".into());
    s.push_notice("b".into());
    assert_eq!(s.entries[0].id, LIVE_ID_BASE + 1);
    assert_eq!(s.entries[1].id, LIVE_ID_BASE + 2);
    assert!(s.has_spare_ids(5));
    s.next_id = u64::MAX - LIVE_ID_BASE;
    assert!(!s.has_room(&Event::Notice("c".into())));
    assert!(s.has_room(&Event::Streaming(true)));
    assert!(!s.can_poll(&vec![Event::Streaming(true), Event::Notice("c".into())]));
}

#[test]
fn content_ids_are_fnv_hashes() {
    assert_eq!(fnv1a(""), 0xcbf2_9ce4_8422_2325);
    assert_eq!(fnv1a("a"), 0xaf63_dc4c_8601_ec8c);
    // Hashes may lie above the base of the live ids, content ids do not.
    assert!(fnv1a("a") > LIVE_ID_BASE);
    assert_eq!(stable_id("u", "x", 0), fnv1a("u\u{1}x\u{1}0") % LIVE_ID_BASE);
    for tag in ["u", "a", "t", "tool", "n"] {
        for key in ["", "a", "你好", "call-1"] {
            assert!(stable_id(tag, key, 0) < LIVE_ID_BASE);
        }
    }
}

#[test]
fn polling_folds_all_events() {
    let mut s = state();
    let events = vec![Event::Streaming(true), Event::Notice("a".into()), Event::Backend("b".into())];
    assert!(s.can_poll(&events));
    assert!(s.poll(events));
    assert_eq!(s.entries.len(), 1);
    assert_eq!(s.backend, "b");
    assert!(!s.poll(vec![Event::Streaming(false)]));
}

#[test]
fn toggling_twice_restores_entry_and_live_block() {
    let mut s = state();
    s.push_notice("a".into());
    let id = s.entries[0].id;
    s.toggle_entry(id);
    assert!(s.entries[0].expanded);
    s.toggle_entry(id);
    assert!(!s.entries[0].expanded);
    s.toggle_entry(7);
    assert!(s.live_expanded.contains(&7));
    s.toggle_entry(7);
    assert!(s.live_expanded.is_empty());
}

#[test]
fn backend_switch_starts_over() {
    let mut s = connected();
    s.apply(Event::Sessions(vec![session("a", "", None)]));
    s.push_notice("x".into());
    s.stats = Some(SessionStats {
        input: 1,
        output: 1,
        cache_read: 0,
        cache_write: 0,
        cost: None,
        context_tokens: None,
        context_window: None,
        context_percent: None,
    });
    assert_eq!(s.on_pi_msg(PiMsg::BackendPick("auto".into())), Effect::Nothing);
    assert_eq!(s.entries.len(), 1);
    assert_eq!(
        s.on_pi_msg(PiMsg::BackendPick("rpc".into())),
        Effect::SwitchWorker {
            mode: "rpc".into(),
            start: Start::Rpc { bin: "pi".into(), cwd: "/home/u".into() },
        }
    );
    assert!(s.entries.is_empty() && s.sessions.is_empty());
    assert_eq!((s.active.as_deref(), s.stats.is_none()), (None, true));
    assert_eq!(s.status, PiStatus::Connecting);
    assert!(s.worker);
}

#[test]
fn reconnect_starts_or_restarts_the_worker() {
    let mut s = state();
    s.mode = "web".into();
    assert_eq!(
        s.on_pi_msg(PiMsg::Reconnect),
        Effect::StartWorker(Start::Web { endpoint: "http://127.0.0.1:30141".into() })
    );
    assert!(s.take_outbox().is_empty());
    assert_eq!(s.on_pi_msg(PiMsg::Reconnect), Effect::Nothing);
    assert_eq!(s.take_outbox(), vec![Command::Reconnect]);
    assert_eq!(s.status, PiStatus::Connecting);
    s.stop_worker();
    assert!(!s.worker);
}

#[test]
fn picking_a_session_starts_the_worker_and_watches() {
    let mut s = state();
    let effect = s.on_pi_msg(PiMsg::SessionPick("b".into()));
    assert!(matches!(effect, Effect::StartWorker(Start::Auto { .. })));
    assert_eq!(s.take_outbox(), vec![Command::Watch("b".into())]);
    assert_eq!(s.active.as_deref(), Some("b"));
}

#[test]
fn pickers_need_a_session() {
    let mut s = connected();
    s.on_pi_msg(PiMsg::ModelPick { provider: "p".into(), id: "m".into() });
    s.on_pi_msg(PiMsg::ThinkingPick("low".into()));
    s.on_pi_msg(PiMsg::Compact);
    assert!(s.take_outbox().is_empty());
    assert_eq!(s.current_thinking, None);
    s.active = Some("a".into());
    s.on_pi_msg(PiMsg::ModelPick { provider: "p".into(), id: "m".into() });
    s.on_pi_msg(PiMsg::ThinkingPick("low".into()));
    s.on_pi_msg(PiMsg::Compact);
    assert_eq!(
        s.take_outbox(),
        vec![
            Command::SetModel { provider: "p".into(), model_id: "m".into() },
            Command::SetThinking { level: "low".into() },
            Command::Compact,
        ]
    );
    assert_eq!(s.current_thinking.as_deref(), Some("low"));
}

#[test]
fn questions_are_answered_once() {
    let ask = |s: &mut PiPanelState, prefill: Option<&str>| {
        s.apply(Event::UiRequest {
            id: "q".into(),
            method: "input".into(),
            title: "?".into(),
            message: None,
            options: vec![],
            prefill: prefill.map(|p| p.to_string()),
        })
    };
    let respond = |value: Option<&str>, confirmed: Option<bool>, cancelled: bool| {
        Command::UiRespond {
            id: "q".into(),
            value: value.map(|v| v.to_string()),
            confirmed,
            cancelled,
        }
    };
    let mut s = connected();
    assert!(ask(&mut s, Some(" 预填 ")));
    assert_eq!(s.ui_answer, " 预填 ");
    s.on_pi_msg(PiMsg::UiSubmit);
    assert_eq!(s.take_outbox(), vec![respond(Some("预填"), None, false)]);
    s.on_pi_msg(PiMsg::UiSubmit);
    assert!(s.take_outbox().is_empty());
    ask(&mut s, None);
    assert_eq!(s.ui_answer, "");
    s.on_pi_msg(PiMsg::UiEdit("写".into()));
    assert_eq!(s.ui_answer, "写");
    s.on_pi_msg(PiMsg::UiAnswer { value: None, confirmed: Some(true) });
    assert_eq!(s.take_outbox(), vec![respond(None, Some(true), false)]);
    ask(&mut s, None);
    s.on_pi_msg(PiMsg::UiCancel);
    assert_eq!(s.take_outbox(), vec![respond(None, None, true)]);
    assert_eq!(s.pending_ui, None::<PendingUi>);
}

#[test]
fn browser_follows_directories() {
    let mut s = connected();
    s.on_pi_msg(PiMsg::NewSessionOpen);
    assert_eq!(s.take_outbox(), vec![Command::Browse { path: "/home/u".into() }]);
    // No parent known yet.
    s.on_pi_msg(PiMsg::DirUp);
    assert!(s.take_outbox().is_empty());
    s.apply(Event::DirListing {
        path: "/home/u".into(),
        parent: Some("/home".into()),
        dirs: vec![("p".into(), "/home/u/p".into())],
    });
    assert_eq!(s.browse.as_ref().map(|b| b.loading), Some(false));
    s.on_pi_msg(PiMsg::DirOpen("/home/u/p".into()));
    s.on_pi_msg(PiMsg::DirUp);
    assert_eq!(
        s.take_outbox(),
        vec![
            Command::Browse { path: "/home/u/p".into() },
            Command::Browse { path: "/home".into() },
        ]
    );
    s.on_pi_msg(PiMsg::CreateSession);
    assert_eq!(s.take_outbox(), vec![Command::NewSession { cwd: "/home".into() }]);
    assert_eq!(s.browse, None::<BrowseState>);
    assert_eq!(s.status, PiStatus::Connecting);
    // A listing that nobody waits for is dropped.
    s.apply(Event::DirListing { path: "/".into(), parent: None, dirs: vec![] });
    assert_eq!(s.browse, None::<BrowseState>);
    s.on_pi_msg(PiMsg::NewSessionOpen);
    s.on_pi_msg(PiMsg::NewSessionCancel);
    assert_eq!(s.browse, None::<BrowseState>);
}

#[test]
fn new_session_browser_starts_in_the_session_directory() {
    let mut s = connected();
    s.apply(Event::Sessions(vec![session("a", "", Some("/work"))]));
    s.on_pi_msg(PiMsg::NewSessionOpen);
    assert_eq!(s.take_outbox(), vec![Command::Browse { path: "/work".into() }]);
}

fn command(name: &str) -> CommandInfo {
    CommandInfo { name: name.into(), description: "".into(), source: "".into() }
}

#[test]
fn slash_completion_fills_the_composer() {
    let mut s = connected();
    s.on_pi_msg(typed("说明\n/x"));
    assert_eq!(
        s.popup,
        Some(Popup::Slash { query: "x".into(), matches: vec![], active: 0 })
    );
    // The list arrives while the popup is open.
    s.apply(Event::Commands(vec![command("fix"), command("help"), command("xray")]));
    assert_eq!(
        s.popup,
        Some(Popup::Slash { query: "x".into(), matches: vec![0, 2], active: 0 })
    );
    s.on_pi_msg(PiMsg::MenuUp);
    assert_eq!(s.on_pi_msg(PiMsg::MenuAccept), Effect::Nothing);
    assert_eq!(s.input, "/xray ");
    assert_eq!(s.popup, None);
}

#[test]
fn file_completion_fetches_the_index_once() {
    let mut s = connected();
    s.apply(Event::Sessions(vec![session("a", "", Some("/work"))]));
    s.on_pi_msg(typed("看 @ma"));
    s.on_pi_msg(typed("看 @mai"));
    assert_eq!(s.take_outbox(), vec![Command::FetchFiles { cwd: "/work".into() }]);
    s.apply(Event::Files {
        cwd: "/work".into(),
        files: vec!["src/main.rs".into(), "Main.txt".into(), "lib.rs".into()],
    });
    assert_eq!(
        s.popup,
        Some(Popup::At {
            query: "mai".into(),
            matches: vec!["Main.txt".into(), "src/main.rs".into()],
            active: 0,
        })
    );
    s.on_pi_msg(PiMsg::MenuDown);
    assert_eq!(s.on_pi_msg(PiMsg::MenuAccept), Effect::Nothing);
    assert_eq!(s.input, "看 @src/main.rs ");
    s.on_pi_msg(typed("a@b"));
    assert_eq!(s.popup, None);
    assert!(s.take_outbox().is_empty());
    s.on_pi_msg(typed("/"));
    assert!(s.popup.is_some());
    s.on_pi_msg(PiMsg::MenuClose);
    assert_eq!(s.popup, None);
}

#[test]
fn accepted_files_replace_the_query() {
    let accept = |input: &str, caret: (usize, usize), path: &str| {
        let mut s = state();
        s.input = input.into();
        s.caret = caret;
        s.popup = Some(Popup::At { query: "ma".into(), matches: vec![path.into()], active: 0 });
        s.menu_accept();
        (s.input, s.caret)
    };
    assert_eq!(accept("@ma", (3, 3), "src/main.rs"), ("@src/main.rs ".into(), (13, 13)));
    // In the word, or behind it and the space that follows.
    assert_eq!(accept("@ma", (1, 1), "b"), ("@b ".into(), (3, 3)));
    assert_eq!(accept("a\n见 @x 和 @ma  ", (14, 14), "b"), ("a\n见 @x 和 @b ".into(), (12, 12)));
    assert_eq!(accept("@ma  ", (3, 3), "b"), ("@b   ".into(), (3, 3)));
    assert_eq!(accept("@", (1, 1), "b"), ("@b ".into(), (3, 3)));
    assert_eq!(
        file_refs(accept("见 @x 和 @ma", (10, 10), "src/main.rs").0.trim()),
        vec!["x".to_string(), "src/main.rs".to_string()]
    );
    // Elsewhere it goes in at the caret, in place of what is selected.
    assert_eq!(accept("ab @ma", (0, 0), "b"), ("@b ab @ma".into(), (3, 3)));
    assert_eq!(accept("ab @ma", (0, 2), "b"), ("@b  @ma".into(), (3, 3)));
    assert_eq!(accept("ab @ma", (3, 3), "b"), ("ab @b @ma".into(), (6, 6)));
    assert_eq!(accept("x ", (2, 2), "b"), ("x @b ".into(), (5, 5)));
    // A caret beyond the text counts as its end.
    assert_eq!(accept("@ma", (9, 7), "b"), ("@b ".into(), (3, 3)));
    // A highlight beyond the matches only closes the popup.
    let mut s = state();
    s.input = "@ma".into();
    s.popup = Some(Popup::At { query: "ma".into(), matches: vec![], active: 0 });
    s.menu_accept();
    assert_eq!((s.input.as_str(), s.popup.is_none()), ("@ma", true));
}

#[test]
fn pasted_text_goes_in_at_the_caret() {
    let mut s = state();
    s.on_pi_msg(PiMsg::Editor { text: "你好吗".into(), caret: (1, 2) });
    s.text_pasted("们 @x");
    assert_eq!((s.input.as_str(), s.caret), ("你们 @x吗", (5, 5)));
    // Pasting leaves the popup alone, typing does not.
    assert_eq!(s.popup, None);
    s.on_pi_msg(typed("你 @x"));
    assert!(s.popup.is_some());
}

#[test]
fn pasting_stages_images_or_tells_why_not() {
    let mut s = state();
    assert_eq!(s.on_pi_msg(PiMsg::Paste), Effect::ReadClipboard);
    s.image_pasted(Staged::Failed("图像数据异常".into()));
    assert_eq!(notice(&s, 0), "粘贴图片失败：图像数据异常");
    s.image_pasted(Staged::Image {
        image: ImageAttachment { mime: "image/png".into(), base64: "".into() },
        width: 1,
        height: 1,
    });
    s.on_pi_msg(PiMsg::ClearImage);
    assert_eq!((s.pending_image.is_none(), s.pending_image_size), (true, None));
}

#[test]
fn selection_label_names_one_kind_or_all() {
    let kinds = |k: &[&str]| k.iter().map(|s| s.to_string()).collect::<Vec<String>>();
    assert_eq!(selection_label(&kinds(&[]), "圆弧", "全部"), "");
    assert_eq!(selection_label(&kinds(&["arc"]), "圆弧", "全部"), "圆弧（1）");
    assert_eq!(selection_label(&kinds(&["line", "line"]), "直线", "全部"), "直线（2）");
    assert_eq!(selection_label(&kinds(&["line", "arc"]), "直线", "全部"), "全部（2）");
    let mut s = state();
    assert!(s.selection_changed(9));
    s.set_selection(9, "圆弧（1）".into());
    assert!(!s.selection_changed(9));
    assert_eq!(s.selection_label, "圆弧（1）");
}
