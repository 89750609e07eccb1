//! What the panel shows.

use ocs_pi::panel::{BrowseState, PendingUi, PiEntry, PiEntryKind, PiPanelState, PiStatus, StreamBlock};
use ocs_pi::popup::Popup;
use ocs_pi::protocol::{CommandInfo, Event, ImageAttachment, SessionInfo, SessionStats};
use ocs_pi::tables::AssistantBody;
use ocs_pi::view::{
    browse_view, entry_view, fold_marker, highlighted_row, live_block_id, read_key,
    session_label_text, stats_line, table_cell, tool_badge, ui_request_view, Badge, ComposerKey,
    Dialog, KeyMeaning, LiveBlock, ShortStats,
};

fn state() -> PiPanelState {
    PiPanelState::empty()
}

#[test]
fn status_is_put_in_words() {
    let mut s = state();
    assert_eq!(s.status_label(), "未连接");
    assert_eq!(s.reconnect_label(), Some("连接"));
    assert_eq!(s.empty_state(), "未连接 — 点击上方「连接」开始");
    s.status = PiStatus::Connecting;
    assert_eq!(s.status_label(), "正在连接 pi-web…");
    assert_eq!(s.reconnect_label(), None);
    assert_eq!(s.empty_state(), "正在连接…");
    s.status = PiStatus::Ready { session: "0123456789".into(), streaming: false };
    assert_eq!(s.status_label(), "○ 空闲 · 会话 01234567");
    assert!(s.empty_state().starts_with("pi-web 没有会话"));
    s.sessions.push(SessionInfo { id: "a".into(), label: "".into(), path: None, cwd: None });
    assert_eq!(s.empty_state(), "暂无消息 — 在下方输入框发送第一条");
    s.status = PiStatus::Error("断".into());
    assert_eq!(s.status_label(), "连接失败：断");
    assert_eq!(s.reconnect_label(), Some("重连"));
    assert!(s.empty_state().contains("OCS_PI_MODE=auto|web|rpc"));
}

#[test]
fn sessions_are_labelled_and_selected() {
    let named = SessionInfo { id: "b".into(), label: "标题".into(), path: None, cwd: None };
    let plain = SessionInfo { id: "a".into(), label: "".into(), path: None, cwd: None };
    assert_eq!(session_label_text(&plain), "（无标题会话）");
    assert_eq!(session_label_text(&named), "标题");
    let mut s = state();
    s.sessions = vec![plain, named];
    assert_eq!(s.selected_session(), None);
    s.active = Some("b".into());
    assert_eq!(s.selected_session(), Some(1));
    s.active = Some("x".into());
    assert_eq!(s.selected_session(), None);
}

fn shown(kind: PiEntryKind, expanded: bool) -> (String, Option<Badge>, Option<String>) {
    let view = entry_view(&PiEntry { id: 1, kind, expanded });
    (view.title, view.badge, view.body)
}

#[test]
fn entries_show_titles_badges_and_bodies() {
    let text = |t: &str| Some(t.to_string());
    assert_eq!(
        shown(PiEntryKind::User("".into()), false),
        ("你".into(), None, text("📷 截图"))
    );
    assert_eq!(shown(PiEntryKind::User("嗨".into()), false), ("你".into(), None, text("嗨")));
    assert_eq!(
        shown(PiEntryKind::Assistant(AssistantBody::new("答".into())), false),
        ("Pi".into(), None, text("答"))
    );
    assert_eq!(shown(PiEntryKind::Thinking("想".into()), false), ("思考".into(), None, None));
    assert_eq!(
        shown(PiEntryKind::Thinking("想".into()), true),
        ("思考".into(), None, text("想"))
    );
    assert_eq!(shown(PiEntryKind::Notice("注".into()), false), ("".into(), None, text("注")));
    let tool = |output: &str, done: bool, is_error: bool| PiEntryKind::Tool {
        id: "t".into(),
        name: "bash".into(),
        output: output.into(),
        done,
        is_error,
    };
    assert_eq!(
        shown(tool("", false, false), true),
        ("工具 · bash".into(), Some(Badge::Running), None)
    );
    assert_eq!(
        shown(tool("o", true, true), true),
        ("工具 · bash".into(), Some(Badge::Failed), text("o"))
    );
    assert_eq!(tool_badge(true, false), Badge::Done);
    assert_eq!(
        (Badge::Running.label(), Badge::Done.label(), Badge::Failed.label()),
        ("运行中…", "完成", "出错")
    );
    assert_eq!((fold_marker(true), fold_marker(false)), ("▾", "▸"));
}

#[test]
fn live_blocks_keep_their_expansion() {
    let mut s = state();
    let block = StreamBlock::Thinking { idx: 3, text: "想".into() };
    let id = live_block_id(3);
    assert_ne!(id, live_block_id(4));
    let thinking = |expanded: bool, body: Option<&str>| LiveBlock::Thinking {
        title: "思考中…",
        id,
        expanded,
        body: body.map(|b| b.to_string()),
    };
    assert_eq!(s.streaming_view(&block), thinking(false, None));
    s.toggle_entry(id);
    assert_eq!(s.streaming_view(&block), thinking(true, Some("想")));
    assert_eq!(
        s.streaming_view(&StreamBlock::Text { idx: 0, text: "".into() }),
        LiveBlock::Text { title: "Pi", body: "…".into() }
    );
    assert_eq!(
        s.streaming_view(&StreamBlock::Text { idx: 0, text: "答".into() }),
        LiveBlock::Text { title: "Pi", body: "答".into() }
    );
}

#[test]
fn short_table_rows_have_empty_cells() {
    let row = vec!["a".to_string()];
    assert_eq!(table_cell(&row, 0), "a");
    assert_eq!(table_cell(&row, 1), "");
}

#[test]
fn keys_in_the_composer() {
    let keys = [
        (false, true, ComposerKey::Enter, false, KeyMeaning::Edit),
        (true, false, ComposerKey::Enter, false, KeyMeaning::Send),
        (true, false, ComposerKey::Enter, true, KeyMeaning::Edit),
        (true, true, ComposerKey::Enter, false, KeyMeaning::MenuAccept),
        (true, true, ComposerKey::Enter, true, KeyMeaning::Edit),
        (true, true, ComposerKey::Tab, false, KeyMeaning::MenuAccept),
        (true, false, ComposerKey::Tab, false, KeyMeaning::Edit),
        (true, true, ComposerKey::Up, false, KeyMeaning::MenuUp),
        (true, true, ComposerKey::Down, false, KeyMeaning::MenuDown),
        (true, true, ComposerKey::Escape, false, KeyMeaning::MenuClose),
        (true, false, ComposerKey::Escape, false, KeyMeaning::Edit),
        (true, true, ComposerKey::Paste, false, KeyMeaning::Paste),
        (true, false, ComposerKey::Other, false, KeyMeaning::Edit),
    ];
    for (focused, open, key, shift, want) in keys {
        assert_eq!(read_key(focused, open, key, shift), want, "{key:?}");
    }
}

#[test]
fn composer_offers_to_send_and_shows_the_attachment() {
    let mut s = state();
    assert!(!s.can_send() && !s.menu_open() && s.nothing_to_show() && s.can_compact());
    s.input = " x ".into();
    assert!(s.can_send());
    s.input = "  ".into();
    assert_eq!(s.attachment_label(), None);
    s.pending_image =
        Some(ImageAttachment { mime: "image/png".into(), base64: "A".repeat(4096) });
    assert!(s.can_send());
    assert_eq!(s.attachment_label().as_deref(), Some("📷 截图（3 KB）"));
    s.pending_image_size = Some((640, 480));
    assert_eq!(s.attachment_label().as_deref(), Some("📷 截图（3 KB） 640×480"));
}

#[test]
fn hint_tells_about_the_queue() {
    let mut s = state();
    assert_eq!(s.hint(), "Enter 发送 / Shift+Enter 换行");
    s.queued_followups = Some(0);
    assert_eq!(s.hint(), "Enter 发送 / Shift+Enter 换行");
    s.queued_followups = Some(2);
    s.status = PiStatus::Ready { session: "s".into(), streaming: true };
    assert_eq!(s.hint(), "已排队 2 条 · Pi 生成中…Enter 会排队为后续消息");
    assert!(!s.can_compact());
}

fn stats(input: u64, tokens: Option<u64>, window: Option<u64>, percent: Option<u8>) -> SessionStats {
    SessionStats {
        input,
        output: 2,
        cache_read: 3,
        cache_write: 4,
        cost: None,
        context_tokens: tokens,
        context_window: window,
        context_percent: percent,
    }
}

fn short(cost: Option<&str>) -> ShortStats {
    ShortStats {
        input: "1.5k".into(),
        output: "2".into(),
        cache_read: "3".into(),
        cache_write: "4".into(),
        tokens: "50".into(),
        window: "200".into(),
        cost: cost.map(|c| c.to_string()),
    }
}

#[test]
fn accounting_line() {
    assert_eq!(stats_line(&stats(0, None, None, None), &short(None)), None);
    assert_eq!(
        stats_line(&stats(1500, None, None, None), &short(Some("6.200"))).as_deref(),
        Some("↑1.5k ↓2 · 缓存 3/4 · $6.200")
    );
    // The share is computed where it is not reported.
    assert_eq!(
        stats_line(&stats(0, Some(50), Some(200), None), &short(None)).as_deref(),
        Some("↑1.5k ↓2 · 缓存 3/4 · 上下文 25%（50/200）")
    );
    assert_eq!(
        stats_line(&stats(0, Some(50), Some(200), Some(68)), &short(None)).as_deref(),
        Some("↑1.5k ↓2 · 缓存 3/4 · 上下文 68%（50/200）")
    );
    assert_eq!(
        stats_line(&stats(0, Some(50), Some(0), None), &short(None)).as_deref(),
        Some("↑1.5k ↓2 · 缓存 3/4 · 上下文 （50/200）")
    );
}

#[test]
fn popup_window_follows_the_highlight() {
    let mut s = state();
    let matches: Vec<String> = (0..12).map(|i| format!("f{i}")).collect();
    let popup = |active: usize| Popup::At { query: "f".into(), matches: matches.clone(), active };
    let rows = s.popup_rows(&popup(0));
    assert_eq!(rows.len(), 8);
    assert_eq!(rows[0], ("@f0".to_string(), "".to_string()));
    assert_eq!(highlighted_row(&popup(3)), 3);
    let rows = s.popup_rows(&popup(10));
    assert_eq!(rows[0].0, "@f3");
    assert_eq!(highlighted_row(&popup(10)), 7);
    assert_eq!(rows[highlighted_row(&popup(10))].0, "@f10");

    s.apply(Event::Commands(vec![
        CommandInfo { name: "fix".into(), description: "修".into(), source: "prompt".into() },
        CommandInfo { name: "go".into(), description: "走".into(), source: "".into() },
    ]));
    let slash = Popup::Slash { query: "".into(), matches: vec![1, 9, 0], active: 0 };
    assert_eq!(
        s.popup_rows(&slash),
        vec![
            ("/go".to_string(), "走".to_string()),
            ("/fix".to_string(), "[prompt] 修".to_string()),
        ]
    );
}

#[test]
fn questions_choose_their_dialog() {
    let ask = |method: &str, n: usize| PendingUi {
        id: "q".into(),
        method: method.into(),
        title: "".into(),
        message: None,
        options: (0..n).map(|i| format!("{i}")).collect(),
    };
    let options = |n: usize| (0..n).map(|i| format!("{i}")).collect::<Vec<String>>();
    assert_eq!(
        ui_request_view(&ask("select", 3)),
        Dialog::Select { options: options(3), scroll: false }
    );
    assert_eq!(
        ui_request_view(&ask("select", 10)),
        Dialog::Select { options: options(8), scroll: true }
    );
    assert_eq!(ui_request_view(&ask("confirm", 0)), Dialog::Confirm);
    assert_eq!(ui_request_view(&ask("input", 0)), Dialog::Text { field: true, editor: false });
    assert_eq!(ui_request_view(&ask("editor", 0)), Dialog::Text { field: true, editor: true });
}

#[test]
fn browser_shows_directories_or_a_note() {
    let browse = |n: usize, loading: bool| BrowseState {
        path: "/p".into(),
        parent: None,
        dirs: (0..n).map(|i| (format!("d{i}"), format!("/p/d{i}"))).collect(),
        loading,
    };
    assert_eq!(browse_view(&browse(0, true)), (Some("读取目录…"), vec![]));
    assert_eq!(browse_view(&browse(0, false)), (Some("（没有子目录）"), vec![]));
    let (note, rows) = browse_view(&browse(9, false));
    assert_eq!(note, None);
    assert_eq!(rows.len(), 8);
    assert_eq!(rows[7], ("📁 d7".to_string(), "/p/d7".to_string()));
}
