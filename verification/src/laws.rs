//! What holds of the panel, whatever happens to it.

use vstd::prelude::*;

use crate::actions::{applied_all, EffectV, PiMsgV};
use crate::files::{lemma_refs_behind, lemma_single_ref, refs_from};
use crate::ids::{content_id, LIVE_ID_BASE};
use crate::panel::{
    after_delta, block_at, entry_at, expanded_at, grown, is_notice, is_tool, is_user, last_tool,
    last_user, lemma_block_at, lemma_entry_at, lemma_last_tool, lemma_last_user, live_blocks, shown,
    takes_delta, PanelV, PiEntryKindV, PiEntryV, PiStatusV, StreamBlockV,
};
use crate::popup::{
    completion_of, file_span, law_chosen_file_is_inserted_at_caret, law_chosen_file_replaces_query,
    lemma_asking_word, selected, with_file, CompletionV, PopupV,
};
use crate::protocol::{CommandV, DeltaKind, EntryV, EventV, PartV, SessionInfoV, StatusV};
use crate::text::{
    after_last, before_last_word, begins, is_ascii_white, is_white, last_word_at, lemma_after_last,
    lemma_before_last_word, lemma_word_len_bounds, lemma_words_last, trim_end, trim_start, trimmed,
    words_of,
};

verus! {

// ── Messages of the user ────────────────────────────────────────────────────

/// A sent message is shown at once, waits for its echo, and goes to the worker.
pub proof fn law_sent_message_is_shown(p: PanelV)
    requires
        p.has_ids(1),
        trimmed(p.input).len() > 0 || p.pending_image is Some,
    ensures
        ({
            let (q, changed) = p.after_send();
            &&& changed
            &&& q.entries.drop_last() == p.entries
            &&& is_user(q.entries.last(), trimmed(p.input))
            &&& q.pending_echoes == p.pending_echoes.push(trimmed(p.input))
            &&& q.input.len() == 0
            &&& q.pending_image is None
            &&& p.worker ==> q.outbox.len() == p.outbox.len() + 1
        }),
{
    let (q, _) = p.after_send();
    assert(q.entries.drop_last() =~= p.entries);
}

/// The echo of the oldest waiting message is taken in without showing the
/// message a second time.
pub proof fn law_echo_is_consumed(p: PanelV)
    requires
        p.pending_echoes.len() > 0,
    ensures
        p.applied(EventV::User(p.pending_echoes[0])) == (
            PanelV { pending_echoes: p.pending_echoes.remove(0), ..p },
            false,
        ),
{
}

/// Sending a message and receiving its echo leaves one bubble and nothing
/// waiting, if nothing waited before.
pub proof fn law_send_and_echo_leave_one_bubble(p: PanelV)
    requires
        p.has_ids(1),
        p.pending_echoes.len() == 0,
        trimmed(p.input).len() > 0 || p.pending_image is Some,
    ensures
        ({
            let q = p.after_send().0;
            let (r, changed) = q.applied(EventV::User(trimmed(p.input)));
            &&& !changed
            &&& r.entries == q.entries
            &&& r.entries.len() == p.entries.len() + 1
            &&& r.pending_echoes.len() == 0
        }),
{
    let q = p.after_send().0;
    assert(q.pending_echoes[0] == trimmed(p.input));
}

/// A rejected message is taken back: the transcript is as it was, but for the
/// notice about it, and nothing more waits than before.
pub proof fn law_rejected_message_is_taken_back(p: PanelV, message: Seq<char>)
    requires
        p.has_ids(2),
        trimmed(p.input).len() > 0 || p.pending_image is Some,
    ensures
        ({
            let q = p.after_send().0;
            let (r, changed) = q.applied(EventV::SendFailed { message });
            &&& changed
            &&& r.entries.drop_last() == p.entries
            &&& is_notice(r.entries.last(), "发送失败："@ + message)
            &&& r.pending_echoes == p.pending_echoes
        }),
{
    let q = p.after_send().0;
    let text = trimmed(p.input);
    assert(q.pending_echoes.last() == text);
    assert(q.pending_echoes.drop_last() =~= p.pending_echoes);
    assert(is_user(q.entries.last(), text));
    assert(last_user(q.entries, text) == q.entries.len() - 1);
    assert(q.entries.remove(q.entries.len() - 1) =~= p.entries);
    let r = q.applied(EventV::SendFailed { message }).0;
    assert(r.entries.drop_last() =~= p.entries);
}

/// An empty message that nothing waits for shows nothing: it is the echo of an
/// image that is shown already.
pub proof fn law_empty_echo_shows_nothing(p: PanelV)
    requires
        p.pending_echoes.len() == 0,
    ensures
        p.applied(EventV::User(Seq::empty())) == (p, false),
{
}

/// A message sent while a run is streaming is marked to be queued, and any other
/// is not.
pub proof fn law_message_is_queued_while_streaming(p: PanelV)
    requires
        p.has_ids(1),
        p.worker,
        trimmed(p.input).len() > 0 || p.pending_image is Some,
    ensures
        p.after_send().0.outbox.last() matches CommandV::Send { queued, message, image, .. }
            && queued == p.is_streaming() && message == trimmed(p.input) && image
            == p.pending_image,
{
}

// ── Streaming ───────────────────────────────────────────────────────────────

/// Two chunks for the same block are as good as one.
pub proof fn law_chunks_join(
    p: PanelV,
    kind: DeltaKind,
    idx: usize,
    first: Seq<char>,
    second: Seq<char>,
)
    ensures
        p.applied(EventV::Delta { kind, idx, chunk: first }).0.applied(
            EventV::Delta { kind, idx, chunk: second },
        ).0 == p.applied(EventV::Delta { kind, idx, chunk: first + second }).0,
{
    let blocks = p.streaming;
    let once = after_delta(blocks, kind, idx, first);
    lemma_block_at(blocks, kind, idx);
    lemma_block_at(once, kind, idx);
    let at = block_at(blocks, kind, idx);
    assert(takes_delta(once[at], kind, idx));
    assert forall|i: int| 0 <= i < at implies !takes_delta(#[trigger] once[i], kind, idx) by {
        assert(once[i] == blocks[i]);
    }
    assert(block_at(once, kind, idx) == at);
    if at < blocks.len() {
        assert(grown(grown(blocks[at], first), second) == grown(blocks[at], first + second)) by {
            match blocks[at] {
                StreamBlockV::Text { idx: i, text } => {
                    assert((text + first) + second =~= text + (first + second));
                },
                StreamBlockV::Thinking { idx: i, text } => {
                    assert((text + first) + second =~= text + (first + second));
                },
            }
        }
    }
    assert(after_delta(once, kind, idx, second) =~= after_delta(
        blocks,
        kind,
        idx,
        first + second,
    ));
}

/// A chunk never becomes an entry of its own: only the live message changes.
pub proof fn law_chunk_changes_live_message_only(
    p: PanelV,
    kind: DeltaKind,
    idx: usize,
    chunk: Seq<char>,
)
    ensures
        p.applied(EventV::Delta { kind, idx, chunk }).0 == (PanelV {
            streaming: after_delta(p.streaming, kind, idx, chunk),
            ..p
        }),
{
}

/// The end of a message clears the live one.
pub proof fn law_end_clears_live_message(p: PanelV, parts: Seq<(usize, PartV)>)
    ensures
        p.applied(EventV::AssistantEnd { parts }).0.streaming.len() == 0,
{
}

/// A message of thinking and text ends as two entries, the thinking first and
/// collapsed.
pub proof fn law_thinking_lands_before_text(
    p: PanelV,
    thinking: Seq<char>,
    text: Seq<char>,
)
    requires
        thinking.len() > 0,
        text.len() > 0,
    ensures
        ({
            let parts = seq![(0usize, PartV::Thinking(thinking)), (1usize, PartV::Text(text))];
            let q = p.applied(EventV::AssistantEnd { parts }).0;
            let n = p.entries.len() as int;
            &&& q.entries.len() == n + 2
            &&& q.entries.take(n) == p.entries
            &&& q.entries[n].kind == PiEntryKindV::Thinking(thinking)
            &&& !q.entries[n].expanded
            &&& q.entries[n + 1].kind matches PiEntryKindV::Assistant(body) && body.text == text
        }),
{
    let parts = seq![(0usize, PartV::Thinking(thinking)), (1usize, PartV::Text(text))];
    assert(parts.drop_last() =~= seq![(0usize, PartV::Thinking(thinking))]);
    assert(parts.drop_last().drop_last() =~= Seq::empty());
    reveal_with_fuel(PanelV::with_final, 3);
    let q = p.applied(EventV::AssistantEnd { parts }).0;
    assert(q.entries.take(p.entries.len() as int) =~= p.entries);
}

/// While a session is ready, the streaming flag follows the runs, and the end of
/// a run asks for the accounting.
pub proof fn law_streaming_flag_follows_runs(p: PanelV, v: bool)
    requires
        p.status is Ready,
    ensures
        p.applied(EventV::Streaming(v)).0.is_streaming() == v,
        p.worker && p.is_streaming() && !v ==> p.applied(EventV::Streaming(v)).0.outbox
            == p.outbox.push(CommandV::FetchStats),
{
}

/// The same stream error twice in a row is shown once.
pub proof fn law_error_is_shown_once(p: PanelV, message: Seq<char>)
    requires
        p.has_ids(1),
    ensures
        ({
            let q = p.applied(EventV::StreamError(message)).0;
            q.applied(EventV::StreamError(message)) == (q, false)
        }),
{
    let q = p.applied(EventV::StreamError(message)).0;
    assert(q.entries.len() > 0 && is_notice(q.entries.last(), message));
}

// ── Tools ───────────────────────────────────────────────────────────────────

/// No two entries belong to the same tool call.
pub open spec fn one_entry_per_call(entries: Seq<PiEntryV>) -> bool {
    forall|i: int, j: int|
        0 <= i < j < entries.len() ==> !same_call(#[trigger] entries[i], #[trigger] entries[j])
}

/// Two entries of the same tool call.
pub open spec fn same_call(a: PiEntryV, b: PiEntryV) -> bool {
    match (a.kind, b.kind) {
        (PiEntryKindV::Tool { id: x, .. }, PiEntryKindV::Tool { id: y, .. }) => x == y,
        _ => false,
    }
}

proof fn lemma_with_tool_twice(p: PanelV, id: Seq<char>, name: Seq<char>)
    ensures
        last_tool(p.with_tool(id, name).entries, id) >= 0,
        p.with_tool(id, name).with_tool(id, name) == p.with_tool(id, name),
{
    let q = p.with_tool(id, name);
    if last_tool(p.entries, id) < 0 {
        assert(is_tool(q.entries.last(), id));
        assert(last_tool(q.entries, id) == q.entries.len() - 1);
    }
}

/// A tool call that is announced twice has one entry.
pub proof fn law_tool_start_is_idempotent(p: PanelV, id: Seq<char>, name: Seq<char>)
    ensures
        ({
            let q = p.applied(EventV::ToolCallStart { id, name }).0;
            q.applied(EventV::ToolCallStart { id, name }).0 == q
        }),
{
    let q = p.applied(EventV::ToolCallStart { id, name }).0;
    assert(q == p.with_tool(id, name));
    lemma_with_tool_twice(p, id, name);
}

/// Output of a tool call goes to its entry: none is added if it was announced.
pub proof fn law_tool_output_finds_its_entry(
    p: PanelV,
    id: Seq<char>,
    name: Seq<char>,
    output: Seq<char>,
    is_error: bool,
)
    requires
        last_tool(p.entries, id) >= 0,
    ensures
        ({
            let q = p.applied(EventV::ToolResult { id, name, output, is_error }).0;
            let at = last_tool(p.entries, id);
            &&& q.entries.len() == p.entries.len()
            &&& q.entries[at].kind == (PiEntryKindV::Tool {
                id,
                name,
                output,
                done: true,
                is_error,
            })
            &&& q.entries[at].id == p.entries[at].id
            &&& q.entries[at].expanded == p.entries[at].expanded
        }),
{
    lemma_last_tool(p.entries, id);
}

proof fn lemma_push_keeps_calls(entries: Seq<PiEntryV>, e: PiEntryV)
    requires
        one_entry_per_call(entries),
        forall|i: int| 0 <= i < entries.len() ==> !same_call(#[trigger] entries[i], e),
    ensures
        one_entry_per_call(entries.push(e)),
{
}

proof fn lemma_with_tool_keeps_calls(p: PanelV, id: Seq<char>, name: Seq<char>)
    requires
        one_entry_per_call(p.entries),
    ensures
        one_entry_per_call(p.with_tool(id, name).entries),
{
    lemma_last_tool(p.entries, id);
    if last_tool(p.entries, id) < 0 {
        let e = p.with_tool(id, name).entries.last();
        assert forall|i: int| 0 <= i < p.entries.len() implies !same_call(
            #[trigger] p.entries[i],
            e,
        ) by {
            assert(!is_tool(p.entries[i], id));
        }
        lemma_push_keeps_calls(p.entries, e);
    }
}

proof fn lemma_pushed_keeps_calls(p: PanelV, kind: PiEntryKindV)
    requires
        one_entry_per_call(p.entries),
        !(kind is Tool),
    ensures
        one_entry_per_call(p.pushed(kind).entries),
{
    lemma_push_keeps_calls(p.entries, p.pushed(kind).entries.last());
}

proof fn lemma_with_tools_keeps_calls(p: PanelV, parts: Seq<(usize, PartV)>)
    requires
        one_entry_per_call(p.entries),
    ensures
        one_entry_per_call(p.with_tools(parts).entries),
    decreases parts.len(),
{
    if parts.len() > 0 {
        lemma_with_tools_keeps_calls(p, parts.drop_last());
        let before = p.with_tools(parts.drop_last());
        if let PartV::ToolCall { id, name } = parts.last().1 {
            lemma_with_tool_keeps_calls(before, id, name);
        }
    }
}

proof fn lemma_with_final_keeps_calls(p: PanelV, parts: Seq<(usize, PartV)>)
    requires
        one_entry_per_call(p.entries),
    ensures
        one_entry_per_call(p.with_final(parts).entries),
    decreases parts.len(),
{
    if parts.len() > 0 {
        lemma_with_final_keeps_calls(p, parts.drop_last());
        let before = p.with_final(parts.drop_last());
        match parts.last().1 {
            PartV::Thinking(t) => {
                lemma_pushed_keeps_calls(before, PiEntryKindV::Thinking(t));
            },
            PartV::Text(t) => {
                lemma_pushed_keeps_calls(
                    before,
                    PiEntryKindV::Assistant(crate::tables::body_of(t)),
                );
            },
            PartV::ToolCall { id, name } => {
                lemma_with_tool_keeps_calls(before, id, name);
            },
        }
    }
}

proof fn lemma_tool_set_keeps_calls(
    p: PanelV,
    id: Seq<char>,
    name: Seq<char>,
    output: Seq<char>,
    done: bool,
    is_error: bool,
)
    requires
        one_entry_per_call(p.entries),
    ensures
        one_entry_per_call(p.tool_set(id, name, output, done, is_error).entries),
{
    lemma_last_tool(p.entries, id);
    let q = p.tool_set(id, name, output, done, is_error);
    let at = last_tool(p.entries, id);
    if at >= 0 {
        assert forall|i: int, j: int| 0 <= i < j < q.entries.len() implies !same_call(
            #[trigger] q.entries[i],
            #[trigger] q.entries[j],
        ) by {
            assert(!same_call(p.entries[i], p.entries[j]));
        }
    } else {
        let e = q.entries.last();
        assert forall|i: int| 0 <= i < p.entries.len() implies !same_call(
            #[trigger] p.entries[i],
            e,
        ) by {
            assert(!is_tool(p.entries[i], id));
        }
        lemma_push_keeps_calls(p.entries, e);
    }
}

/// Every event keeps one entry per tool call. (A replaced transcript has as many
/// entries for a call as the one that replaces it.)
pub proof fn law_one_entry_per_call_is_kept(p: PanelV, ev: EventV)
    requires
        one_entry_per_call(p.entries),
        !(ev is Replace),
    ensures
        one_entry_per_call(p.applied(ev).0.entries),
{
    match ev {
        EventV::User(text) => {
            lemma_pushed_keeps_calls(p, PiEntryKindV::User(text));
        },
        EventV::Notice(message) => {
            lemma_pushed_keeps_calls(p, PiEntryKindV::Notice(message));
        },
        EventV::StreamError(message) => {
            lemma_pushed_keeps_calls(p, PiEntryKindV::Notice(message));
        },
        EventV::MsgStart { parts } => {
            lemma_with_tools_keeps_calls(PanelV { streaming: live_blocks(parts), ..p }, parts);
        },
        EventV::AssistantEnd { parts } => {
            lemma_with_final_keeps_calls(p, parts);
        },
        EventV::ToolCallStart { id, name } => {
            lemma_with_tool_keeps_calls(p, id, name);
        },
        EventV::ToolPartial { id, name, output } => {
            lemma_tool_set_keeps_calls(p, id, name, output, false, false);
        },
        EventV::ToolResult { id, name, output, is_error } => {
            lemma_tool_set_keeps_calls(p, id, name, output, true, is_error);
        },
        EventV::SendFailed { message } => {
            if p.pending_echoes.len() > 0 {
                let echo = p.pending_echoes.last();
                let at = last_user(p.entries, echo);
                lemma_last_user(p.entries, echo);
                let kept = if 0 <= at < p.entries.len() {
                    p.entries.remove(at)
                } else {
                    p.entries
                };
                assert(one_entry_per_call(kept)) by {
                    assert forall|i: int, j: int| 0 <= i < j < kept.len() implies !same_call(
                        #[trigger] kept[i],
                        #[trigger] kept[j],
                    ) by {
                        if at >= 0 {
                            let a = if i < at {
                                i
                            } else {
                                i + 1
                            };
                            let b = if j < at {
                                j
                            } else {
                                j + 1
                            };
                            assert(kept[i] == p.entries[a]);
                            assert(kept[j] == p.entries[b]);
                            assert(!same_call(p.entries[a], p.entries[b]));
                        }
                    }
                }
                let q = PanelV {
                    pending_echoes: p.pending_echoes.drop_last(),
                    entries: kept,
                    ..p
                };
                lemma_pushed_keeps_calls(q, PiEntryKindV::Notice("发送失败："@ + message));
            } else {
                lemma_pushed_keeps_calls(p, PiEntryKindV::Notice("发送失败："@ + message));
            }
        },
        _ => {},
    }
}

// ── Identity of entries ─────────────────────────────────────────────────────

/// A tool entry keeps its id, and whether it is expanded, when the history of a
/// reconnect replaces the transcript.
pub proof fn law_tool_entry_survives_backfill(
    p: PanelV,
    id: Seq<char>,
    name: Seq<char>,
    history: Seq<EntryV>,
    i: int,
)
    requires
        0 <= i < history.len(),
        history[i] matches EntryV::Tool { id: tid, .. } && tid == id,
        last_tool(p.entries, id) < 0,
        forall|k: int|
            0 <= k < p.entries.len() ==> (#[trigger] p.entries[k]).id != content_id("tool"@, id, 0),
    ensures
        ({
            let live = p.applied(EventV::ToolCallStart { id, name }).0;
            let open = live.toggled(live.entries.last().id);
            let back = open.applied(EventV::Replace(history)).0;
            &&& back.entries[i].id == live.entries.last().id
            &&& back.entries[i].expanded
            &&& !live.applied(EventV::Replace(history)).0.entries[i].expanded
        }),
{
    let live = p.applied(EventV::ToolCallStart { id, name }).0;
    let key = content_id("tool"@, id, 0);
    let n = p.entries.len() as int;
    assert(live.entries[n].id == key);
    lemma_entry_at(live.entries, key);
    assert forall|k: int| 0 <= k < n implies (#[trigger] live.entries[k]).id != key by {
        assert(live.entries[k] == p.entries[k]);
    }
    assert(entry_at(live.entries, key) == n);
    let open = live.toggled(key);
    lemma_entry_at(open.entries, key);
    assert forall|k: int| 0 <= k < n implies (#[trigger] open.entries[k]).id != key by {
        assert(open.entries[k] == p.entries[k]);
    }
    assert(entry_at(open.entries, key) == n);
}

/// Replacing the transcript keeps what was expanded, for every entry with the
/// same content.
pub proof fn law_backfill_keeps_expansion(p: PanelV, history: Seq<EntryV>, i: int)
    requires
        0 <= i < history.len(),
    ensures
        ({
            let q = p.applied(EventV::Replace(history)).0;
            &&& q.entries.len() == history.len()
            &&& q.entries[i].expanded == expanded_at(p.entries, q.entries[i].id)
        }),
{
}

/// Live entries get ids that were not given out before, above every id up to the
/// base.
pub proof fn law_live_ids_are_fresh(p: PanelV, a: PiEntryKindV, b: PiEntryKindV)
    requires
        p.has_ids(2),
    ensures
        LIVE_ID_BASE < p.pushed(a).entries.last().id < p.pushed(a).pushed(b).entries.last().id,
        p.pushed(a).entries.last().id == LIVE_ID_BASE + p.next_id + 1,
{
}

/// A live entry never shares its id with a stored one, nor with the entry of a
/// tool call.
pub proof fn law_live_ids_avoid_content_ids(
    p: PanelV,
    kind: PiEntryKindV,
    entry: EntryV,
    call: Seq<char>,
)
    requires
        p.has_ids(1),
    ensures
        p.pushed(kind).entries.last().id != shown(entry, p.entries).id,
        p.pushed(kind).entries.last().id != content_id("tool"@, call, 0),
{
}

proof fn lemma_first_entry(entries: Seq<PiEntryV>, id: u64, at: int)
    requires
        0 <= at < entries.len(),
        entries[at].id == id,
        forall|k: int| 0 <= k < at ==> (#[trigger] entries[k]).id != id,
    ensures
        entry_at(entries, id) == at,
{
    lemma_entry_at(entries, id);
    let found = entry_at(entries, id);
    if found > at {
        assert(entries[at].id != id);
    } else if found < at {
        assert(entries[found].id != id);
    }
}

/// Expanding and collapsing an entry, or the other way round, changes nothing.
pub proof fn law_toggle_twice(p: PanelV, id: u64)
    ensures
        p.toggled(id).toggled(id) == p,
{
    let q = p.toggled(id);
    lemma_entry_at(p.entries, id);
    let at = entry_at(p.entries, id);
    if at < p.entries.len() {
        assert forall|k: int| 0 <= k < at implies (#[trigger] q.entries[k]).id != id by {
            assert(q.entries[k] == p.entries[k]);
        }
        assert(q.entries[at].id == id);
        lemma_first_entry(q.entries, id, at);
        assert(q.toggled(id).entries =~= p.entries);
    } else {
        assert(q.entries == p.entries);
        assert(q.toggled(id).live_expanded =~= p.live_expanded);
    }
    assert(q.toggled(id) =~= p);
}

// ── Sessions and backends ───────────────────────────────────────────────────

/// A refreshed session list never takes away the session that is followed.
pub proof fn law_refresh_keeps_followed_session(p: PanelV, list: Seq<SessionInfoV>)
    requires
        p.active is Some,
    ensures
        p.applied(EventV::Sessions(list)).0.active == p.active,
{
}

/// Until a session is followed, the newest one is.
pub proof fn law_newest_session_is_followed(p: PanelV, list: Seq<SessionInfoV>)
    requires
        p.active is None,
        list.len() > 0,
    ensures
        p.applied(EventV::Sessions(list)).0.active == Some(list[0].id),
{
}

/// A session the user picks is followed and asked for, and the view is cleared.
pub proof fn law_pick_clears_view(p: PanelV, id: Seq<char>)
    ensures
        ({
            let (q, effect) = p.handled(PiMsgV::SessionPick(id));
            &&& q.active == Some(id)
            &&& q.entries.len() == 0
            &&& q.outbox == p.outbox.push(CommandV::Watch(id))
            &&& effect is StartWorker <==> !p.worker
        }),
{
}

/// A ready session is followed, and its accounting is asked for.
pub proof fn law_ready_session_is_followed(p: PanelV, session: Seq<char>, streaming: bool)
    ensures
        ({
            let q = p.applied(EventV::Status(StatusV::Ready { session, streaming })).0;
            &&& q.active == Some(session)
            &&& q.is_streaming() == streaming
            &&& p.worker ==> q.outbox == p.outbox.push(CommandV::FetchStats)
        }),
{
}

/// Switching the backend forgets everything that came from the other one and
/// starts the worker that the mode asks for.
pub proof fn law_backend_switch_starts_over(p: PanelV, mode: Seq<char>)
    requires
        p.mode != mode,
    ensures
        ({
            let (q, effect) = p.handled(PiMsgV::BackendPick(mode));
            &&& q.mode == mode
            &&& q.status is Connecting
            &&& q.sessions.len() == 0
            &&& q.active is None
            &&& q.entries.len() == 0
            &&& q.streaming.len() == 0
            &&& q.pending_echoes.len() == 0
            &&& q.queued_followups is None
            &&& q.models.len() == 0
            &&& q.current_model is None
            &&& q.thinking_levels.len() == 0
            &&& q.current_thinking is None
            &&& q.commands.len() == 0
            &&& q.files is None
            &&& q.files_requested is None
            &&& q.popup is None
            &&& q.browse is None
            &&& q.backend.len() == 0
            &&& q.stats is None
            &&& q.pending_ui is None
            &&& q.outbox.len() == 0
            &&& effect == EffectV::SwitchWorker { mode, start: q.start() }
        }),
{
}

/// Picking the mode that is set already changes nothing.
pub proof fn law_same_backend_changes_nothing(p: PanelV)
    ensures
        p.handled(PiMsgV::BackendPick(p.mode)) == (p, EffectV::Nothing),
{
}

/// Without a worker no command is handed out.
pub proof fn law_no_worker_no_command(p: PanelV, command: CommandV)
    requires
        !p.worker,
    ensures
        p.sent(command) == p,
{
}

/// An answered question is gone, and its answer carries its id.
pub proof fn law_answer_goes_to_its_question(
    p: PanelV,
    value: Option<Seq<char>>,
    confirmed: Option<bool>,
)
    requires
        p.pending_ui is Some,
        p.worker,
    ensures
        ({
            let q = p.handled(PiMsgV::UiAnswer { value, confirmed }).0;
            &&& q.pending_ui is None
            &&& q.outbox == p.outbox.push(
                CommandV::UiRespond {
                    id: (p.pending_ui->0).id,
                    value,
                    confirmed,
                    cancelled: false,
                },
            )
        }),
{
}

// ── Completion ──────────────────────────────────────────────────────────────

/// A path that can be written as `@path`: nothing in it ends the word or looks
/// like a quote.
pub open spec fn is_plain_path(path: Seq<char>) -> bool {
    &&& path.len() > 0
    &&& !path.contains('"')
    &&& forall|k: int| 0 <= k < path.len() ==> !is_white(#[trigger] path[k])
}

/// An accepted file stands in the composer as `@path `, in place of the word that
/// asked for it. It is the last word and the last reference, also of the message
/// that is sent; the references before it stay.
pub proof fn law_accepted_file_is_referenced(
    p: PanelV,
    query: Seq<char>,
    matches: Seq<Seq<char>>,
    active: usize,
)
    requires
        p.popup == Some(PopupV::At { query, matches, active }),
        active < matches.len(),
        is_plain_path(matches[active as int]),
        completion_of(p.input) == CompletionV::At(query),
        selected(p.caret, p.input.len()).0 > before_last_word(p.input).len(),
        before_last_word(p.input).len() > 0 ==> is_ascii_white(before_last_word(p.input).last()),
    ensures
        ({
            let path = matches[active as int];
            let front = before_last_word(p.input);
            let text = p.accepted().input;
            &&& trim_end(p.input) == front + "@"@ + query
            &&& begins(text, front + "@"@ + path + " "@)
            &&& p.accepted().caret == with_file(p.input, p.caret, path).1
            &&& words_of(after_last(text, '\n')).last() == "@"@ + path
            &&& refs_from(text, true) == refs_from(front, true).push(path)
            &&& refs_from(trimmed(text), true).last() == path
        }),
{
    reveal_strlit("@");
    reveal_strlit(" ");
    let path = matches[active as int];
    let front = before_last_word(p.input);
    law_chosen_file_replaces_query(p.input, p.caret, path);
    let (i, j) = lemma_asking_word(p.input);
    let end = file_span(p.input, p.caret).1;
    let rest = p.input.skip(end);
    assert forall|k: int| 0 <= k < rest.len() implies is_white(#[trigger] rest[k]) && rest[k]
        != '\n' by {
        assert(rest[k] == p.input[k + end]);
    }
    let text = p.accepted().input;
    let word = seq!['@'] + path;
    let behind = seq![' '] + rest;
    let tail = word + behind;
    assert(text =~= front + tail);
    assert(text.take((front + "@"@ + path + " "@).len() as int) =~= front + "@"@ + path + " "@);
    assert forall|k: int| 0 <= k < path.len() implies !is_ascii_white(#[trigger] path[k]) by {
        assert(!is_white(path[k]));
    }
    assert forall|k: int| 0 <= k < word.len() implies !is_white(#[trigger] word[k]) && word[k]
        != '"' by {
        if k > 0 {
            assert(word[k] == path[k - 1]);
            assert(path.contains(path[k - 1]));
        }
    }
    assert forall|k: int| 0 <= k < behind.len() implies is_white(#[trigger] behind[k]) && behind[k]
        != '\n' by {
        if k > 0 {
            assert(behind[k] == rest[k - 1]);
        }
    }
    assert(!tail.contains('"')) by {
        assert forall|k: int| 0 <= k < tail.len() implies tail[k] != '"' by {
            if k < word.len() {
                assert(tail[k] == word[k]);
            } else {
                assert(tail[k] == behind[k - word.len()]);
            }
        }
    }
    // As it stands in the composer.
    assert(tail =~= seq!['@'] + path + behind);
    lemma_single_ref(path, behind);
    lemma_refs_behind(front, tail, true);
    assert(refs_from(text, true) =~= refs_from(front, true).push(path));
    assert(text =~= front + word + behind);
    lemma_last_word_of(text, front, word, behind);
    // As it is sent.
    lemma_trim_start_front(front, tail);
    let start = trim_start(front);
    let sent = start + word;
    assert(start + tail =~= sent + behind);
    assert(sent.last() == word.last());
    lemma_trim_end_back(sent, behind);
    assert(trimmed(text) == sent);
    assert(word =~= seq!['@'] + path + Seq::<char>::empty());
    lemma_single_ref(path, Seq::empty());
    lemma_refs_behind(start, word, true);
    assert(refs_from(sent, true) =~= refs_from(start, true).push(path));
}

/// A file accepted while the caret is elsewhere, at the start of a word, becomes a
/// reference there; the references around it stay.
pub proof fn law_file_accepted_elsewhere_is_referenced(
    p: PanelV,
    query: Seq<char>,
    matches: Seq<Seq<char>>,
    active: usize,
)
    requires
        p.popup == Some(PopupV::At { query, matches, active }),
        active < matches.len(),
        is_plain_path(matches[active as int]),
        selected(p.caret, p.input.len()).0 <= before_last_word(p.input).len(),
        selected(p.caret, p.input.len()).0 > 0 ==> is_ascii_white(
            p.input[selected(p.caret, p.input.len()).0 - 1],
        ),
        !p.input.contains('"'),
    ensures
        ({
            let path = matches[active as int];
            let (from, to) = selected(p.caret, p.input.len());
            let text = p.accepted().input;
            &&& text == p.input.take(from) + "@"@ + path + " "@ + p.input.skip(to)
            &&& refs_from(text, true) == refs_from(p.input.take(from), true) + seq![path]
                + refs_from(p.input.skip(to), true)
        }),
{
    reveal_strlit("@");
    reveal_strlit(" ");
    let path = matches[active as int];
    let (from, to) = selected(p.caret, p.input.len());
    law_chosen_file_is_inserted_at_caret(p.input, p.caret, path);
    let front = p.input.take(from);
    let rest = p.input.skip(to);
    let word = seq!['@'] + path + seq![' '];
    let tail = word + rest;
    assert(p.accepted().input =~= front + tail);
    assert forall|k: int| 0 <= k < path.len() implies !is_ascii_white(#[trigger] path[k]) by {
        assert(!is_white(path[k]));
    }
    assert(!rest.contains('"')) by {
        assert forall|k: int| 0 <= k < rest.len() implies rest[k] != '"' by {
            assert(p.input.contains(p.input[k + to]));
        }
    }
    assert(!tail.contains('"')) by {
        assert forall|k: int| 0 <= k < tail.len() implies tail[k] != '"' by {
            if 0 < k <= path.len() {
                assert(tail[k] == path[k - 1]);
                assert(path.contains(path[k - 1]));
            } else if k >= word.len() {
                assert(tail[k] == rest[k - word.len()]);
                assert(rest.contains(rest[k - word.len()]));
            }
        }
    }
    lemma_refs_behind(front, tail, true);
    lemma_single_ref(path, seq![' ']);
    lemma_refs_behind(word, rest, true);
    assert(refs_from(p.accepted().input, true) =~= refs_from(front, true) + seq![path] + refs_from(
        rest,
        true,
    ));
}

proof fn lemma_trim_end_back(front: Seq<char>, back: Seq<char>)
    requires
        front.len() > 0,
        !is_white(front.last()),
        forall|k: int| 0 <= k < back.len() ==> is_white(#[trigger] back[k]),
    ensures
        trim_end(front + back) == front,
    decreases back.len(),
{
    if back.len() == 0 {
        assert(front + back =~= front);
    } else {
        assert((front + back).last() == back.last());
        assert((front + back).drop_last() =~= front + back.drop_last());
        lemma_trim_end_back(front, back.drop_last());
    }
}

proof fn lemma_trim_start_front(front: Seq<char>, rest: Seq<char>)
    requires
        rest.len() > 0,
        !is_white(rest[0]),
    ensures
        trim_start(front + rest) == trim_start(front) + rest,
        trim_start(front).len() > 0 ==> trim_start(front).last() == front.last(),
    decreases front.len(),
{
    if front.len() == 0 {
        assert(front + rest =~= rest);
    } else {
        assert((front + rest)[0] == front[0]);
        assert((front + rest).drop_first() =~= front.drop_first() + rest);
        if is_white(front[0]) {
            lemma_trim_start_front(front.drop_first(), rest);
        }
    }
}

proof fn lemma_last_word_of(
    text: Seq<char>,
    front: Seq<char>,
    word: Seq<char>,
    behind: Seq<char>,
)
    requires
        text == front + word + behind,
        word.len() > 0,
        front.len() > 0 ==> is_white(front.last()),
        forall|k: int| 0 <= k < word.len() ==> !is_white(#[trigger] word[k]),
        forall|k: int|
            0 <= k < behind.len() ==> is_white(#[trigger] behind[k]) && behind[k] != '\n',
    ensures
        words_of(after_last(text, '\n')).last() == word,
{
    let line = after_last(text, '\n');
    let at = lemma_after_last(text, '\n');
    // The word is on the last line: no line feed stands in it or behind it.
    assert(at <= front.len()) by {
        if at > front.len() {
            assert(text[at - 1] == '\n');
            if at - 1 < front.len() + word.len() {
                assert(text[at - 1] == word[at - 1 - front.len()]);
            } else {
                assert(text[at - 1] == behind[at - 1 - front.len() - word.len()]);
            }
        }
    }
    let i = front.len() - at;
    let j = i + word.len();
    assert forall|k: int| i <= k < j implies !is_white(#[trigger] line[k]) by {
        assert(line[k] == word[k - i]);
    }
    assert forall|k: int| j <= k < line.len() implies is_white(#[trigger] line[k]) by {
        assert(line[k] == behind[k - j]);
    }
    if i > 0 {
        assert(line[i - 1] == front.last());
    }
    assert(last_word_at(line, i, j));
    lemma_has_words(line, i);
    let (a, b) = lemma_words_last(line);
    lemma_before_last_word(line, a, b);
    lemma_before_last_word(line, i, j);
    assert(line.take(a).len() == line.take(i).len());
    assert(line.take(b).len() == line.take(j).len());
    assert(line.subrange(i, j) =~= word);
}

proof fn lemma_has_words(s: Seq<char>, k: int)
    requires
        0 <= k < s.len(),
        !is_white(s[k]),
    ensures
        words_of(s).len() > 0,
    decreases s.len(),
{
    if is_white(s[0]) {
        assert(s.drop_first()[k - 1] == s[k]);
        lemma_has_words(s.drop_first(), k - 1);
    } else {
        lemma_word_len_bounds(s);
    }
}

// ── The live message, block by block ────────────────────────────────────────

/// Kind, content index and text of a live block.
pub open spec fn block_parts(b: StreamBlockV) -> (DeltaKind, usize, Seq<char>) {
    match b {
        StreamBlockV::Text { idx, text } => (DeltaKind::Text, idx, text),
        StreamBlockV::Thinking { idx, text } => (DeltaKind::Thinking, idx, text),
    }
}

/// More text goes to the live block of its kind and index, behind what is there, and to
/// no other; without such a block it begins one behind all others. Nothing else changes.
pub proof fn law_delta_goes_to_its_block(p: PanelV, kind: DeltaKind, idx: usize, chunk: Seq<char>)
    ensures
        ({
            let (q, changed) = p.applied(EventV::Delta { kind, idx, chunk });
            let mine = |b: StreamBlockV| block_parts(b).0 == kind && block_parts(b).1 == idx;
            &&& changed
            &&& q == (PanelV { streaming: q.streaming, ..p })
            &&& forall|i: int|
                #![trigger p.streaming[i]]
                0 <= i < p.streaming.len() && !mine(p.streaming[i]) ==> i < q.streaming.len()
                    && q.streaming[i] == p.streaming[i]
            &&& if exists|i: int| 0 <= i < p.streaming.len() && mine(#[trigger] p.streaming[i]) {
                &&& q.streaming.len() == p.streaming.len()
                &&& exists|at: int|
                    #![trigger p.streaming[at]]
                    {
                        &&& 0 <= at < p.streaming.len()
                        &&& mine(p.streaming[at])
                        &&& block_parts(q.streaming[at]) == (
                            kind,
                            idx,
                            block_parts(p.streaming[at]).2 + chunk,
                        )
                        &&& forall|j: int|
                            0 <= j < p.streaming.len() && j != at ==> #[trigger] q.streaming[j]
                                == p.streaming[j]
                    }
            } else {
                &&& q.streaming.len() == p.streaming.len() + 1
                &&& q.streaming.drop_last() == p.streaming
                &&& block_parts(q.streaming.last()) == (kind, idx, chunk)
            }
        }),
{
    let q = p.applied(EventV::Delta { kind, idx, chunk }).0;
    let mine = |b: StreamBlockV| block_parts(b).0 == kind && block_parts(b).1 == idx;
    lemma_block_at(p.streaming, kind, idx);
    let at = block_at(p.streaming, kind, idx);
    assert forall|b: StreamBlockV| takes_delta(b, kind, idx) == #[trigger] mine(b) by {}
    if at < p.streaming.len() {
        assert(mine(p.streaming[at]));
        assert(block_parts(q.streaming[at]) == (kind, idx, block_parts(p.streaming[at]).2 + chunk));
    } else {
        assert forall|i: int| 0 <= i < p.streaming.len() implies !mine(
            #[trigger] p.streaming[i],
        ) by {}
        assert(q.streaming.drop_last() =~= p.streaming);
    }
}

/// A message that starts shows the blocks of its parts, each text and thought with its
/// content index, in order and with nothing left of the message before; a tool call is no
/// block.
pub proof fn law_started_message_shows_its_parts(
    p: PanelV,
    a: Seq<(usize, PartV)>,
    b: Seq<(usize, PartV)>,
    part: (usize, PartV),
)
    ensures
        p.applied(EventV::MsgStart { parts: a + b }).0.streaming == p.applied(
            EventV::MsgStart { parts: a },
        ).0.streaming + p.applied(EventV::MsgStart { parts: b }).0.streaming,
        ({
            let blocks = p.applied(EventV::MsgStart { parts: seq![part] }).0.streaming;
            match part.1 {
                PartV::Text(t) => blocks.len() == 1 && block_parts(blocks[0]) == (
                    DeltaKind::Text,
                    part.0,
                    t,
                ),
                PartV::Thinking(t) => blocks.len() == 1 && block_parts(blocks[0]) == (
                    DeltaKind::Thinking,
                    part.0,
                    t,
                ),
                PartV::ToolCall { .. } => blocks.len() == 0,
            }
        }),
{
    lemma_start_blocks(p, a);
    lemma_start_blocks(p, b);
    lemma_start_blocks(p, a + b);
    lemma_start_blocks(p, seq![part]);
    lemma_live_blocks_join(a, b);
    let one = seq![part];
    assert(one.drop_last() =~= Seq::empty());
    assert(live_blocks(one.drop_last()) =~= Seq::empty());
}

proof fn lemma_start_blocks(p: PanelV, parts: Seq<(usize, PartV)>)
    ensures
        p.applied(EventV::MsgStart { parts }).0.streaming == live_blocks(parts),
{
    lemma_with_tools_frame(PanelV { streaming: live_blocks(parts), ..p }, parts);
}

proof fn lemma_with_tools_frame(p: PanelV, parts: Seq<(usize, PartV)>)
    ensures
        p.with_tools(parts) == (PanelV { entries: p.with_tools(parts).entries, ..p }),
    decreases parts.len(),
{
    if parts.len() > 0 {
        lemma_with_tools_frame(p, parts.drop_last());
    }
}

proof fn lemma_live_blocks_join(a: Seq<(usize, PartV)>, b: Seq<(usize, PartV)>)
    ensures
        live_blocks(a + b) == live_blocks(a) + live_blocks(b),
    decreases b.len(),
{
    if b.len() == 0 {
        assert(a + b =~= a);
        assert(live_blocks(a) + live_blocks(b) =~= live_blocks(a));
    } else {
        assert((a + b).drop_last() =~= a + b.drop_last());
        lemma_live_blocks_join(a, b.drop_last());
        assert(live_blocks(a + b) =~= live_blocks(a) + live_blocks(b));
    }
}

/// A message that starts announces its tool calls, as if each were announced by itself;
/// its texts and thoughts are no entries yet. Nothing but the live message and the
/// transcript changes.
pub proof fn law_started_message_announces_calls(
    p: PanelV,
    parts: Seq<(usize, PartV)>,
    part: (usize, PartV),
)
    ensures
        ({
            let before = p.applied(EventV::MsgStart { parts }).0;
            let after = p.applied(EventV::MsgStart { parts: parts.push(part) }).0;
            &&& after.entries == (match part.1 {
                PartV::ToolCall { id, name } => before.applied(
                    EventV::ToolCallStart { id, name },
                ).0.entries,
                _ => before.entries,
            })
            &&& before == (PanelV { streaming: before.streaming, entries: before.entries, ..p })
        }),
        p.applied(EventV::MsgStart { parts: Seq::empty() }).0.entries == p.entries,
{
    let all = parts.push(part);
    assert(all.drop_last() =~= parts);
    let a = PanelV { streaming: live_blocks(parts), ..p };
    let b = PanelV { streaming: live_blocks(all), ..p };
    lemma_with_tools_frame(a, parts);
    lemma_with_tools_frame(b, parts);
    lemma_with_tools_entries(a, b, parts);
}

proof fn lemma_with_tools_entries(a: PanelV, b: PanelV, parts: Seq<(usize, PartV)>)
    requires
        a.entries == b.entries,
    ensures
        a.with_tools(parts).entries == b.with_tools(parts).entries,
    decreases parts.len(),
{
    if parts.len() > 0 {
        lemma_with_tools_entries(a, b, parts.drop_last());
    }
}

/// A message that ends with two runs of parts leaves what two messages with one run each
/// leave: its parts become entries one by one, in order.
pub proof fn law_ended_message_shows_parts_in_order(
    p: PanelV,
    a: Seq<(usize, PartV)>,
    b: Seq<(usize, PartV)>,
)
    ensures
        p.applied(EventV::AssistantEnd { parts: a + b }).0 == p.applied(
            EventV::AssistantEnd { parts: a },
        ).0.applied(EventV::AssistantEnd { parts: b }).0,
{
    lemma_with_final_split(p, a, b);
    lemma_with_final_cleared(p.with_final(a), b);
}

proof fn lemma_with_final_split(p: PanelV, a: Seq<(usize, PartV)>, b: Seq<(usize, PartV)>)
    ensures
        p.with_final(a + b) == p.with_final(a).with_final(b),
    decreases b.len(),
{
    if b.len() == 0 {
        assert(a + b =~= a);
    } else {
        lemma_with_final_split(p, a, b.drop_last());
        assert((a + b).drop_last() =~= a + b.drop_last());
        assert((a + b).last() == b.last());
    }
}

proof fn lemma_with_final_cleared(p: PanelV, parts: Seq<(usize, PartV)>)
    ensures
        (PanelV { streaming: Seq::empty(), ..p }).with_final(parts) == (PanelV {
            streaming: Seq::empty(),
            ..p.with_final(parts)
        }),
    decreases parts.len(),
{
    if parts.len() > 0 {
        lemma_with_final_cleared(p, parts.drop_last());
        let u = p.with_final(parts.drop_last());
        let v = PanelV { streaming: Seq::empty(), ..u };
        match parts.last().1 {
            PartV::Thinking(t) => {
                lemma_pushed_cleared(u, PiEntryKindV::Thinking(t));
            },
            PartV::Text(t) => {
                lemma_pushed_cleared(u, PiEntryKindV::Assistant(crate::tables::body_of(t)));
            },
            PartV::ToolCall { id, name } => {
                assert(v.with_tool(id, name) == (PanelV {
                    streaming: Seq::empty(),
                    ..u.with_tool(id, name)
                }));
            },
        }
    }
}

proof fn lemma_pushed_cleared(p: PanelV, kind: PiEntryKindV)
    ensures
        (PanelV { streaming: Seq::empty(), ..p }).pushed(kind) == (PanelV {
            streaming: Seq::empty(),
            ..p.pushed(kind)
        }),
{
}

/// A part of an ended message becomes an entry behind all others, collapsed: a text and a
/// thought that are not empty, with their text, and a tool call that has no entry yet.
pub proof fn law_final_part_becomes_an_entry(p: PanelV, idx: usize, part: PartV)
    requires
        p.has_ids(1),
    ensures
        ({
            let q = p.applied(EventV::AssistantEnd { parts: seq![(idx, part)] }).0;
            let empty = match part {
                PartV::Text(t) => t.len() == 0,
                PartV::Thinking(t) => t.len() == 0,
                PartV::ToolCall { id, .. } => exists|i: int|
                    0 <= i < p.entries.len() && #[trigger] calls(p.entries[i], id),
            };
            if empty {
                q == (PanelV { streaming: Seq::empty(), ..p })
            } else {
                &&& q == (PanelV {
                    streaming: Seq::empty(),
                    entries: q.entries,
                    next_id: q.next_id,
                    ..p
                })
                &&& q.entries.len() == p.entries.len() + 1
                &&& q.entries.drop_last() == p.entries
                &&& !q.entries.last().expanded
                &&& match part {
                    PartV::Text(t) => q.entries.last().kind matches PiEntryKindV::Assistant(body)
                        && body.text == t,
                    PartV::Thinking(t) => q.entries.last().kind == PiEntryKindV::Thinking(t),
                    PartV::ToolCall { id, name } => q.entries.last().kind == (PiEntryKindV::Tool {
                        id,
                        name,
                        output: Seq::empty(),
                        done: false,
                        is_error: false,
                    }),
                }
            }
        }),
{
    let parts = seq![(idx, part)];
    let q = p.applied(EventV::AssistantEnd { parts }).0;
    assert(parts.drop_last() =~= Seq::empty());
    reveal_with_fuel(PanelV::with_final, 2);
    assert(p.with_final(parts.drop_last()) == p);
    if let PartV::ToolCall { id, name } = part {
        lemma_calls(p.entries, id);
    }
    if q.entries.len() > p.entries.len() {
        assert(q.entries.drop_last() =~= p.entries);
    }
}

/// The entry of the tool call `id`.
pub open spec fn calls(e: PiEntryV, id: Seq<char>) -> bool {
    e.kind matches PiEntryKindV::Tool { id: x, .. } && x == id
}

proof fn lemma_calls(entries: Seq<PiEntryV>, id: Seq<char>)
    ensures
        last_tool(entries, id) >= 0 <==> exists|i: int|
            0 <= i < entries.len() && #[trigger] calls(entries[i], id),
        last_tool(entries, id) >= 0 ==> last_tool(entries, id) < entries.len() && calls(
            entries[last_tool(entries, id)],
            id,
        ),
        forall|i: int| last_tool(entries, id) < i < entries.len() ==> !calls(#[trigger] entries[i], id),
{
    lemma_last_tool(entries, id);
    let at = last_tool(entries, id);
    if at >= 0 {
        assert(is_tool(entries[at], id));
        assert(calls(entries[at], id));
    }
    assert forall|i: int| last_tool(entries, id) < i < entries.len() implies !calls(
        #[trigger] entries[i],
        id,
    ) by {
        assert(!is_tool(entries[i], id));
    }
}

// ── The transcript, event by event ──────────────────────────────────────────

/// A tool call that becomes known gets an entry behind all others, unfinished and
/// collapsed, unless it has one. Nothing else changes.
pub proof fn law_new_call_gets_an_entry(p: PanelV, id: Seq<char>, name: Seq<char>)
    ensures
        ({
            let (q, changed) = p.applied(EventV::ToolCallStart { id, name });
            &&& changed
            &&& if exists|i: int| 0 <= i < p.entries.len() && #[trigger] calls(p.entries[i], id) {
                q == p
            } else {
                &&& q == (PanelV { entries: q.entries, ..p })
                &&& q.entries.len() == p.entries.len() + 1
                &&& q.entries.drop_last() == p.entries
                &&& q.entries.last().kind == (PiEntryKindV::Tool {
                    id,
                    name,
                    output: Seq::empty(),
                    done: false,
                    is_error: false,
                })
                &&& q.entries.last().id == content_id("tool"@, id, 0)
                &&& !q.entries.last().expanded
            }
        }),
{
    lemma_calls(p.entries, id);
    let q = p.applied(EventV::ToolCallStart { id, name }).0;
    if last_tool(p.entries, id) < 0 {
        assert(q.entries.drop_last() =~= p.entries);
    }
}

/// Output of a tool call replaces what its last entry shows, with its state, and touches
/// no other entry; a call without an entry gets one behind all others. Nothing else
/// changes.
pub proof fn law_tool_output_changes_one_entry(
    p: PanelV,
    id: Seq<char>,
    name: Seq<char>,
    output: Seq<char>,
    finished: bool,
    failed: bool,
)
    requires
        !finished ==> !failed,
    ensures
        ({
            let (q, changed) = p.applied(
                if finished {
                    EventV::ToolResult { id, name, output, is_error: failed }
                } else {
                    EventV::ToolPartial { id, name, output }
                },
            );
            let kind = PiEntryKindV::Tool { id, name, output, done: finished, is_error: failed };
            &&& changed
            &&& q == (PanelV { entries: q.entries, ..p })
            &&& if exists|i: int| 0 <= i < p.entries.len() && #[trigger] calls(p.entries[i], id) {
                &&& q.entries.len() == p.entries.len()
                &&& exists|at: int|
                    #![trigger p.entries[at]]
                    {
                        &&& 0 <= at < p.entries.len()
                        &&& calls(p.entries[at], id)
                        &&& forall|j: int|
                            at < j < p.entries.len() ==> !calls(#[trigger] p.entries[j], id)
                        &&& q.entries == p.entries.update(at, PiEntryV { kind, ..p.entries[at] })
                    }
            } else {
                &&& q.entries.len() == p.entries.len() + 1
                &&& q.entries.drop_last() == p.entries
                &&& q.entries.last().kind == kind
                &&& q.entries.last().id == content_id("tool"@, id, 0)
                &&& !q.entries.last().expanded
            }
        }),
{
    lemma_calls(p.entries, id);
    let q = p.applied(
        if finished {
            EventV::ToolResult { id, name, output, is_error: failed }
        } else {
            EventV::ToolPartial { id, name, output }
        },
    ).0;
    if last_tool(p.entries, id) < 0 {
        assert(q.entries.drop_last() =~= p.entries);
    }
}

/// `after` is what became of the entry `before`: nothing, but that a tool call may show
/// other output.
pub open spec fn same_entry(before: PiEntryV, after: PiEntryV) -> bool {
    match before.kind {
        PiEntryKindV::Tool { id, .. } => after.id == before.id && after.expanded == before.expanded
            && calls(after, id),
        _ => after == before,
    }
}

/// Every entry stands where it stood.
pub open spec fn keeps_entries(before: Seq<PiEntryV>, after: Seq<PiEntryV>) -> bool {
    &&& before.len() <= after.len()
    &&& forall|i: int| 0 <= i < before.len() ==> same_entry(#[trigger] before[i], after[i])
}

proof fn lemma_with_tools_keeps(p: PanelV, parts: Seq<(usize, PartV)>)
    ensures
        keeps_entries(p.entries, p.with_tools(parts).entries),
    decreases parts.len(),
{
    if parts.len() > 0 {
        lemma_with_tools_keeps(p, parts.drop_last());
        let mid = p.with_tools(parts.drop_last()).entries;
        let after = p.with_tools(parts).entries;
        assert(keeps_entries(p.entries, mid));
        assert forall|i: int| 0 <= i < p.entries.len() implies same_entry(
            #[trigger] p.entries[i],
            after[i],
        ) by {
            assert(same_entry(p.entries[i], mid[i]));
            assert(after[i] == mid[i]);
        }
    }
}

proof fn lemma_with_final_keeps(p: PanelV, parts: Seq<(usize, PartV)>)
    ensures
        keeps_entries(p.entries, p.with_final(parts).entries),
    decreases parts.len(),
{
    if parts.len() > 0 {
        lemma_with_final_keeps(p, parts.drop_last());
        let mid = p.with_final(parts.drop_last()).entries;
        let after = p.with_final(parts).entries;
        assert forall|i: int| 0 <= i < p.entries.len() implies same_entry(
            #[trigger] p.entries[i],
            after[i],
        ) by {
            assert(same_entry(p.entries[i], mid[i]));
            assert(after[i] == mid[i]);
        }
    }
}

/// Whatever the backend reports, the transcript only grows, but for a history that
/// replaces it and a rejected message that is taken back.
pub proof fn law_transcript_only_grows(p: PanelV, ev: EventV)
    requires
        !(ev is Replace),
        !(ev is SendFailed),
    ensures
        keeps_entries(p.entries, p.applied(ev).0.entries),
{
    match ev {
        EventV::MsgStart { parts } => {
            lemma_with_tools_keeps(PanelV { streaming: live_blocks(parts), ..p }, parts);
        },
        EventV::AssistantEnd { parts } => {
            lemma_with_final_keeps(p, parts);
        },
        EventV::ToolPartial { id, .. } => {
            lemma_calls(p.entries, id);
        },
        EventV::ToolResult { id, .. } => {
            lemma_calls(p.entries, id);
        },
        EventV::Commands(list) => {
            lemma_refresh_frame(PanelV { commands: list, ..p });
        },
        EventV::Files { cwd, files } => {
            lemma_refresh_frame(PanelV { files: Some((cwd, files)), files_requested: None, ..p });
        },
        _ => {},
    }
}

/// A rejected message is taken back by its text and nothing else is: the others keep
/// their order, and the reason stands behind them all.
pub proof fn law_rejection_takes_back_one_message(p: PanelV, message: Seq<char>)
    requires
        p.has_ids(1),
    ensures
        ({
            let (q, changed) = p.applied(EventV::SendFailed { message });
            let rest = q.entries.drop_last();
            &&& changed
            &&& q.entries.len() > 0
            &&& q.entries.last().kind == PiEntryKindV::Notice("发送失败："@ + message)
            &&& p.pending_echoes.len() == 0 ==> rest == p.entries && q.pending_echoes.len() == 0
            &&& p.pending_echoes.len() > 0 ==> q.pending_echoes == p.pending_echoes.drop_last()
            &&& rest == p.entries || (p.pending_echoes.len() > 0 && exists|at: int|
                #![trigger p.entries[at]]
                0 <= at < p.entries.len() && p.entries[at].kind == PiEntryKindV::User(
                    p.pending_echoes.last(),
                ) && rest == p.entries.remove(at))
        }),
{
    let q = p.applied(EventV::SendFailed { message }).0;
    if p.pending_echoes.len() > 0 {
        let echo = p.pending_echoes.last();
        lemma_last_user(p.entries, echo);
        let at = last_user(p.entries, echo);
        if at >= 0 {
            assert(is_user(p.entries[at], echo));
            assert(p.entries[at].kind == PiEntryKindV::User(echo));
            assert(q.entries.drop_last() =~= p.entries.remove(at));
        } else {
            assert(q.entries.drop_last() =~= p.entries);
        }
    } else {
        assert(q.entries.drop_last() =~= p.entries);
    }
}

/// A message of the user that was not shown in advance is shown behind all others, once:
/// not if it is empty, nor if it stands there already.
pub proof fn law_users_message_is_shown(p: PanelV, text: Seq<char>)
    requires
        p.has_ids(1),
        p.pending_echoes.len() > 0 ==> p.pending_echoes[0] != text,
    ensures
        ({
            let (q, changed) = p.applied(EventV::User(text));
            let shown_already = p.entries.len() > 0 && p.entries.last().kind == PiEntryKindV::User(
                text,
            );
            if text.len() == 0 || shown_already {
                q == p && !changed
            } else {
                &&& changed
                &&& q.entries.drop_last() == p.entries
                &&& q.entries.last().kind == PiEntryKindV::User(text)
                &&& q == (PanelV { entries: q.entries, next_id: q.next_id, ..p })
            }
        }),
{
    let q = p.applied(EventV::User(text)).0;
    assert(p.entries.len() > 0 ==> (is_user(p.entries.last(), text) <==> p.entries.last().kind
        == PiEntryKindV::User(text)));
    if q.entries.len() > p.entries.len() {
        assert(q.entries.drop_last() =~= p.entries);
    }
}

/// A notice, and an error of the stream that is not shown already, stands behind all
/// other entries with its text. Nothing else changes.
pub proof fn law_notices_are_shown(p: PanelV, text: Seq<char>)
    requires
        p.has_ids(1),
    ensures
        ({
            let (q, changed) = p.applied(EventV::Notice(text));
            &&& changed
            &&& q.entries.drop_last() == p.entries
            &&& q.entries.last().kind == PiEntryKindV::Notice(text)
            &&& q == (PanelV { entries: q.entries, next_id: q.next_id, ..p })
            &&& !(p.entries.len() > 0 && p.entries.last().kind == PiEntryKindV::Notice(text))
                ==> p.applied(EventV::StreamError(text)) == (q, true)
        }),
{
    let q = p.applied(EventV::Notice(text)).0;
    assert(q.entries.drop_last() =~= p.entries);
}

/// A history replaces the transcript entry by entry, each with its own content, and ends
/// the live message. Nothing else changes.
pub proof fn law_history_replaces_transcript(p: PanelV, history: Seq<EntryV>)
    ensures
        ({
            let (q, changed) = p.applied(EventV::Replace(history));
            &&& changed
            &&& q == (PanelV { entries: q.entries, streaming: Seq::empty(), ..p })
            &&& q.entries.len() == history.len()
            &&& forall|i: int|
                #![trigger history[i]]
                #![trigger q.entries[i]]
                0 <= i < history.len() ==> match history[i] {
                    EntryV::User(t) => q.entries[i].kind == PiEntryKindV::User(t),
                    EntryV::Assistant(t) => q.entries[i].kind matches PiEntryKindV::Assistant(body)
                        && body.text == t,
                    EntryV::Thinking(t) => q.entries[i].kind == PiEntryKindV::Thinking(t),
                    EntryV::Tool { id, name, output, done, is_error } => q.entries[i].kind == (
                    PiEntryKindV::Tool { id, name, output, done, is_error }),
                    EntryV::Notice(t) => q.entries[i].kind == PiEntryKindV::Notice(t),
                }
        }),
{
}

// ── What the backend reports besides ────────────────────────────────────────

/// A question of an extension waits for its answer with all that it says; a text to
/// start from stands in the answer. Nothing else changes.
pub proof fn law_question_waits_for_answer(
    p: PanelV,
    id: Seq<char>,
    method: Seq<char>,
    title: Seq<char>,
    message: Option<Seq<char>>,
    options: Seq<Seq<char>>,
    prefill: Option<Seq<char>>,
)
    ensures
        ({
            let (q, changed) = p.applied(
                EventV::UiRequest { id, method, title, message, options, prefill },
            );
            &&& changed
            &&& q == (PanelV { pending_ui: q.pending_ui, ui_answer: q.ui_answer, ..p })
            &&& q.pending_ui is Some
            &&& (q.pending_ui->0).id == id
            &&& (q.pending_ui->0).method == method
            &&& (q.pending_ui->0).title == title
            &&& (q.pending_ui->0).message == message
            &&& (q.pending_ui->0).options == options
            &&& prefill matches Some(t) ==> q.ui_answer == t
            &&& prefill is None ==> q.ui_answer.len() == 0
        }),
{
}

/// What is reported of the session is kept as it is reported, and changes nothing else.
pub proof fn law_reports_are_kept(
    p: PanelV,
    stats: crate::protocol::SessionStatsV,
    provider: Seq<char>,
    id: Seq<char>,
    level: Seq<char>,
    label: Seq<char>,
    steering: Seq<Seq<char>>,
    follow_up: Seq<Seq<char>>,
)
    ensures
        p.applied(EventV::Stats(stats)) == (PanelV { stats: Some(stats), ..p }, false),
        p.applied(EventV::ModelSet { provider, id }) == (
            PanelV { current_model: Some((provider, id)), ..p },
            false,
        ),
        p.applied(EventV::ThinkingSet { level }) == (
            PanelV { current_thinking: Some(level), ..p },
            false,
        ),
        p.applied(EventV::Backend(label)) == (PanelV { backend: label, ..p }, false),
        follow_up.len() <= usize::MAX ==> {
            let q = p.applied(EventV::Queue { steering, follow_up }).0;
            &&& q == (PanelV { queued_followups: q.queued_followups, ..p })
            &&& q.queued_followups is Some
            &&& q.queued_followups->0 == follow_up.len()
        },
{
}

/// The model catalog is kept as it is reported; the model and the level in use change
/// only if they are reported.
pub proof fn law_catalog_is_kept(
    p: PanelV,
    list: Seq<crate::protocol::ModelInfoV>,
    current: Option<(Seq<char>, Seq<char>)>,
    thinking_levels: Seq<(Seq<char>, Seq<Seq<char>>)>,
    thinking: Option<Seq<char>>,
)
    ensures
        ({
            let q = p.applied(EventV::Models { list, current, thinking_levels, thinking }).0;
            &&& q.models == list
            &&& q.thinking_levels == thinking_levels
            &&& current is Some ==> q.current_model == current
            &&& current is None ==> q.current_model == p.current_model
            &&& thinking is Some ==> q.current_thinking == thinking
            &&& thinking is None ==> q.current_thinking == p.current_thinking
            &&& q == (PanelV {
                models: q.models,
                thinking_levels: q.thinking_levels,
                current_model: q.current_model,
                current_thinking: q.current_thinking,
                ..p
            })
        }),
{
}

/// The session list is kept as it is reported, and the status follows the connection.
pub proof fn law_connection_is_shown(
    p: PanelV,
    list: Seq<SessionInfoV>,
    session: Seq<char>,
    streaming: bool,
    error: Seq<char>,
)
    ensures
        p.applied(EventV::Sessions(list)).0.sessions == list,
        p.applied(EventV::Sessions(list)).0 == (PanelV {
            sessions: list,
            active: p.applied(EventV::Sessions(list)).0.active,
            ..p
        }),
        p.applied(EventV::Status(StatusV::Connecting)) == (
            PanelV { status: PiStatusV::Connecting, ..p },
            false,
        ),
        p.applied(EventV::Status(StatusV::Error(error))) == (
            PanelV { status: PiStatusV::Error(error), ..p },
            false,
        ),
        p.applied(EventV::Status(StatusV::Ready { session, streaming })).0.status == (
        PiStatusV::Ready { session, streaming }),
        p.applied(EventV::Status(StatusV::Ready { session, streaming })).0.entries == p.entries,
{
}

/// A directory listing is shown in the browser, if it is still open.
pub proof fn law_listing_is_shown(
    p: PanelV,
    path: Seq<char>,
    parent: Option<Seq<char>>,
    dirs: Seq<(Seq<char>, Seq<char>)>,
)
    ensures
        ({
            let q = p.applied(EventV::DirListing { path, parent, dirs }).0;
            &&& q == (PanelV { browse: q.browse, ..p })
            &&& p.browse is None ==> q.browse is None
            &&& p.browse is Some ==> q.browse is Some && (q.browse->0).path == path && (
            q.browse->0).parent == parent && (q.browse->0).dirs == dirs && !(q.browse->0).loading
        }),
{
}

proof fn lemma_refresh_frame(p: PanelV)
    ensures
        p.refreshed() == (PanelV {
            popup: p.refreshed().popup,
            files_requested: p.refreshed().files_requested,
            outbox: p.refreshed().outbox,
            ..p
        }),
{
}

/// Commands and the file index are kept as they are reported, and the popup is brought
/// up to date with them.
pub proof fn law_completions_are_kept(
    p: PanelV,
    list: Seq<crate::protocol::CommandInfoV>,
    cwd: Seq<char>,
    files: Seq<Seq<char>>,
)
    ensures
        ({
            let q = p.applied(EventV::Commands(list)).0;
            &&& q.commands == list
            &&& q.entries == p.entries
            &&& q.input == p.input
            &&& q == (PanelV { commands: list, ..p }).refreshed()
        }),
        ({
            let q = p.applied(EventV::Files { cwd, files }).0;
            &&& q.files == Some((cwd, files))
            &&& q.entries == p.entries
            &&& q.input == p.input
            &&& p.active_cwd() == Some(cwd) ==> q.files_requested is None && q.outbox == p.outbox
        }),
{
    lemma_refresh_frame(PanelV { commands: list, ..p });
    lemma_refresh_frame(PanelV { files: Some((cwd, files)), files_requested: None, ..p });
}

/// A list of events is applied one by one, in order.
pub proof fn law_events_are_applied_in_order(p: PanelV, a: Seq<EventV>, b: Seq<EventV>)
    ensures
        applied_all(p, a + b).0 == applied_all(applied_all(p, a).0, b).0,
        applied_all(p, a + b).1 == (applied_all(p, a).1 || applied_all(applied_all(p, a).0, b).1),
    decreases b.len(),
{
    if b.len() == 0 {
        assert(a + b =~= a);
    } else {
        let less = b.drop_last();
        assert((a + b).drop_last() =~= a + less);
        assert((a + b).last() == b.last());
        law_events_are_applied_in_order(p, a, less);
        let q = applied_all(p, a).0;
        let u = applied_all(p, a + less);
        let v = applied_all(q, less);
        lemma_one_more_event(p, a + b);
        lemma_one_more_event(q, b);
        assert(u.0 == v.0);
    }
}

proof fn lemma_one_more_event(p: PanelV, events: Seq<EventV>)
    requires
        events.len() > 0,
    ensures
        ({
            let before = applied_all(p, events.drop_last());
            let step = before.0.applied(events.last());
            &&& applied_all(p, events).0 == step.0
            &&& applied_all(p, events).1 == (before.1 || step.1)
        }),
{
}

/// One event in a list is that event.
pub proof fn law_single_event_is_applied(p: PanelV, e: EventV)
    ensures
        applied_all(p, seq![e]) == p.applied(e),
        applied_all(p, Seq::empty()) == (p, false),
{
    assert(seq![e].drop_last() =~= Seq::empty());
    reveal_with_fuel(applied_all, 2);
}

// ── Directories and ids ─────────────────────────────────────────────────────

/// The directory of the panel is that of the session it follows, and of no other.
pub proof fn law_directory_is_the_followed_sessions(p: PanelV, at: int)
    requires
        0 <= at < p.sessions.len(),
        p.active == Some(p.sessions[at].id),
        forall|i: int| 0 <= i < at ==> (#[trigger] p.sessions[i]).id != p.sessions[at].id,
    ensures
        p.active_cwd() == p.sessions[at].cwd,
{
    let id = p.sessions[at].id;
    crate::web::lemma_session_at(p.sessions, id);
    let found = crate::web::session_at(p.sessions, id);
    if found < at {
        assert(p.sessions[found].id != id);
    } else if found > at {
        assert(p.sessions[at].id != id);
    }
}

/// Without a followed session, and with one that is not listed, there is no directory.
pub proof fn law_unknown_session_has_no_directory(p: PanelV)
    requires
        p.active matches Some(id) ==> forall|i: int|
            0 <= i < p.sessions.len() ==> (#[trigger] p.sessions[i]).id != id,
    ensures
        p.active_cwd() is None,
{
    if let Some(id) = p.active {
        crate::web::lemma_session_at(p.sessions, id);
    }
}

/// A stored entry is known by what it is and what it says, and a tool call by its own id,
/// so that it is the same entry whenever it is read again.
pub proof fn law_stored_entries_are_known_by_content(
    before: Seq<PiEntryV>,
    text: Seq<char>,
    name: Seq<char>,
    output: Seq<char>,
    done: bool,
    is_error: bool,
)
    ensures
        shown(EntryV::User(text), before).id == content_id("u"@, text, 0),
        shown(EntryV::Assistant(text), before).id == content_id("a"@, text, 0),
        shown(EntryV::Thinking(text), before).id == content_id("t"@, text, 0),
        shown(EntryV::Notice(text), before).id == content_id("n"@, text, 0),
        shown(EntryV::Tool { id: text, name, output, done, is_error }, before).id == content_id(
            "tool"@,
            text,
            0,
        ),
{
}

} // verus!
