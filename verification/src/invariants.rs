//! What holds of every turn.
//!
//! The statements here are about [`TurnView::step`], the transition that the
//! controller is proved to take, and so about every run of the controller,
//! whatever happens outside it.

use crate::api::{views, AgentError, BlockView, MessageView, StopReason};
use crate::conversation::{
    gated, is_null_tool_use, lemma_trimmed_keeps_first, placeholder_block, recovered, trimmed,
    without_null_tool_use,
};
use crate::hooks::PreToolResult;
use crate::limits::{backoff, limit_reached, StopTag, MAX_RETRIES};
use crate::turn::{
    all_pure, blocked_result, filled, outcome_result, tool_calls, tool_result, Action, ApiReply,
    Event, JournalView, Phase, ToolCallView, TurnView, WorkerOutcome,
};
use vstd::prelude::*;

verus! {

/// The state reached from `s` by the events, in their order, and the
/// actions that the controller gave on the way.
pub open spec fn run(s: TurnView, events: Seq<Event>) -> (TurnView, Seq<Action>)
    decreases events.len(),
{
    if events.len() == 0 {
        (s, Seq::empty())
    } else {
        let (mid, actions) = run(s, events.drop_last());
        let (next, action) = mid.step(events.last());
        (next, actions.push(action))
    }
}

/// How often the actions run the hooks at the end of a turn.
pub open spec fn stop_runs(actions: Seq<Action>) -> nat
    decreases actions.len(),
{
    if actions.len() == 0 {
        0
    } else {
        stop_runs(actions.drop_last()) + if actions.last() is RunStop {
            1nat
        } else {
            0nat
        }
    }
}

/// The turn has come to its end: its hooks at the end run or have run.
pub open spec fn ended(s: TurnView) -> bool {
    s.phase == Phase::AwaitStop || s.phase == Phase::Idle
}

/// What holds of a result of the controller while a turn is under way: the
/// hooks at the end are run exactly when the turn comes to its end, for
/// the reason that the state records, and the block counters and the
/// batch with its answers are as they were.
pub open spec fn moves_on(s: TurnView, r: (TurnView, Action)) -> bool {
    &&& r.1 is RunStop <==> r.0.phase == Phase::AwaitStop
    &&& r.1 matches Action::RunStop { tag } ==> r.0.stop_tag == tag
        &&& r.0.phase != Phase::Idle
    &&& !(r.1 is Finished)
    &&& r.0.total_blocks == s.total_blocks
    &&& r.0.consecutive_blocks == s.consecutive_blocks
        &&& r.0.tripped == s.tripped
    &&& r.0.batch == s.batch
    &&& r.0.slots == s.slots
}

proof fn lemma_advance_moves_on(s: TurnView, trim: bool)
    ensures
        moves_on(s, s.finish_batch(trim)),
        moves_on(s, s.advance(trim)),
        moves_on(s, s.loop_top(trim)),
{
}

proof fn lemma_post_from_moves_on(s: TurnView, from: int, trim: bool)
    ensures
        moves_on(s, s.post_from(from, trim)),
    decreases s.batch.len() - from,
{
        if from < 0 || from >= s.batch.len() {
        lemma_advance_moves_on(s, trim);
    } else if s.blocked[from] {
        lemma_post_from_moves_on(s, from + 1, trim);
    }
}

/// What one transition does to the end of the turn.
pub open spec fn stops_well(s: TurnView, r: (TurnView, Action)) -> bool {
    let (next, action) = r;
    &&& action is RunStop <==> !ended(s) && next.phase == Phase::AwaitStop
    &&& action matches Action::RunStop { tag } ==> next.stop_tag == tag
    &&& ended(s) ==> ended(next) && next.stop_tag == s.stop_tag
    &&& next.phase == Phase::Idle ==> ended(s)
    &&& action is Finished <==> s.phase == Phase::AwaitStop && next.phase == Phase::Idle
}

/// One transition of a turn that has not ended: the hooks at the end are
/// run exactly when it ends the turn, for the reason that the state then
/// records. A turn that has ended runs them no more.
pub proof fn lemma_step_stops(s: TurnView, event: Event, trim: bool)
    requires
        s.wf(),
        ensures
        stops_well(s, s.step_with(event, trim)),
{
    match (s.phase, event) {
        (Phase::AwaitApi, Event::ApiReplied(reply)) => {
            let content = if reply.stop_reason == StopReason::MaxTokens {
                without_null_tool_use(views(reply.blocks@))
            } else {
                views(reply.blocks@)
            };
            let message = MessageView { role: "assistant"@, content };
            let t = TurnView {
                last_input_tokens: reply.usage.input_tokens,
                total_tokens: crate::turn::capped_sum(
                    s.total_tokens,
                    reply.usage.input_tokens,
                    reply.usage.output_tokens,
                ),
                conversation: s.conversation.push(message),
                journal: s.journal.push(
                    crate::turn::JournalView { message, usage: Some(reply.usage) },
                ),
                ..s
            };
            let again = crate::turn::user_text(crate::turn::continuation_prompt());
            let u = TurnView {
                continuation_count: t.continuation_count + 1,
                conversation: t.conversation.push(again),
                journal: t.journal.push(crate::turn::JournalView { message: again, usage: None }),
                ..t
            };
            lemma_advance_moves_on(u, trim);
            assert(stops_well(s, s.step_with(event, trim)));
        },
        (Phase::AwaitApi, Event::ApiFailed(error)) => {
            assert(stops_well(s, s.step_with(event, trim)));
        },
        (Phase::AwaitPreHook, Event::PreTool(outcome)) => {
            match outcome {
                PreToolResult::Block { reason, .. } => {
                    let consecutive = s.consecutive_blocks + 1;
                    let total = s.total_blocks + 1;
                    let t = TurnView {
                        slots: s.slots.update(
                            s.cursor,
                            Some(crate::turn::blocked_result(s.batch[s.cursor].id, reason@)),
                        ),
                        blocked: s.blocked.update(s.cursor, true),
                        consecutive_blocks: consecutive,
                        total_blocks: total,
                        tripped: limit_reached(consecutive, total),
                        ..s
                    };
                    lemma_advance_moves_on(t, trim);
                },
                PreToolResult::Allow => {},
            }
            assert(stops_well(s, s.step_with(event, trim)));
        },
                (Phase::AwaitSpawn, Event::WorkerSpawned) => {
            lemma_advance_moves_on(s, trim);
            assert(stops_well(s, s.step_with(event, trim)));
        },
        (Phase::AwaitJoin, Event::WorkersJoined(outcomes)) => {
            let t = TurnView { slots: filled(s.slots, s.batch, s.spawned, outcomes@, 0), ..s };
            lemma_post_from_moves_on(t, 0, trim);
            assert(stops_well(s, s.step_with(event, trim)));
        },
        (Phase::AwaitPostHook, Event::PostTool(outcome)) => {
            let t = TurnView { signal: s.signal || outcome is Signal, ..s };
            lemma_post_from_moves_on(t, s.cursor + 1, trim);
            lemma_advance_moves_on(t, trim);
            assert(stops_well(s, s.step_with(event, trim)));
        },
        (Phase::AwaitDelay, Event::DelayElapsed) => {
            assert(stops_well(s, s.step_with(event, trim)));
        },
        (Phase::AwaitTool, Event::ToolFinished { content, is_error }) => {
            assert(stops_well(s, s.step_with(event, trim)));
        },
        (Phase::AwaitStop, Event::StopHookDone) => {
            assert(stops_well(s, s.step_with(event, trim)));
        },
        _ => {
            assert(s.step_with(event, trim) == (s, Action::Rejected));
            assert(stops_well(s, s.step_with(event, trim)));
        },
    }
}

proof fn lemma_stop_runs_counts(actions: Seq<Action>, i: int)
    requires
        0 <= i < actions.len(),
        actions[i] is RunStop,
    ensures
        stop_runs(actions) >= 1,
    decreases actions.len(),
{
    if i < actions.len() - 1 {
        lemma_stop_runs_counts(actions.drop_last(), i);
    }
}

/// Every turn runs the hooks at its end once: while the turn is under way
/// they have not run, once it has ended they have run exactly once, and the
/// reason they were given is the one that the state records.
pub proof fn lemma_one_stop_per_turn(s: TurnView, prompt: Seq<char>, events: Seq<Event>)
    requires
        s.wf(),
        s.phase == Phase::Idle,
    ensures
        ({
            let (first, start) = s.begin(prompt, true);
            let (last, actions) = run(first, events);
            let all = seq![start] + actions;
            &&& last.wf()
            &&& stop_runs(all) == if ended(last) {
                1nat
            } else {
                0nat
            }
            &&& forall|i: int|
                0 <= i < all.len() ==> (#[trigger] all[i] matches Action::RunStop { tag } ==> tag
                    == last.stop_tag)
        }),
    decreases events.len(),
{
    let (first, start) = s.begin(prompt, true);
    crate::turn::lemma_begin_wf(s, prompt, true);
    if events.len() == 0 {
        let all = seq![start] + Seq::<Action>::empty();
        assert(all =~= seq![start]);
        assert(all.drop_last() =~= Seq::<Action>::empty());
        assert(stop_runs(all.drop_last()) == 0);
    } else {
        lemma_one_stop_per_turn(s, prompt, events.drop_last());
        let (mid, before) = run(first, events.drop_last());
        let (last, action) = mid.step(events.last());
                lemma_step_stops(mid, events.last(), true);
        assert(stops_well(mid, (last, action)));
        crate::turn::lemma_step_wf(mid, events.last(), true);
        let all_before = seq![start] + before;
        let all = seq![start] + before.push(action);
        assert(all.drop_last() =~= all_before);
        assert(all.last() == action);
        assert forall|i: int| 0 <= i < all.len() implies (#[trigger] all[i] matches Action::RunStop {
            tag,
        } ==> tag == last.stop_tag) by {
                        if i < all_before.len() {
                assert(all[i] == all_before[i]);
                if all_before[i] is RunStop {
                    assert(stop_runs(all_before) >= 1) by {
                        lemma_stop_runs_counts(all_before, i);
                    }
                }
            }
        }
    }
}

/// A tool that the hooks allow ends the run of blocks: the count of blocks
/// in a row is 0 after it, and the total is as it was.
pub proof fn lemma_allow_resets_blocks(s: TurnView)
    requires
        s.wf(),
        s.phase == Phase::AwaitPreHook,
    ensures
        s.step(Event::PreTool(PreToolResult::Allow)).0.consecutive_blocks == 0,
        s.step(Event::PreTool(PreToolResult::Allow)).0.total_blocks == s.total_blocks,
{
}

/// Within a turn the total of blocks never goes down: a transition leaves
/// it as it is, or, where the hooks block a tool, adds one to it and to the
/// count of blocks in a row.
pub proof fn lemma_total_blocks_grow(s: TurnView, event: Event)
    requires
        s.wf(),
    ensures
        ({
            let next = s.step(event).0;
            if s.phase == Phase::AwaitPreHook && event matches Event::PreTool(
                PreToolResult::Block { .. },
            ) {
                next.total_blocks == s.total_blocks + 1 && next.consecutive_blocks
                    == s.consecutive_blocks + 1
            } else {
                next.total_blocks == s.total_blocks
            }
        }),
{
    match (s.phase, event) {
        (Phase::AwaitJoin, Event::WorkersJoined(outcomes)) => {
            let t = TurnView { slots: filled(s.slots, s.batch, s.spawned, outcomes@, 0), ..s };
            lemma_post_from_moves_on(t, 0, true);
        },
        (Phase::AwaitPostHook, Event::PostTool(outcome)) => {
            let t = TurnView { signal: s.signal || outcome is Signal, ..s };
            lemma_post_from_moves_on(t, s.cursor + 1, true);
        },
        (Phase::AwaitPreHook, Event::PreTool(outcome)) => {
            match outcome {
                PreToolResult::Block { reason, .. } => {},
                PreToolResult::Allow => {},
            }
        },
        _ => {},
    }
}

/// A block that brings a counter to its limit ends the turn, with the
/// limit on blocks in a row named first where both are reached: at once
/// where the tools run in place, and once the workers have ended where they
/// run on workers. A block that reaches no limit ends no turn for a limit.
pub proof fn lemma_block_limits(
    s: TurnView,
    reason: String,
    blocked_by: String,
    outcomes: Vec<WorkerOutcome>,
)
    requires
        s.wf(),
        s.phase == Phase::AwaitPreHook,
    ensures
        ({
            let (next, action) = s.step(
                Event::PreTool(PreToolResult::Block { reason, blocked_by }),
            );
            match limit_reached(s.consecutive_blocks + 1, s.total_blocks + 1) {
                Some(tag) => if s.parallel {
                    action == Action::JoinWorkers && next.step(Event::WorkersJoined(outcomes)).1
                        == (Action::RunStop { tag })
                } else {
                    action == (Action::RunStop { tag })
                },
                None => action != (Action::RunStop { tag: StopTag::BlockLimitConsecutive })
                    && action != (Action::RunStop { tag: StopTag::BlockLimitTotal }),
            }
        }),
{
}

/// A stream that ends before the endpoint said why it stopped is a fault
/// that is tried again: while retries are left, the controller waits for
/// the time that the schedule gives and calls again.
pub proof fn lemma_early_end_is_retried(s: TurnView, message: String)
    requires
        s.wf(),
        s.phase == Phase::AwaitApi,
        s.attempt < MAX_RETRIES,
    ensures
        ({
            let (next, action) = s.step(Event::ApiFailed(AgentError::StreamTransient(message)));
            &&& action == (Action::Sleep { seconds: backoff(s.attempt) })
            &&& next.phase == Phase::AwaitDelay
            &&& next.conversation == s.conversation
            &&& next.step(Event::DelayElapsed).1 == Action::CallApi
            &&& next.step(Event::DelayElapsed).0.attempt == s.attempt + 1
        }),
{
}

/// A reply cut off at the token limit of which all blocks are tool
/// requests with a null input: the placeholder stands for it in the
/// conversation, and the turn ends.
pub proof fn lemma_null_requests_end_turn(s: TurnView, reply: ApiReply)
    requires
        s.wf(),
        s.phase == Phase::AwaitApi,
        reply.stop_reason == StopReason::MaxTokens,
        forall|i: int| 0 <= i < reply.blocks@.len() ==> is_null_tool_use(reply.blocks@[i]@),
    ensures
        ({
            let (next, action) = s.step(Event::ApiReplied(reply));
            &&& action == (Action::RunStop { tag: StopTag::ContinuationCap })
            &&& next.conversation == s.conversation.push(
                MessageView { role: "assistant"@, content: seq![placeholder_block()] },
            )
        }),
{
    let blocks = views(reply.blocks@);
    let kept = blocks.filter(|b: BlockView| !is_null_tool_use(b));
    if kept.len() > 0 {
        blocks.lemma_filter_pred(|b: BlockView| !is_null_tool_use(b), 0);
        blocks.lemma_filter_contains_rev(|b: BlockView| !is_null_tool_use(b), kept[0]);
        let i = choose|i: int| 0 <= i < blocks.len() && blocks[i] == kept[0];
        assert(blocks[i] == reply.blocks@[i]@);
    }
    assert(without_null_tool_use(blocks) == seq![placeholder_block()]);
}

/// The message is an assistant message that asks for a tool.
pub open spec fn open_request(m: MessageView) -> bool {
    m.is_assistant() && tool_calls(m.content).len() > 0
}

/// The message `reply` answers the requests of `request`: it is a user
/// message with one result for each request, in the order of the requests.
pub open spec fn answers(request: MessageView, reply: MessageView) -> bool {
    let calls = tool_calls(request.content);
    &&& reply.is_user()
    &&& reply.content.len() == calls.len()
    &&& forall|j: int|
        0 <= j < calls.len() ==> (#[trigger] reply.content[j] matches BlockView::ToolResult {
            tool_use_id,
            ..
        } && tool_use_id == calls[j].id)
}

/// Each of the first `upto` messages that asks for a tool is answered by
/// the message that follows it.
pub open spec fn answered_to(conv: Seq<MessageView>, upto: int) -> bool {
    forall|i: int|
        0 <= i < upto && i < conv.len() ==> (open_request(#[trigger] conv[i]) ==> i + 1
            < conv.len() && answers(conv[i], conv[i + 1]))
}

/// Every message that asks for a tool is answered by the message that
/// follows it.
pub open spec fn answered(conv: Seq<MessageView>) -> bool {
    answered_to(conv, conv.len() as int)
}

/// The requests of the conversation are answered as far as they can be.
/// The first message asks for no tool. Every request but one in the last
/// message is answered; before a call, that one too.
pub open spec fn coherent(s: TurnView) -> bool {
    &&& s.conversation.len() > 0 ==> !open_request(s.conversation[0])
    &&& answered_to(s.conversation, s.conversation.len() - 1)
    &&& s.phase == Phase::AwaitApi || s.phase == Phase::AwaitDelay ==> s.conversation.len() > 0
                && answered(s.conversation)
}

/// Where the turn ends for a reason other than a failed call, the
/// iteration limit or the model's own end, every request is answered.
pub open spec fn settled(r: (TurnView, Action)) -> bool {
    match r.1 {
        Action::RunStop { tag } => tag == StopTag::ContinuationCap || tag
            == StopTag::BlockLimitConsecutive || tag == StopTag::BlockLimitTotal || tag
            == StopTag::ConvergenceSignal ==> answered(r.0.conversation),
        _ => true,
    }
}

proof fn lemma_no_tool_use_no_calls(content: Seq<BlockView>)
    requires
        !crate::conversation::has_tool_use(content),
    ensures
        tool_calls(content).len() == 0,
    decreases content.len(),
{
    if content.len() > 0 {
        assert forall|i: int| 0 <= i < content.drop_last().len() implies !(content.drop_last()[i]
            is ToolUse) by {
            assert(content.drop_last()[i] == content[i]);
        }
        lemma_no_tool_use_no_calls(content.drop_last());
        assert(!(content[content.len() - 1] is ToolUse));
    }
}

proof fn lemma_prefix_answered(conv: Seq<MessageView>, k: int)
    requires
        0 <= k <= conv.len(),
        answered_to(conv, conv.len() - 1),
    ensures
        answered_to(conv.take(k), k - 1),
        conv.len() > 0 && !open_request(conv[0]) && k > 0 ==> !open_request(conv.take(k)[0]),
{
    let p = conv.take(k);
    assert forall|i: int| 0 <= i < k - 1 && i < p.len() && open_request(#[trigger] p[i]) implies i + 1 < p.len() && answers(p[i], p[i + 1]) by {
        assert(p[i] == conv[i]);
        assert(p[i + 1] == conv[i + 1]);
    }
}

proof fn lemma_recovered_is_prefix(conv: Seq<MessageView>) -> (k: int)
    ensures
        0 <= k <= conv.len(),
        recovered(conv) == conv.take(k),
{
    let c1 = if conv.len() > 0 && conv.last().is_user() {
        conv.drop_last()
    } else {
        conv
    };
    let k1 = c1.len() as int;
    assert(c1 =~= conv.take(k1));
    if c1.len() > 0 && c1.last().is_assistant() && crate::conversation::only_tool_use(
        c1.last().content,
    ) {
        let c2 = c1.drop_last();
        assert(c2 =~= conv.take(k1 - 1));
        if c2.len() > 0 && c2.last().is_user() {
            assert(c2.drop_last() =~= conv.take(k1 - 2));
            k1 - 2
        } else {
            k1 - 1
        }
    } else {
        k1
    }
}

proof fn lemma_push_answered(conv: Seq<MessageView>, m: MessageView)
    requires
        answered(conv),
    ensures
        answered_to(conv.push(m), conv.len() as int),
        !open_request(m) ==> answered(conv.push(m)),
        conv.len() > 0 ==> conv.push(m)[0] == conv[0],
{
    let p = conv.push(m);
    assert forall|i: int| 0 <= i < conv.len() && i < p.len() && open_request(#[trigger] p[i]) implies i + 1 < p.len() && answers(p[i], p[i + 1]) by {
        assert(p[i] == conv[i]);
        if open_request(conv[i]) {
            assert(p[i + 1] == conv[i + 1]);
        }
    }
}

proof fn lemma_trimmed_answered(conv: Seq<MessageView>)
    requires
        conv.len() > 0,
        !open_request(conv[0]),
        answered(conv),
    ensures
        trimmed(conv).len() > 0,
        trimmed(conv)[0] == conv[0],
        answered(trimmed(conv)),
{
    lemma_trimmed_keeps_first(conv);
    let cut = choose|cut: int|
        1 <= cut <= conv.len() && trimmed(conv) == seq![conv[0]] + conv.skip(cut);
    let t = trimmed(conv);
    assert forall|i: int| 0 <= i < t.len() && open_request(#[trigger] t[i]) implies i + 1
        < t.len() && answers(t[i], t[i + 1]) by {
        if i > 0 {
            assert(t[i] == conv[cut + i - 1]);
            if open_request(t[i]) {
                assert(t[i + 1] == conv[cut + i]);
            }
        }
    }
}

proof fn lemma_loop_top_coherent(s: TurnView, trim: bool)
    requires
        s.conversation.len() > 0,
        !open_request(s.conversation[0]),
        answered(s.conversation),
        ensures
        coherent(s.loop_top(trim).0),
        !(s.loop_top(trim).0.in_batch()),
        settled(s.loop_top(trim)),
{
    lemma_trimmed_answered(s.conversation);
    let conversation = if trim {
        gated(s.conversation, s.last_input_tokens)
    } else {
        s.conversation
    };
    assert(answered(conversation));
    let k = lemma_recovered_is_prefix(conversation);
    lemma_prefix_answered(conversation, k);
}

/// The answers of a batch are results for its requests, in their order.
pub proof fn lemma_results_answer_batch(s: TurnView)
    requires
        s.wf(),
    ensures
        s.results().len() == s.batch.len(),
        forall|i: int|
            0 <= i < s.batch.len() ==> (#[trigger] s.results()[i] matches BlockView::ToolResult {
                tool_use_id,
                ..
            } && tool_use_id == s.batch[i].id),
{
    assert forall|i: int| 0 <= i < s.batch.len() implies (#[trigger] s.results()[i] matches BlockView::ToolResult {
        tool_use_id,
        ..
    } && tool_use_id == s.batch[i].id) by {
        assert(s.results()[i] == s.slot_result(i));
        match s.slots[i] {
            Some(b) => {},
            None => {},
        }
    }
}

proof fn lemma_finish_batch_coherent(s: TurnView, trim: bool)
    requires
        s.wf(),
        coherent(s),
        s.in_batch(),
        ensures
        coherent(s.finish_batch(trim).0),
        settled(s.finish_batch(trim)),
        !(s.finish_batch(trim).0.in_batch()),
{
    let message = MessageView { role: "user"@, content: s.results() };
    let conv = s.conversation;
    let next = conv.push(message);
    lemma_results_answer_batch(s);
    crate::api::lemma_roles_differ();
    assert(answers(conv.last(), message));
    assert forall|i: int| 0 <= i < next.len() && open_request(#[trigger] next[i]) implies i + 1
        < next.len() && answers(next[i], next[i + 1]) by {
        if i < conv.len() - 1 {
            assert(next[i] == conv[i]);
            assert(next[i + 1] == conv[i + 1]);
        } else if i == conv.len() - 1 {
            assert(next[i] == conv.last());
            assert(next[i + 1] == message);
        }
    }
    assert(answered(next));
    assert(next[0] == conv[0]);
    let t = TurnView {
        conversation: next,
        journal: s.journal.push(crate::turn::JournalView { message, usage: None }),
        tool_iterations: s.tool_iterations + 1,
        ..s
    };
    lemma_loop_top_coherent(t, trim);
}

proof fn lemma_advance_coherent(s: TurnView, trim: bool)
    requires
        s.wf(),
        coherent(s),
        s.at_cursor(),
        s.phase == Phase::AwaitPreHook || s.phase == Phase::AwaitSpawn || !s.parallel,
        ensures
        coherent(s.advance(trim).0),
        settled(s.advance(trim)),
{
    lemma_finish_batch_coherent(s, trim);
}

proof fn lemma_post_from_coherent(s: TurnView, from: int, trim: bool)
    requires
        s.wf(),
        coherent(s),
        s.in_batch(),
        ensures
        coherent(s.post_from(from, trim).0),
        settled(s.post_from(from, trim)),
    decreases s.batch.len() - from,
{
    if from < 0 || from >= s.batch.len() {
        lemma_finish_batch_coherent(s, trim);
    } else if s.blocked[from] {
        lemma_post_from_coherent(s, from + 1, trim);
    }
}

proof fn lemma_abandon_coherent(s: TurnView, tag: StopTag)
    requires
        coherent(s),
        s.in_batch(),
        s.conversation.len() > 0,
        s.conversation.last().is_assistant(),
    ensures
        coherent(s.abandon(tag).0),
        answered(s.abandon(tag).0.conversation),
{
    let conv = s.conversation;
    let rest = conv.drop_last();
    crate::api::lemma_roles_differ();
    assert(rest =~= conv.take(conv.len() - 1));
    lemma_prefix_answered(conv, conv.len() - 1);
    assert forall|i: int| 0 <= i < rest.len() && open_request(#[trigger] rest[i]) implies i + 1
        < rest.len() && answers(rest[i], rest[i + 1]) by {
        assert(rest[i] == conv[i]);
        if open_request(conv[i]) {
            assert(answers(conv[i], conv[i + 1]));
            if i + 1 == conv.len() - 1 {
                assert(conv[i + 1].is_user());
                assert(false);
            }
            assert(rest[i + 1] == conv[i + 1]);
        }
    }
}

/// A turn begun on a conversation in which every request is answered and
/// the first message asks for nothing starts out coherent.
pub proof fn lemma_begin_coherent(s: TurnView, prompt: Seq<char>)
    requires
        s.wf(),
        s.phase == Phase::Idle,
        answered(s.conversation),
        s.conversation.len() > 0 ==> !open_request(s.conversation[0]),
    ensures
        coherent(s.begin(prompt, true).0),
{
    let message = crate::turn::user_text(prompt);
    crate::api::lemma_roles_differ();
    lemma_push_answered(s.conversation, message);
    let t = TurnView {
        conversation: s.conversation.push(message),
        journal: s.journal.push(crate::turn::JournalView { message, usage: None }),
        ..TurnView::initial(s.conversation)
    };
    lemma_loop_top_coherent(t, true);
}

/// Every transition keeps the conversation and the batch coherent. Where
/// it ends the turn because a reply was cut off, a block limit was reached
/// or a hook signalled, every request in the conversation is answered; where
/// it ends the turn for another reason, every request is answered unless
/// the last message holds one.
pub proof fn lemma_step_coherent(s: TurnView, event: Event)
    requires
        s.wf(),
        coherent(s),
    ensures
        coherent(s.step(event).0),
        settled(s.step(event)),
        s.step(event).1 is RunStop ==> (answered(s.step(event).0.conversation) <==> !(s.step(
            event,
        ).0.conversation.len() > 0 && open_request(s.step(event).0.conversation.last()))),
{
    let trim = true;
    crate::api::lemma_roles_differ();
    match (s.phase, event) {
        (Phase::AwaitApi, Event::ApiReplied(reply)) => {
            lemma_api_replied_coherent(s, reply);
        },
        (Phase::AwaitApi, Event::ApiFailed(error)) => {
            let k = lemma_recovered_is_prefix(s.conversation);
            lemma_prefix_answered(s.conversation, k);
        },
        (Phase::AwaitDelay, Event::DelayElapsed) => {},
        (Phase::AwaitPreHook, Event::PreTool(outcome)) => {
            match outcome {
                PreToolResult::Block { reason, .. } => {
                    let consecutive = s.consecutive_blocks + 1;
                    let total = s.total_blocks + 1;
                    let t = TurnView {
                        slots: s.slots.update(
                            s.cursor,
                            Some(crate::turn::blocked_result(s.batch[s.cursor].id, reason@)),
                        ),
                        blocked: s.blocked.update(s.cursor, true),
                        consecutive_blocks: consecutive,
                        total_blocks: total,
                        tripped: limit_reached(consecutive, total),
                        ..s
                    };
                    crate::turn::lemma_step_wf(s, event, trim);
                    assert(coherent(t));
                    if t.tripped is None {
                        assert(t.wf());
                        lemma_advance_coherent(t, trim);
                    } else {
                        lemma_abandon_coherent(t, t.tripped->0);
                        assert(coherent(TurnView { phase: Phase::AwaitJoin, ..t }));
                    }
                },
                PreToolResult::Allow => {},
            }
        },
        (Phase::AwaitSpawn, Event::WorkerSpawned) => {
            lemma_advance_coherent(s, trim);
        },
        (Phase::AwaitTool, Event::ToolFinished { content, is_error }) => {},
        (Phase::AwaitJoin, Event::WorkersJoined(outcomes)) => {
            let t = TurnView { slots: filled(s.slots, s.batch, s.spawned, outcomes@, 0), ..s };
            crate::turn::lemma_filled_wf(s, outcomes@, 0);
            assert(coherent(t));
            match s.tripped {
                Some(tag) => {
                    lemma_abandon_coherent(t, tag);
                },
                None => {
                    lemma_post_from_coherent(t, 0, trim);
                },
            }
        },
        (Phase::AwaitPostHook, Event::PostTool(outcome)) => {
            let t = TurnView { signal: s.signal || outcome is Signal, ..s };
            assert(t.wf());
            assert(coherent(t));
            if s.parallel {
                lemma_post_from_coherent(t, s.cursor + 1, trim);
            } else {
                lemma_advance_coherent(t, trim);
            }
        },
        (Phase::AwaitStop, Event::StopHookDone) => {},
        _ => {},
    }
}

proof fn lemma_api_replied_coherent(s: TurnView, reply: ApiReply)
    requires
        s.wf(),
        coherent(s),
        s.phase == Phase::AwaitApi,
        ensures
        coherent(s.step(Event::ApiReplied(reply)).0),
        settled(s.step(Event::ApiReplied(reply))),
{
    let trim = true;
    let blocks = views(reply.blocks@);
    let content = if reply.stop_reason == StopReason::MaxTokens {
        without_null_tool_use(blocks)
    } else {
        blocks
    };
    let message = MessageView { role: "assistant"@, content };
    crate::api::lemma_roles_differ();
    lemma_push_answered(s.conversation, message);
    let t = TurnView {
        last_input_tokens: reply.usage.input_tokens,
        total_tokens: crate::turn::capped_sum(
            s.total_tokens,
            reply.usage.input_tokens,
            reply.usage.output_tokens,
        ),
        conversation: s.conversation.push(message),
        journal: s.journal.push(crate::turn::JournalView { message, usage: Some(reply.usage) }),
        ..s
    };
    assert(t.conversation.last() == message);
    if reply.stop_reason == StopReason::MaxTokens {
        match crate::conversation::max_tokens_action(content, s.continuation_count as nat) {
            crate::conversation::MaxTokensAction::Continue => {
                lemma_no_tool_use_no_calls(content);
                let again = crate::turn::user_text(crate::turn::continuation_prompt());
                lemma_push_answered(t.conversation, again);
                let u = TurnView {
                    continuation_count: t.continuation_count + 1,
                    conversation: t.conversation.push(again),
                    journal: t.journal.push(
                        crate::turn::JournalView { message: again, usage: None },
                    ),
                    ..t
                };
                lemma_loop_top_coherent(u, trim);
            },
                        crate::conversation::MaxTokensAction::BreakEmpty => {
                lemma_no_tool_use_no_calls(content);
            },
            crate::conversation::MaxTokensAction::BreakCapReached => {
                lemma_no_tool_use_no_calls(content);
            },
            crate::conversation::MaxTokensAction::DispatchTools => {},
        }
    }
}




proof fn lemma_filled_other(
    slots: Seq<Option<BlockView>>,
    batch: Seq<ToolCallView>,
    spawned: Seq<int>,
    outcomes: Seq<WorkerOutcome>,
    from: int,
    i: int,
)
    requires
        0 <= from,
        0 <= i < slots.len(),
        forall|k: int| from <= k < spawned.len() ==> #[trigger] spawned[k] != i,
    ensures
        filled(slots, batch, spawned, outcomes, from).len() == slots.len(),
        filled(slots, batch, spawned, outcomes, from)[i] == slots[i],
    decreases spawned.len() - from,
{
    if from >= spawned.len() || from >= outcomes.len() {
    } else {
        let at = spawned[from];
        let next = if 0 <= at < slots.len() && at < batch.len() {
            slots.update(at, Some(outcome_result(batch[at].id, outcomes[from])))
        } else {
            slots
        };
        lemma_filled_other(next, batch, spawned, outcomes, from + 1, i);
    }
}

proof fn lemma_filled_at(
    slots: Seq<Option<BlockView>>,
    batch: Seq<ToolCallView>,
    spawned: Seq<int>,
    outcomes: Seq<WorkerOutcome>,
    from: int,
    k: int,
)
    requires
        0 <= from <= k < spawned.len(),
        outcomes.len() == spawned.len(),
        slots.len() == batch.len(),
        forall|a: int, b: int| 0 <= a < b < spawned.len() ==> spawned[a] < spawned[b],
        forall|a: int| 0 <= a < spawned.len() ==> 0 <= #[trigger] spawned[a] < batch.len(),
    ensures
        filled(slots, batch, spawned, outcomes, from)[spawned[k]] == Some(
            outcome_result(batch[spawned[k]].id, outcomes[k]),
        ),
    decreases spawned.len() - from,
{
    let at = spawned[from];
    let next = slots.update(at, Some(outcome_result(batch[at].id, outcomes[from])));
    if from == k {
        assert forall|j: int| from + 1 <= j < spawned.len() implies #[trigger] spawned[j]
            != at by {
            assert(spawned[from] < spawned[j]);
        }
        lemma_filled_other(next, batch, spawned, outcomes, from + 1, at);
    } else {
        lemma_filled_at(next, batch, spawned, outcomes, from + 1, k);
    }
}

/// When the workers have ended, the outcome of each stands in the slot of
/// the request it was started for, whatever the order in which they ended;
/// a worker that did not return leaves an error there. The batch goes on.
pub proof fn lemma_joined_outcomes_in_place(s: TurnView, outcomes: Vec<WorkerOutcome>, k: int)
    requires
        s.wf(),
        s.phase == Phase::AwaitJoin,
        s.tripped is None,
        outcomes@.len() == s.spawned.len(),
        0 <= k < s.spawned.len(),
    ensures
        ({
            let (next, action) = s.step(Event::WorkersJoined(outcomes));
            let at = s.spawned[k];
            &&& next.batch == s.batch
            &&& next.slots[at] == Some(outcome_result(s.batch[at].id, outcomes@[k]))
            &&& outcomes@[k] is Panicked ==> next.slots[at] == Some(
                BlockView::ToolResult {
                    tool_use_id: s.batch[at].id,
                    content: "tool panicked"@,
                    is_error: Some(true),
                },
            )
            &&& action != Action::Rejected
            &&& next.phase != Phase::AwaitJoin
        }),
{
    let t = TurnView { slots: filled(s.slots, s.batch, s.spawned, outcomes@, 0), ..s };
    lemma_filled_at(s.slots, s.batch, s.spawned, outcomes@, 0, k);
    lemma_post_from_moves_on(t, 0, true);
    lemma_post_from_phase(t, 0, true);
}

proof fn lemma_post_from_phase(s: TurnView, from: int, trim: bool)
    ensures
        s.post_from(from, trim).0.phase != Phase::AwaitJoin,
        s.post_from(from, trim).1 != Action::Rejected,
    decreases s.batch.len() - from,
{
    if from < 0 || from >= s.batch.len() {
    } else if s.blocked[from] {
        lemma_post_from_phase(s, from + 1, trim);
    }
}

/// The end of a batch puts its answers, in the order of its requests, into
/// one user message, which answers the assistant message that asked.
pub proof fn lemma_batch_ends_with_results(s: TurnView)
    requires
        s.wf(),
        s.in_batch(),
    ensures
        s.finish_batch(true).0.journal.last().message == (MessageView {
            role: "user"@,
            content: s.results(),
        }),
        answers(s.conversation.last(), MessageView { role: "user"@, content: s.results() }),
{
    lemma_results_answer_batch(s);
}

/// The roles take turns, the user first.
pub open spec fn alternates(conv: Seq<MessageView>) -> bool {
    forall|i: int|
        0 <= i < conv.len() ==> if i % 2 == 0 {
            (#[trigger] conv[i]).is_user()
        } else {
            conv[i].is_assistant()
        }
}

/// The roles take turns, and the last message is the one that the state
/// waits to follow: a user message before a call, an assistant message
/// while a batch is dispatched.
pub open spec fn in_turns(s: TurnView) -> bool {
    &&& alternates(s.conversation)
    &&& s.phase == Phase::AwaitApi || s.phase == Phase::AwaitDelay ==> s.conversation.len() % 2
        == 1
    &&& s.in_batch() ==> s.conversation.len() % 2 == 0
}

proof fn lemma_prefix_alternates(conv: Seq<MessageView>, k: int)
    requires
        0 <= k <= conv.len(),
        alternates(conv),
    ensures
        alternates(conv.take(k)),
{
    assert forall|i: int| 0 <= i < conv.take(k).len() implies if i % 2 == 0 {
        (#[trigger] conv.take(k)[i]).is_user()
    } else {
        conv.take(k)[i].is_assistant()
    } by {
        assert(conv.take(k)[i] == conv[i]);
    }
}

proof fn lemma_push_alternates(conv: Seq<MessageView>, m: MessageView)
    requires
        alternates(conv),
        if conv.len() % 2 == 0 {
            m.is_user()
        } else {
            m.is_assistant()
        },
    ensures
        alternates(conv.push(m)),
{
    assert forall|i: int| 0 <= i < conv.push(m).len() implies if i % 2 == 0 {
        (#[trigger] conv.push(m)[i]).is_user()
    } else {
        conv.push(m)[i].is_assistant()
    } by {
        if i < conv.len() {
            assert(conv.push(m)[i] == conv[i]);
        }
    }
}

proof fn lemma_loop_top_in_turns(s: TurnView)
    requires
        alternates(s.conversation),
        s.conversation.len() % 2 == 1,
    ensures
        in_turns(s.loop_top(false).0),
        !(s.loop_top(false).0.in_batch()),
{
    let k = lemma_recovered_is_prefix(s.conversation);
    lemma_prefix_alternates(s.conversation, k);
}

proof fn lemma_finish_batch_in_turns(s: TurnView)
    requires
        in_turns(s),
        s.in_batch(),
    ensures
        in_turns(s.finish_batch(false).0),
        !(s.finish_batch(false).0.in_batch()),
{
    let message = MessageView { role: "user"@, content: s.results() };
    lemma_push_alternates(s.conversation, message);
    let t = TurnView {
        conversation: s.conversation.push(message),
        journal: s.journal.push(crate::turn::JournalView { message, usage: None }),
        tool_iterations: s.tool_iterations + 1,
        ..s
    };
    lemma_loop_top_in_turns(t);
}

proof fn lemma_post_from_in_turns(s: TurnView, from: int)
    requires
        in_turns(s),
        s.in_batch(),
    ensures
        in_turns(s.post_from(from, false).0),
    decreases s.batch.len() - from,
{
    if from < 0 || from >= s.batch.len() {
        lemma_finish_batch_in_turns(s);
    } else if s.blocked[from] {
        lemma_post_from_in_turns(s, from + 1);
    }
}

/// A turn begun on a conversation in which the roles take turns and the
/// assistant spoke last, or nobody yet, keeps the roles in turns, as long
/// as trimming takes nothing away.
pub proof fn lemma_begin_in_turns(s: TurnView, prompt: Seq<char>)
    requires
        s.wf(),
        s.phase == Phase::Idle,
        alternates(s.conversation),
        s.conversation.len() % 2 == 0,
        s.begin(prompt, true) == s.begin(prompt, false),
    ensures
        in_turns(s.begin(prompt, true).0),
{
    let message = crate::turn::user_text(prompt);
    lemma_push_alternates(s.conversation, message);
    let t = TurnView {
        conversation: s.conversation.push(message),
        journal: s.journal.push(crate::turn::JournalView { message, usage: None }),
        ..TurnView::initial(s.conversation)
    };
    lemma_loop_top_in_turns(t);
}

proof fn lemma_api_replied_in_turns(s: TurnView, reply: ApiReply)
    requires
        in_turns(s),
        s.phase == Phase::AwaitApi,
    ensures
        in_turns(s.api_replied(views(reply.blocks@), reply.stop_reason, reply.usage, false).0),
{
    let blocks = views(reply.blocks@);
    let content = if reply.stop_reason == StopReason::MaxTokens {
        without_null_tool_use(blocks)
    } else {
        blocks
    };
    let message = MessageView { role: "assistant"@, content };
    lemma_push_alternates(s.conversation, message);
    let t = TurnView {
        last_input_tokens: reply.usage.input_tokens,
        total_tokens: crate::turn::capped_sum(
            s.total_tokens,
            reply.usage.input_tokens,
            reply.usage.output_tokens,
        ),
        conversation: s.conversation.push(message),
        journal: s.journal.push(crate::turn::JournalView { message, usage: Some(reply.usage) }),
        ..s
    };
    assert(alternates(t.conversation));
    let again = crate::turn::user_text(crate::turn::continuation_prompt());
    lemma_push_alternates(t.conversation, again);
    let u = TurnView {
        continuation_count: t.continuation_count + 1,
        conversation: t.conversation.push(again),
        journal: t.journal.push(crate::turn::JournalView { message: again, usage: None }),
        ..t
    };
    lemma_loop_top_in_turns(u);
}

proof fn lemma_abandon_in_turns(s: TurnView, tag: StopTag)
    requires
        in_turns(s),
        s.conversation.len() > 0,
    ensures
        in_turns(s.abandon(tag).0),
{
    assert(s.conversation.drop_last() =~= s.conversation.take(s.conversation.len() - 1));
    lemma_prefix_alternates(s.conversation, s.conversation.len() - 1);
}

proof fn lemma_advance_in_turns(s: TurnView)
    requires
        in_turns(s),
        s.in_batch(),
    ensures
        in_turns(s.advance(false).0),
{
    lemma_finish_batch_in_turns(s);
}

proof fn lemma_pre_tool_in_turns(s: TurnView, outcome: PreToolResult)
    requires
        s.wf(),
        in_turns(s),
        s.phase == Phase::AwaitPreHook,
    ensures
        in_turns(s.pre_tool(outcome, false).0),
{
    match outcome {
        PreToolResult::Block { reason, .. } => {
            let consecutive = s.consecutive_blocks + 1;
            let total = s.total_blocks + 1;
            let t = TurnView {
                slots: s.slots.update(
                    s.cursor,
                    Some(crate::turn::blocked_result(s.batch[s.cursor].id, reason@)),
                ),
                blocked: s.blocked.update(s.cursor, true),
                consecutive_blocks: consecutive,
                total_blocks: total,
                tripped: limit_reached(consecutive, total),
                ..s
            };
            assert(in_turns(t));
            lemma_advance_in_turns(t);
            if t.tripped is Some {
                lemma_abandon_in_turns(t, t.tripped->0);
            }
        },
        PreToolResult::Allow => {},
    }
}

proof fn lemma_step_with_in_turns(s: TurnView, event: Event)
    requires
        s.wf(),
        in_turns(s),
    ensures
        in_turns(s.step_with(event, false).0),
{
    match (s.phase, event) {
        (Phase::AwaitApi, Event::ApiReplied(reply)) => {
            lemma_api_replied_in_turns(s, reply);
        },
        (Phase::AwaitApi, Event::ApiFailed(error)) => {
            let k = lemma_recovered_is_prefix(s.conversation);
            lemma_prefix_alternates(s.conversation, k);
        },
        (Phase::AwaitDelay, Event::DelayElapsed) => {},
        (Phase::AwaitPreHook, Event::PreTool(outcome)) => {
            lemma_pre_tool_in_turns(s, outcome);
        },
        (Phase::AwaitSpawn, Event::WorkerSpawned) => {
            lemma_advance_in_turns(s);
        },
        (Phase::AwaitTool, Event::ToolFinished { content, is_error }) => {},
        (Phase::AwaitJoin, Event::WorkersJoined(outcomes)) => {
            let t = TurnView { slots: filled(s.slots, s.batch, s.spawned, outcomes@, 0), ..s };
            assert(in_turns(t));
            match s.tripped {
                Some(tag) => {
                    lemma_abandon_in_turns(t, tag);
                },
                None => {
                    lemma_post_from_in_turns(t, 0);
                },
            }
        },
        (Phase::AwaitPostHook, Event::PostTool(outcome)) => {
            let t = TurnView { signal: s.signal || outcome is Signal, ..s };
            assert(in_turns(t));
            if s.parallel {
                lemma_post_from_in_turns(t, s.cursor + 1);
            } else {
                lemma_advance_in_turns(t);
            }
        },
        (Phase::AwaitStop, Event::StopHookDone) => {},
        _ => {},
    }
}

/// A transition keeps the roles in turns, the user first, as long as
/// trimming takes nothing away. So they are in turns when the turn ends.
pub proof fn lemma_step_in_turns(s: TurnView, event: Event)
    requires
        s.wf(),
        in_turns(s),
        s.step(event) == s.step_with(event, false),
    ensures
        in_turns(s.step(event).0),
        alternates(s.step(event).0.conversation),
{
    lemma_step_with_in_turns(s, event);
}

/// Whatever happens in a turn, the conversation and the batch stay
/// coherent, and the total of blocks is never less than it was.
pub proof fn lemma_run_coherent(s: TurnView, events: Seq<Event>)
    requires
        s.wf(),
        coherent(s),
    ensures
        run(s, events).0.wf(),
        coherent(run(s, events).0),
        run(s, events).0.total_blocks >= s.total_blocks,
    decreases events.len(),
{
    if events.len() > 0 {
        lemma_run_coherent(s, events.drop_last());
        let mid = run(s, events.drop_last()).0;
        crate::turn::lemma_step_wf(mid, events.last(), true);
        lemma_step_coherent(mid, events.last());
        lemma_total_blocks_grow(mid, events.last());
    }
}

/// At every point of a turn, and so at its end, however it went, every
/// request in the conversation is answered just when the last message
/// holds none.
pub proof fn lemma_turn_ends_answered(s: TurnView, prompt: Seq<char>, events: Seq<Event>)
    requires
        s.wf(),
        s.phase == Phase::Idle,
        answered(s.conversation),
        s.conversation.len() > 0 ==> !open_request(s.conversation[0]),
    ensures
        ({
            let last = run(s.begin(prompt, true).0, events).0;
            let conv = last.conversation;
            answered(conv) <==> !(conv.len() > 0 && open_request(conv.last()))
        }),
{
    lemma_begin_coherent(s, prompt);
    crate::turn::lemma_begin_wf(s, prompt, true);
    lemma_run_coherent(s.begin(prompt, true).0, events);
}

/// Trimming took nothing away in any transition of the events.
pub open spec fn never_trimmed(s: TurnView, events: Seq<Event>) -> bool
    decreases events.len(),
{
    events.len() == 0 || (never_trimmed(s, events.drop_last()) && {
        let mid = run(s, events.drop_last()).0;
        mid.step(events.last()) == mid.step_with(events.last(), false)
    })
}

/// In a turn begun on a conversation in which the roles take turns and
/// the assistant spoke last, or nobody yet, the roles take turns, the user
/// first, at every point and so at the end, as long as trimming takes
/// nothing away.
pub proof fn lemma_turn_stays_in_turns(s: TurnView, prompt: Seq<char>, events: Seq<Event>)
    requires
        s.wf(),
        s.phase == Phase::Idle,
        alternates(s.conversation),
        s.conversation.len() % 2 == 0,
        s.begin(prompt, true) == s.begin(prompt, false),
        never_trimmed(s.begin(prompt, true).0, events),
    ensures
        run(s.begin(prompt, true).0, events).0.wf(),
        in_turns(run(s.begin(prompt, true).0, events).0),
        alternates(run(s.begin(prompt, true).0, events).0.conversation),
    decreases events.len(),
{
    let first = s.begin(prompt, true).0;
    crate::turn::lemma_begin_wf(s, prompt, true);
    lemma_begin_in_turns(s, prompt);
    if events.len() > 0 {
        lemma_turn_stays_in_turns(s, prompt, events.drop_last());
        let mid = run(first, events.drop_last()).0;
        crate::turn::lemma_step_wf(mid, events.last(), true);
        lemma_step_in_turns(mid, events.last());
    }
}

/// A reply that asks for tools opens the batch of its valid requests, in
/// their order, with no answer yet; it runs on workers just when every
/// tool of it only reads. The hooks before the first tool run next.
pub proof fn lemma_reply_opens_batch(s: TurnView, reply: ApiReply)
    requires
        s.wf(),
        s.phase == Phase::AwaitApi,
        reply.stop_reason == StopReason::ToolUse,
        tool_calls(views(reply.blocks@)).len() > 0,
    ensures
        ({
            let (next, action) = s.step(Event::ApiReplied(reply));
            &&& action == (Action::RunPreToolUse { index: 0 })
            &&& next.batch == tool_calls(views(reply.blocks@))
            &&& next.parallel == all_pure(next.batch)
            &&& next.conversation == s.conversation.push(
                MessageView { role: "assistant"@, content: views(reply.blocks@) },
            )
            &&& forall|i: int| 0 <= i < next.slots.len() ==> next.slots[i] is None
        }),
{
}

/// The end of the batch, where the result brings it, hands over the
/// answers as they stand: the journal has one more message, a user message
/// of the answers in the order of the requests.
pub open spec fn hands_over(t: TurnView, r: (TurnView, Action)) -> bool {
    r.0.journal == t.journal || r.0.journal == t.journal.push(
        JournalView { message: MessageView { role: "user"@, content: t.results() }, usage: None },
    )
}

proof fn lemma_advance_hands_over(t: TurnView, trim: bool)
    ensures
        hands_over(t, t.finish_batch(trim)),
        hands_over(t, t.advance(trim)),
        hands_over(t, t.abandon(StopTag::BlockLimitTotal)),
        hands_over(t, t.abandon(StopTag::BlockLimitConsecutive)),
{
}

proof fn lemma_post_from_hands_over(t: TurnView, from: int, trim: bool)
    ensures
        hands_over(t, t.post_from(from, trim)),
    decreases t.batch.len() - from,
{
    if from < 0 || from >= t.batch.len() {
        lemma_advance_hands_over(t, trim);
    } else if t.blocked[from] {
        lemma_post_from_hands_over(t, from + 1, trim);
    }
}

/// What a transition within a batch does to the answer in slot `i`.
pub open spec fn keeps_answer(s: TurnView, next: TurnView, i: int) -> bool {
    &&& next.in_batch() ==> next.batch == s.batch && next.slots[i] == s.slots[i]
    &&& next.journal.len() > s.journal.len() ==> {
        let message = next.journal.last().message;
        &&& next.journal.len() == s.journal.len() + 1
        &&& message.role == "user"@
        &&& message.content.len() == s.batch.len()
        &&& Some(message.content[i]) == s.slots[i]
    }
}

proof fn lemma_keeps_answer(s: TurnView, t: TurnView, r: (TurnView, Action), i: int)
    requires
        0 <= i < s.slots.len(),
        s.slots.len() == s.batch.len(),
        s.slots[i] is Some,
        t.batch == s.batch,
        t.slots.len() == s.slots.len(),
        t.slots[i] == s.slots[i],
        t.journal == s.journal,
        hands_over(t, r),
        r.0.in_batch() ==> r.0.batch == t.batch && r.0.slots == t.slots,
    ensures
        keeps_answer(s, r.0, i),
{
    if r.0.journal.len() > s.journal.len() {
        assert(t.results()[i] == t.slot_result(i));
    }
}

/// An answer, once it is written, stays: while the batch is dispatched it
/// is not written over, and the user message that ends the batch holds it
/// in the place of its request.
pub proof fn lemma_answer_stays(s: TurnView, event: Event, i: int)
    requires
        s.wf(),
        s.tidy(),
        s.in_batch(),
        0 <= i < s.slots.len(),
        s.slots[i] is Some,
    ensures
        keeps_answer(s, s.step(event).0, i),
{
    let trim = true;
    let r = s.step(event);
    match (s.phase, event) {
        (Phase::AwaitPreHook, Event::PreTool(outcome)) => {
            match outcome {
                PreToolResult::Block { reason, .. } => {
                    let consecutive = s.consecutive_blocks + 1;
                    let total = s.total_blocks + 1;
                    let t = TurnView {
                        slots: s.slots.update(
                            s.cursor,
                            Some(blocked_result(s.batch[s.cursor].id, reason@)),
                        ),
                        blocked: s.blocked.update(s.cursor, true),
                        consecutive_blocks: consecutive,
                        total_blocks: total,
                        tripped: limit_reached(consecutive, total),
                        ..s
                    };
                    assert(s.slots[s.cursor] is None);
                    lemma_advance_moves_on(t, trim);
                    lemma_advance_hands_over(t, trim);
                    if t.tripped is Some && s.parallel {
                        assert(r.0 == (TurnView { phase: Phase::AwaitJoin, ..t }));
                    }
                    lemma_keeps_answer(s, t, r, i);
                },
                PreToolResult::Allow => {},
            }
        },
        (Phase::AwaitSpawn, Event::WorkerSpawned) => {
            lemma_advance_moves_on(s, trim);
            lemma_advance_hands_over(s, trim);
            lemma_keeps_answer(s, s, r, i);
        },
        (Phase::AwaitTool, Event::ToolFinished { content, is_error }) => {
            assert(s.slots[s.cursor] is None);
        },
        (Phase::AwaitJoin, Event::WorkersJoined(outcomes)) => {
            let t = TurnView { slots: filled(s.slots, s.batch, s.spawned, outcomes@, 0), ..s };
            assert(s.blocked[i]);
            assert forall|k: int| 0 <= k < s.spawned.len() implies #[trigger] s.spawned[k]
                != i by {
                assert(!s.blocked[s.spawned[k]]);
            }
            lemma_filled_other(s.slots, s.batch, s.spawned, outcomes@, 0, i);
            lemma_post_from_moves_on(t, 0, trim);
            lemma_post_from_hands_over(t, 0, trim);
            lemma_advance_hands_over(t, trim);
            lemma_keeps_answer(s, t, r, i);
        },
        (Phase::AwaitPostHook, Event::PostTool(outcome)) => {
            let t = TurnView { signal: s.signal || outcome is Signal, ..s };
            lemma_post_from_moves_on(t, s.cursor + 1, trim);
            lemma_post_from_hands_over(t, s.cursor + 1, trim);
            lemma_advance_moves_on(t, trim);
            lemma_advance_hands_over(t, trim);
            assert(t.results() =~= s.results());
            lemma_keeps_answer(s, t, r, i);
        },
        _ => {},
    }
}

/// A request that the hooks block is answered by the reason of the block,
/// as an error, and counts as blocked.
pub proof fn lemma_block_fills_slot(s: TurnView, reason: String, blocked_by: String)
    requires
        s.wf(),
        s.phase == Phase::AwaitPreHook,
    ensures
        ({
            let next = s.step(Event::PreTool(PreToolResult::Block { reason, blocked_by })).0;
            &&& next.blocked[s.cursor]
            &&& next.slots[s.cursor] == Some(
                BlockView::ToolResult {
                    tool_use_id: s.batch[s.cursor].id,
                    content: reason@,
                    is_error: Some(true),
                },
            )
        }),
{
    let consecutive = s.consecutive_blocks + 1;
    let total = s.total_blocks + 1;
    let t = TurnView {
        slots: s.slots.update(s.cursor, Some(blocked_result(s.batch[s.cursor].id, reason@))),
        blocked: s.blocked.update(s.cursor, true),
        consecutive_blocks: consecutive,
        total_blocks: total,
        tripped: limit_reached(consecutive, total),
        ..s
    };
    lemma_advance_moves_on(t, true);
    lemma_advance_blocked(t, true);
}

proof fn lemma_advance_blocked(t: TurnView, trim: bool)
    ensures
        t.advance(trim).0.blocked == t.blocked,
        t.finish_batch(trim).0.blocked == t.blocked,
{
}

/// A tool that ran in place is answered by its own result: what it gave,
/// marked as an error where it failed.
pub proof fn lemma_tool_fills_slot(s: TurnView, content: String, is_error: bool)
    requires
        s.wf(),
        s.phase == Phase::AwaitTool,
    ensures
        ({
            let (next, action) = s.step(Event::ToolFinished { content, is_error });
            &&& action == (Action::RunPostToolUse { index: s.cursor as usize })
            &&& next.slots[s.cursor] == Some(tool_result(s.batch[s.cursor].id, content@, is_error))
        }),
{
}

/// Whatever happens, the state keeps its invariant and the batch stays in
/// order.
pub proof fn lemma_run_in_order(s: TurnView, events: Seq<Event>)
    requires
        s.wf(),
        s.tidy(),
    ensures
        run(s, events).0.wf(),
        run(s, events).0.tidy(),
    decreases events.len(),
{
    if events.len() > 0 {
        lemma_run_in_order(s, events.drop_last());
        let mid = run(s, events.drop_last()).0;
        crate::turn::lemma_step_wf(mid, events.last(), true);
        crate::turn::lemma_step_tidy(mid, events.last(), true);
    }
}

} // verus!
