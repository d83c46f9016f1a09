//! The turn controller.
//!
//! A turn is the work between one prompt and the next. The controller holds
//! the conversation and the counters of the turn and decides, for each thing
//! that happens outside (the endpoint replied, a hook gave its verdict, a
//! tool finished), what is done next. It performs none of that work itself:
//! [`TurnController::step`] takes the [`Event`] and returns the [`Action`]
//! that its caller carries out.
//!
//! [`TurnView`] is the mathematical state, and [`TurnView::step`] the
//! transition that `step` is proved to take.

use crate::api::{
    error_class, views, AgentError, BlockView, ContentBlock, ErrorClass, Message, MessageView,
    StopReason, Usage,
};
use crate::conversation::{
    classify_max_tokens, filter_null_input_tool_use, gated, max_tokens_action, recover_conversation,
    recovered, trim_if_needed, user_text_message, without_null_tool_use, MaxTokensAction,
};
use crate::hooks::{PostToolResult, PreToolResult};
use crate::json::{json_model, JsonModel};
use crate::limits::{
    delay_for, limit_reached, retry_after_of, retry_delay, BlockBudget, StopTag, MAX_RETRIES,
    MAX_TOOL_ITERATIONS,
};
use crate::text::owned;
use crate::tools::{effect_of, tool_effect, ToolEffect};
use vstd::prelude::*;

verus! {

/// One tool request of a batch.
#[derive(Debug)]
pub struct ToolCall {
    pub id: String,
    pub name: String,
    pub input: serde_json::Value,
}

/// The content of a [`ToolCall`].
pub struct ToolCallView {
    pub id: Seq<char>,
    pub name: Seq<char>,
    pub input: JsonModel,
}

impl View for ToolCall {
    type V = ToolCallView;

    open spec fn view(&self) -> ToolCallView {
        ToolCallView { id: self.id@, name: self.name@, input: json_model(self.input) }
    }
}

/// A reply of the endpoint.
#[derive(Debug)]
pub struct ApiReply {
    pub blocks: Vec<ContentBlock>,
    pub stop_reason: StopReason,
    pub usage: Usage,
}

/// How a tool that ran on a worker ended.
#[derive(Debug)]
pub enum WorkerOutcome {
    Finished { content: String, is_error: bool },
    Panicked,
}

/// Something that happened outside the controller.
#[derive(Debug)]
pub enum Event {
    /// The endpoint replied.
    ApiReplied(ApiReply),
    /// The call to the endpoint failed.
    ApiFailed(AgentError),
    /// The wait before a retry is over.
    DelayElapsed,
    /// The hooks that run before a tool gave their verdict.
    PreTool(PreToolResult),
    /// A worker was started for a tool.
    WorkerSpawned,
    /// A tool that ran in place finished.
    ToolFinished { content: String, is_error: bool },
    /// All workers ended; their outcomes in the order in which they were
    /// started.
    WorkersJoined(Vec<WorkerOutcome>),
    /// The hooks that run after a tool gave their verdict.
    PostTool(PostToolResult),
    /// The hooks at the end of the turn have run.
    StopHookDone,
}

/// What the caller of the controller does next.
#[derive(Debug, Clone, Copy, PartialEq, Eq, Structural)]
pub enum Action {
    /// Send the conversation to the endpoint.
    CallApi,
    /// Wait.
    Sleep { seconds: u64 },
    /// Run the hooks that come before the tool at `index` of the batch.
    RunPreToolUse { index: usize },
    /// Start a worker for the tool at `index` of the batch.
    SpawnWorker { index: usize },
    /// Run the tool at `index` of the batch in place.
    InvokeTool { index: usize },
    /// Wait for all workers.
    JoinWorkers,
    /// Run the hooks that come after the tool at `index` of the batch.
    RunPostToolUse { index: usize },
    /// Run the hooks at the end of the turn.
    RunStop { tag: StopTag },
    /// The turn is over.
    Finished,
    /// The event does not fit the state; nothing has changed.
    Rejected,
}

/// What the controller waits for.
#[derive(Debug, Clone, Copy, PartialEq, Eq, Structural)]
pub enum Phase {
    Idle,
    AwaitApi,
    AwaitDelay,
    AwaitPreHook,
    AwaitSpawn,
    AwaitTool,
    AwaitJoin,
    AwaitPostHook,
    AwaitStop,
}

/// A message for the session's journal; an assistant message comes with the
/// usage of the call that produced it.
#[derive(Debug)]
pub struct JournalEntry {
    pub message: Message,
    pub usage: Option<Usage>,
}

/// The content of a [`JournalEntry`].
pub struct JournalView {
    pub message: MessageView,
    pub usage: Option<Usage>,
}

impl View for JournalEntry {
    type V = JournalView;

    open spec fn view(&self) -> JournalView {
        JournalView { message: self.message@, usage: self.usage }
    }
}

/// The valid tool requests among the blocks, in their order: those whose
/// input is not null.
pub open spec fn tool_calls(content: Seq<BlockView>) -> Seq<ToolCallView>
    decreases content.len(),
{
    if content.len() == 0 {
        Seq::empty()
    } else {
        let rest = tool_calls(content.drop_last());
        match content.last() {
            BlockView::ToolUse { id, name, input } => if input is Null {
                rest
            } else {
                rest.push(ToolCallView { id, name, input })
            },
            _ => rest,
        }
    }
}

/// A batch runs on workers where it is not empty and all its tools only read.
pub open spec fn all_pure(batch: Seq<ToolCallView>) -> bool {
    batch.len() > 0 && forall|i: int|
        0 <= i < batch.len() ==> effect_of(#[trigger] batch[i].name) == ToolEffect::Pure
}

/// The answer to the request `id` of a tool that the hooks blocked.
pub open spec fn blocked_result(id: Seq<char>, reason: Seq<char>) -> BlockView {
    BlockView::ToolResult { tool_use_id: id, content: reason, is_error: Some(true) }
}

/// The answer to the request `id` of a tool that ran.
pub open spec fn tool_result(id: Seq<char>, content: Seq<char>, is_error: bool) -> BlockView {
    BlockView::ToolResult {
        tool_use_id: id,
        content,
        is_error: if is_error {
            Some(true)
        } else {
            None
        },
    }
}

/// The answer to the request `id` of a tool whose worker did not return.
pub open spec fn panicked_result(id: Seq<char>) -> BlockView {
    BlockView::ToolResult { tool_use_id: id, content: "tool panicked"@, is_error: Some(true) }
}

/// The answer that a worker's outcome makes for the request `id`.
pub open spec fn outcome_result(id: Seq<char>, outcome: WorkerOutcome) -> BlockView {
    match outcome {
        WorkerOutcome::Finished { content, is_error } => tool_result(id, content@, is_error),
        WorkerOutcome::Panicked => panicked_result(id),
    }
}

/// The slots after the outcomes from `from` on were written, each to the slot
/// of the worker it belongs to.
pub open spec fn filled(
    slots: Seq<Option<BlockView>>,
    batch: Seq<ToolCallView>,
    spawned: Seq<int>,
    outcomes: Seq<WorkerOutcome>,
    from: int,
) -> Seq<Option<BlockView>>
    decreases spawned.len() - from,
{
    if from < 0 || from >= spawned.len() || from >= outcomes.len() {
        slots
    } else {
        let at = spawned[from];
        let next = if 0 <= at < slots.len() && at < batch.len() {
            slots.update(at, Some(outcome_result(batch[at].id, outcomes[from])))
        } else {
            slots
        };
        filled(next, batch, spawned, outcomes, from + 1)
    }
}

/// A sum of token counts, held at the largest `u64` where it would pass it.
pub open spec fn capped_sum(a: u64, b: u64, c: u64) -> u64 {
    if a + b + c > u64::MAX {
        u64::MAX
    } else {
        (a + b + c) as u64
    }
}

/// The text of the user message that asks the model to go on.
pub open spec fn continuation_prompt() -> Seq<char> {
    "Continue from where you left off."@
}

pub open spec fn user_text(text: Seq<char>) -> MessageView {
    MessageView { role: "user"@, content: seq![BlockView::Text { text }] }
}

/// The state of the controller.
pub struct TurnView {
    pub conversation: Seq<MessageView>,
    /// The messages appended since the journal was last taken.
    pub journal: Seq<JournalView>,
    pub phase: Phase,
    /// The number of the current attempt of the call, from 0.
    pub attempt: int,
    pub tool_iterations: int,
    pub continuation_count: int,
    /// The input tokens that the last call of the turn reported.
    pub last_input_tokens: u64,
    pub consecutive_blocks: int,
    pub total_blocks: int,
    pub total_tokens: u64,
    pub stop_tag: StopTag,
    /// The valid tool requests of the last assistant message.
    pub batch: Seq<ToolCallView>,
    /// Whether the batch runs on workers.
    pub parallel: bool,
    /// The request of the batch that is being handled.
    pub cursor: int,
    /// The answers so far, one slot for each request.
    pub slots: Seq<Option<BlockView>>,
    /// Which requests the hooks blocked.
    pub blocked: Seq<bool>,
    /// The requests for which a worker was started, in that order.
    pub spawned: Seq<int>,
    /// Whether a hook signalled that the task is done.
    pub signal: bool,
    /// The block limit that the batch has reached.
    pub tripped: Option<StopTag>,
}

impl TurnView {
    /// The invariant of the state.
    pub open spec fn wf(self) -> bool {
        &&& 0 <= self.attempt <= MAX_RETRIES
        &&& self.phase == Phase::AwaitDelay ==> self.attempt < MAX_RETRIES
        &&& 0 <= self.tool_iterations <= MAX_TOOL_ITERATIONS
        &&& self.in_batch() || self.phase == Phase::AwaitApi || self.phase == Phase::AwaitDelay
            ==> self.tool_iterations < MAX_TOOL_ITERATIONS
        &&& 0 <= self.continuation_count <= crate::conversation::MAX_CONTINUATIONS
        &&& 0 <= self.consecutive_blocks <= crate::limits::MAX_CONSECUTIVE_BLOCKS
        &&& 0 <= self.total_blocks <= crate::limits::MAX_TOTAL_BLOCKS
        &&& self.consecutive_blocks <= self.total_blocks
        &&& self.tripped is None && self.phase != Phase::AwaitStop && self.phase != Phase::Idle
            ==> limit_reached(self.consecutive_blocks, self.total_blocks) is None
        &&& self.tripped is Some ==> self.phase == Phase::AwaitJoin || self.phase
            == Phase::AwaitStop || self.phase == Phase::Idle
        
        &&& self.slots.len() == self.batch.len()
        &&& self.blocked.len() == self.batch.len()
        
        &&& 0 <= self.cursor
        &&& self.at_cursor() ==> self.cursor < self.batch.len()
        &&& self.in_batch() ==> self.conversation.len() > 0
        &&& self.in_batch() ==> self.conversation.last().role == "assistant"@ && tool_calls(
            self.conversation.last().content,
        ) == self.batch
        &&& forall|k: int|
            0 <= k < self.spawned.len() ==> 0 <= #[trigger] self.spawned[k] < self.batch.len()
        &&& self.spawned_in_order()
        &&& forall|i: int|
            0 <= i < self.slots.len() ==> (#[trigger] self.slots[i] matches Some(b) ==> b matches BlockView::ToolResult {
                tool_use_id,
                ..
            } && tool_use_id == self.batch[i].id)
    }

    /// The workers were started in the order of the requests, and only
    /// where the batch runs on workers.
    pub open spec fn spawned_in_order(self) -> bool {
        &&& forall|j: int, k: int|
            0 <= j < k < self.spawned.len() ==> self.spawned[j] < self.spawned[k]
        &&& !self.parallel ==> self.spawned.len() == 0
        &&& self.phase == Phase::AwaitPreHook ==> forall|k: int|
            0 <= k < self.spawned.len() ==> #[trigger] self.spawned[k] < self.cursor
        &&& self.phase == Phase::AwaitSpawn ==> forall|k: int|
            0 <= k < self.spawned.len() ==> #[trigger] self.spawned[k] <= self.cursor
    }

    /// No worker was started for a blocked request.
    pub open spec fn no_worker_for_blocked(self) -> bool {
        forall|k: int| 0 <= k < self.spawned.len() ==> !self.blocked[#[trigger] self.spawned[k]]
    }

    /// The batch is in order. No worker was started for a blocked request.
    /// While the requests of a batch on workers are gone through, only
    /// blocked requests have an answer. The requests that are still to
    /// come have no answer and are not blocked.
    pub open spec fn tidy(self) -> bool {
        &&& self.no_worker_for_blocked()
        &&& self.phase == Phase::AwaitJoin || self.phase == Phase::AwaitSpawn ==> self.parallel
        &&& self.phase == Phase::AwaitTool ==> !self.parallel
        &&& self.parallel && (self.phase == Phase::AwaitPreHook || self.phase == Phase::AwaitSpawn
            || self.phase == Phase::AwaitJoin) ==> forall|i: int|
            0 <= i < self.slots.len() ==> (#[trigger] self.slots[i] is Some ==> self.blocked[i])
        &&& self.phase == Phase::AwaitPreHook || self.phase == Phase::AwaitSpawn || self.phase
            == Phase::AwaitTool ==> forall|i: int|
            self.cursor <= i < self.slots.len() ==> #[trigger] self.slots[i] is None
                && !self.blocked[i]
        &&& self.phase == Phase::AwaitPostHook && !self.parallel ==> forall|i: int|
            self.cursor < i < self.slots.len() ==> #[trigger] self.slots[i] is None
                && !self.blocked[i]
    }

    /// The controller handles one request of the batch.
    pub open spec fn at_cursor(self) -> bool {
        self.phase == Phase::AwaitPreHook || self.phase == Phase::AwaitSpawn || self.phase
            == Phase::AwaitTool || self.phase == Phase::AwaitPostHook
    }

    /// The controller is dispatching a batch.
    pub open spec fn in_batch(self) -> bool {
        self.at_cursor() || self.phase == Phase::AwaitJoin
    }

    /// The state before the first turn, with the given conversation.
    pub open spec fn initial(conversation: Seq<MessageView>) -> TurnView {
        TurnView {
            conversation,
            journal: Seq::empty(),
            phase: Phase::Idle,
            attempt: 0,
            tool_iterations: 0,
            continuation_count: 0,
            last_input_tokens: 0,
            consecutive_blocks: 0,
            total_blocks: 0,
            total_tokens: 0,
            stop_tag: StopTag::EndTurn,
            batch: Seq::empty(),
            parallel: false,
            cursor: 0,
            slots: Seq::empty(),
            blocked: Seq::empty(),
            spawned: Seq::empty(),
            signal: false,
            tripped: None,
        }
    }

    /// The answer in slot `i`; an empty slot stands for a worker that did not
    /// return.
    pub open spec fn slot_result(self, i: int) -> BlockView {
        match self.slots[i] {
            Some(b) => b,
            None => panicked_result(self.batch[i].id),
        }
    }

    /// The answers of the batch, in the order of its requests.
    pub open spec fn results(self) -> Seq<BlockView> {
        Seq::new(self.batch.len(), |i: int| self.slot_result(i))
    }

    /// The turn ends for the reason `tag`: the hooks at its end run next.
    pub open spec fn stop(self, tag: StopTag) -> (TurnView, Action) {
        (TurnView { phase: Phase::AwaitStop, stop_tag: tag, ..self }, Action::RunStop { tag })
    }

    /// The top of the loop: the conversation is trimmed where that is due;
    /// then the turn ends if it has used up its iterations, and else the
    /// endpoint is called.
    pub open spec fn loop_top(self, trim: bool) -> (TurnView, Action) {
        let conversation = if trim {
            gated(self.conversation, self.last_input_tokens)
        } else {
            self.conversation
        };
        if self.tool_iterations >= MAX_TOOL_ITERATIONS {
            TurnView { conversation: recovered(conversation), ..self }.stop(
                StopTag::IterationLimit,
            )
        } else {
            (
                TurnView { conversation, phase: Phase::AwaitApi, attempt: 0, ..self },
                Action::CallApi,
            )
        }
    }

    /// A turn begins with the prompt `prompt`.
    pub open spec fn begin(self, prompt: Seq<char>, trim: bool) -> (TurnView, Action) {
        if self.phase != Phase::Idle {
            (self, Action::Rejected)
        } else {
            let message = user_text(prompt);
            TurnView {
                conversation: self.conversation.push(message),
                journal: self.journal.push(JournalView { message, usage: None }),
                ..Self::initial(self.conversation)
            }.loop_top(trim)
        }
    }

    /// The call failed with a fault of class `class` that asks for the delay
    /// `retry_after`.
    pub open spec fn api_failed(self, class: ErrorClass, retry_after: Option<u64>) -> (
        TurnView,
        Action,
    ) {
        if class == ErrorClass::Permanent || self.attempt >= MAX_RETRIES {
            TurnView { conversation: recovered(self.conversation), ..self }.stop(StopTag::ApiError)
        } else {
            (
                TurnView { phase: Phase::AwaitDelay, ..self },
                Action::Sleep { seconds: delay_for(retry_after, self.attempt) },
            )
        }
    }

    /// The endpoint replied.
    pub open spec fn api_replied(
        self,
        blocks: Seq<BlockView>,
        stop_reason: StopReason,
        usage: Usage,
        trim: bool,
    ) -> (TurnView, Action) {
        let content = if stop_reason == StopReason::MaxTokens {
            without_null_tool_use(blocks)
        } else {
            blocks
        };
        let message = MessageView { role: "assistant"@, content };
        let s = TurnView {
            last_input_tokens: usage.input_tokens,
            total_tokens: capped_sum(self.total_tokens, usage.input_tokens, usage.output_tokens),
            conversation: self.conversation.push(message),
            journal: self.journal.push(JournalView { message, usage: Some(usage) }),
            ..self
        };
        match stop_reason {
            StopReason::EndTurn => s.stop(StopTag::EndTurn),
            StopReason::ToolUse => s.begin_batch(content),
            StopReason::MaxTokens => match max_tokens_action(
                content,
                self.continuation_count as nat,
            ) {
                MaxTokensAction::BreakEmpty => s.stop(StopTag::ContinuationCap),
                MaxTokensAction::BreakCapReached => s.stop(StopTag::ContinuationCap),
                MaxTokensAction::DispatchTools => s.begin_batch(content),
                MaxTokensAction::Continue => {
                    let again = user_text(continuation_prompt());
                    TurnView {
                        continuation_count: s.continuation_count + 1,
                        conversation: s.conversation.push(again),
                        journal: s.journal.push(JournalView { message: again, usage: None }),
                        ..s
                    }.loop_top(trim)
                },
            },
        }
    }

    /// The dispatch of the tool requests of the assistant message `content`
    /// begins. Where none of them is valid, the turn ends.
    pub open spec fn begin_batch(self, content: Seq<BlockView>) -> (TurnView, Action) {
        let batch = tool_calls(content);
        let s = TurnView {
            batch,
            parallel: all_pure(batch),
            cursor: 0,
            slots: Seq::new(batch.len(), |i: int| None),
            blocked: Seq::new(batch.len(), |i: int| false),
            spawned: Seq::empty(),
            signal: false,
            tripped: None,
            ..self
        };
        if batch.len() == 0 {
            s.stop(StopTag::EndTurn)
        } else {
            (TurnView { phase: Phase::AwaitPreHook, ..s }, Action::RunPreToolUse { index: 0 })
        }
    }

    /// The batch is given up because a block limit was reached: its
    /// assistant message leaves the conversation, and the turn ends.
    pub open spec fn abandon(self, tag: StopTag) -> (TurnView, Action) {
        TurnView { conversation: self.conversation.drop_last(), ..self }.stop(tag)
    }

    /// The hooks before the tool at the cursor gave their verdict.
    pub open spec fn pre_tool(self, outcome: PreToolResult, trim: bool) -> (TurnView, Action) {
        match outcome {
            PreToolResult::Block { reason, .. } => {
                let consecutive = self.consecutive_blocks + 1;
                let total = self.total_blocks + 1;
                let tripped = limit_reached(consecutive, total);
                let s = TurnView {
                    slots: self.slots.update(
                        self.cursor,
                        Some(blocked_result(self.batch[self.cursor].id, reason@)),
                    ),
                    blocked: self.blocked.update(self.cursor, true),
                    consecutive_blocks: consecutive,
                    total_blocks: total,
                    tripped,
                    ..self
                };
                match tripped {
                    Some(tag) => if self.parallel {
                        (TurnView { phase: Phase::AwaitJoin, ..s }, Action::JoinWorkers)
                    } else {
                        s.abandon(tag)
                    },
                    None => s.advance(trim),
                }
            },
            PreToolResult::Allow => {
                let s = TurnView { consecutive_blocks: 0, ..self };
                if self.parallel {
                    (
                        TurnView {
                            phase: Phase::AwaitSpawn,
                            spawned: self.spawned.push(self.cursor),
                            ..s
                        },
                        Action::SpawnWorker { index: self.cursor as usize },
                    )
                } else {
                    (
                        TurnView { phase: Phase::AwaitTool, ..s },
                        Action::InvokeTool { index: self.cursor as usize },
                    )
                }
            },
        }
    }

    /// The request at the cursor is dealt with: on to the next one, or, after
    /// the last, to the workers or to the end of the batch.
    pub open spec fn advance(self, trim: bool) -> (TurnView, Action) {
        let next = self.cursor + 1;
        if next < self.batch.len() {
            (
                TurnView { cursor: next, phase: Phase::AwaitPreHook, ..self },
                Action::RunPreToolUse { index: next as usize },
            )
        } else if self.parallel {
            (TurnView { phase: Phase::AwaitJoin, ..self }, Action::JoinWorkers)
        } else {
            self.finish_batch(trim)
        }
    }

    /// The tool at the cursor, which ran in place, finished.
    pub open spec fn tool_finished(self, content: Seq<char>, is_error: bool) -> (TurnView, Action) {
        (
            TurnView {
                slots: self.slots.update(
                    self.cursor,
                    Some(tool_result(self.batch[self.cursor].id, content, is_error)),
                ),
                phase: Phase::AwaitPostHook,
                ..self
            },
            Action::RunPostToolUse { index: self.cursor as usize },
        )
    }

    /// The workers ended with these outcomes.
    pub open spec fn workers_joined(self, outcomes: Seq<WorkerOutcome>, trim: bool) -> (
        TurnView,
        Action,
    ) {
        let s = TurnView {
            slots: filled(self.slots, self.batch, self.spawned, outcomes, 0),
            ..self
        };
        match self.tripped {
            Some(tag) => s.abandon(tag),
            None => s.post_from(0, trim),
        }
    }

    /// The hooks after a tool run for the first request from `from` on that
    /// was not blocked; where there is none, the batch ends.
    pub open spec fn post_from(self, from: int, trim: bool) -> (TurnView, Action)
        decreases self.batch.len() - from,
    {
        if from < 0 || from >= self.batch.len() {
            self.finish_batch(trim)
        } else if self.blocked[from] {
            self.post_from(from + 1, trim)
        } else {
            (
                TurnView { cursor: from, phase: Phase::AwaitPostHook, ..self },
                Action::RunPostToolUse { index: from as usize },
            )
        }
    }

    /// The hooks after the tool at the cursor gave their verdict.
    pub open spec fn post_tool(self, outcome: PostToolResult, trim: bool) -> (TurnView, Action) {
        let s = TurnView { signal: self.signal || outcome is Signal, ..self };
        if self.parallel {
            s.post_from(self.cursor + 1, trim)
        } else {
            s.advance(trim)
        }
    }

    /// The batch is complete: its answers become one user message, in the
    /// order of the requests. The turn ends if a hook signalled; else the
    /// loop goes on.
    pub open spec fn finish_batch(self, trim: bool) -> (TurnView, Action) {
        let message = MessageView { role: "user"@, content: self.results() };
        let s = TurnView {
            conversation: self.conversation.push(message),
            journal: self.journal.push(JournalView { message, usage: None }),
            tool_iterations: self.tool_iterations + 1,
            ..self
        };
        if self.signal {
            s.stop(StopTag::ConvergenceSignal)
        } else {
            s.loop_top(trim)
        }
    }

    /// The transition on `event`; `trim` says whether the trim gate is in
    /// force. An event that the state does not wait for changes nothing.
    pub open spec fn step_with(self, event: Event, trim: bool) -> (TurnView, Action) {
        match (self.phase, event) {
            (Phase::AwaitApi, Event::ApiReplied(reply)) => self.api_replied(
                views(reply.blocks@),
                reply.stop_reason,
                reply.usage,
                trim,
            ),
            (Phase::AwaitApi, Event::ApiFailed(error)) => self.api_failed(
                error_class(error),
                retry_after_of(error),
            ),
            (Phase::AwaitDelay, Event::DelayElapsed) => (
                TurnView { phase: Phase::AwaitApi, attempt: self.attempt + 1, ..self },
                Action::CallApi,
            ),
            (Phase::AwaitPreHook, Event::PreTool(outcome)) => self.pre_tool(outcome, trim),
            (Phase::AwaitSpawn, Event::WorkerSpawned) => self.advance(trim),
            (Phase::AwaitTool, Event::ToolFinished { content, is_error }) => self.tool_finished(
                content@,
                is_error,
            ),
            (Phase::AwaitJoin, Event::WorkersJoined(outcomes)) => self.workers_joined(
                outcomes@,
                trim,
            ),
            (Phase::AwaitPostHook, Event::PostTool(outcome)) => self.post_tool(outcome, trim),
            (Phase::AwaitStop, Event::StopHookDone) => (
                TurnView { phase: Phase::Idle, ..self },
                Action::Finished,
            ),
            _ => (self, Action::Rejected),
        }
    }

    /// The transition on `event`.
    pub open spec fn step(self, event: Event) -> (TurnView, Action) {
        self.step_with(event, true)
    }
}

/// The views of the slots.
pub open spec fn slot_views(slots: Seq<Option<ContentBlock>>) -> Seq<Option<BlockView>> {
    Seq::new(
        slots.len(),
        |i: int|
            match slots[i] {
                Some(b) => Some(b@),
                None => None,
            },
    )
}

/// The indices as integers.
pub open spec fn index_views(indices: Seq<usize>) -> Seq<int> {
    Seq::new(indices.len(), |i: int| indices[i] as int)
}

/// The controller of a conversation's turns.
pub struct TurnController {
    conversation: Vec<Message>,
    journal: Vec<JournalEntry>,
    phase: Phase,
    attempt: usize,
    tool_iterations: usize,
    continuation_count: usize,
    last_input_tokens: u64,
    blocks: BlockBudget,
    total_tokens: u64,
    stop_tag: StopTag,
    batch: Vec<ToolCall>,
    parallel: bool,
    cursor: usize,
    slots: Vec<Option<ContentBlock>>,
    blocked: Vec<bool>,
    spawned: Vec<usize>,
    signal: bool,
    tripped: Option<StopTag>,
}

impl View for TurnController {
    type V = TurnView;

    closed spec fn view(&self) -> TurnView {
        TurnView {
            conversation: views(self.conversation@),
            journal: views(self.journal@),
            phase: self.phase,
            attempt: self.attempt as int,
            tool_iterations: self.tool_iterations as int,
            continuation_count: self.continuation_count as int,
            last_input_tokens: self.last_input_tokens,
            consecutive_blocks: self.blocks.consecutive as int,
            total_blocks: self.blocks.total as int,
            total_tokens: self.total_tokens,
            stop_tag: self.stop_tag,
            batch: views(self.batch@),
            parallel: self.parallel,
            cursor: self.cursor as int,
            slots: slot_views(self.slots@),
            blocked: self.blocked@,
            spawned: index_views(self.spawned@),
            signal: self.signal,
            tripped: self.tripped,
        }
    }
}

/// The valid tool requests among the blocks, in their order.
fn collect_tool_calls(content: &Vec<ContentBlock>) -> (batch: Vec<ToolCall>)
    ensures
        views(batch@) == tool_calls(views(content@)),
{
    let mut batch: Vec<ToolCall> = Vec::new();
    let mut i: usize = 0;
    assert(views(content@).take(0) =~= Seq::<BlockView>::empty());
    while i < content.len()
        invariant
            i <= content.len(),
            views(batch@) == tool_calls(views(content@).take(i as int)),
        decreases content.len() - i,
    {
        assert(views(content@).take(i + 1).drop_last() =~= views(content@).take(i as int));
        match &content[i] {
            ContentBlock::ToolUse { id, name, input } => {
                if !input.is_null() {
                    let ghost before = batch@;
                    let call = ToolCall { id: id.clone(), name: name.clone(), input: input.clone() };
                    batch.push(call);
                    assert(views(batch@) =~= views(before).push(call@));
                }
            },
            _ => {},
        }
        i = i + 1;
    }
    assert(views(content@).take(content@.len() as int) =~= views(content@));
    batch
}

/// Whether the batch is not empty and all its tools only read.
fn batch_is_pure(batch: &Vec<ToolCall>) -> (r: bool)
    ensures
        r == all_pure(views(batch@)),
{
    if batch.len() == 0 {
        return false;
    }
    let mut i: usize = 0;
    while i < batch.len()
        invariant
            i <= batch.len(),
            forall|k: int| 0 <= k < i ==> effect_of(#[trigger] views(batch@)[k].name) == ToolEffect::Pure,
        decreases batch.len() - i,
    {
        match tool_effect(batch[i].name.as_str()) {
            ToolEffect::Pure => {},
            ToolEffect::Mutating => {
                assert(effect_of(views(batch@)[i as int].name) != ToolEffect::Pure);
                return false;
            },
        }
        i = i + 1;
    }
    true
}

proof fn lemma_views_push<T: View>(s: Seq<T>, x: T)
    ensures
        views(s.push(x)) == views(s).push(x@),
{
    assert(views(s.push(x)) =~= views(s).push(x@));
}

proof fn lemma_views_drop_last<T: View>(s: Seq<T>)
    requires
        s.len() > 0,
    ensures
        views(s.drop_last()) == views(s).drop_last(),
        views(s).last() == s.last()@,
{
    assert(views(s.drop_last()) =~= views(s).drop_last());
}

impl TurnController {
    /// The invariant of the controller: that of its state, with its
    /// batch in order.
    pub open spec fn wf(&self) -> bool {
        self@.wf() && self@.tidy()
    }

    /// A controller with an empty conversation.
    pub fn new() -> (r: TurnController)
        ensures
            r.wf(),
            r@ == TurnView::initial(Seq::empty()),
    {
        assert(views(Seq::<Message>::empty()) =~= Seq::<MessageView>::empty());
        Self::with_conversation(Vec::new())
    }

    /// A controller that goes on from the given conversation.
    pub fn with_conversation(conversation: Vec<Message>) -> (r: TurnController)
        ensures
            r.wf(),
            r@ == TurnView::initial(views(conversation@)),
    {
        let r = TurnController {
            conversation,
            journal: Vec::new(),
            phase: Phase::Idle,
            attempt: 0,
            tool_iterations: 0,
            continuation_count: 0,
            last_input_tokens: 0,
            blocks: BlockBudget::new(),
            total_tokens: 0,
            stop_tag: StopTag::EndTurn,
            batch: Vec::new(),
            parallel: false,
            cursor: 0,
            slots: Vec::new(),
            blocked: Vec::new(),
            spawned: Vec::new(),
            signal: false,
            tripped: None,
        };
        assert(r@.journal =~= Seq::empty());
        assert(r@.batch =~= Seq::empty());
        assert(r@.slots =~= Seq::empty());
        assert(r@.spawned =~= Seq::empty());
        assert(r@ == TurnView::initial(views(conversation@)));
        r
    }

    pub fn conversation(&self) -> (r: &Vec<Message>)
        ensures
            views(r@) == self@.conversation,
    {
        &self.conversation
    }

    pub fn phase(&self) -> (r: Phase)
        ensures
            r == self@.phase,
    {
        self.phase
    }

    /// The reason for which the turn ended, once it has.
    pub fn stop_tag(&self) -> (r: StopTag)
        ensures
            r == self@.stop_tag,
    {
        self.stop_tag
    }

    pub fn tool_iterations(&self) -> (r: usize)
        ensures
            r == self@.tool_iterations,
    {
        self.tool_iterations
    }

    pub fn total_tokens(&self) -> (r: u64)
        ensures
            r == self@.total_tokens,
    {
        self.total_tokens
    }

    pub fn continuation_count(&self) -> (r: usize)
        ensures
            r == self@.continuation_count,
    {
        self.continuation_count
    }

    pub fn last_input_tokens(&self) -> (r: u64)
        ensures
            r == self@.last_input_tokens,
    {
        self.last_input_tokens
    }

    pub fn consecutive_block_count(&self) -> (r: usize)
        ensures
            r == self@.consecutive_blocks,
    {
        self.blocks.consecutive
    }

    pub fn total_block_count(&self) -> (r: usize)
        ensures
            r == self@.total_blocks,
    {
        self.blocks.total
    }

    /// The number of requests in the batch.
    pub fn batch_len(&self) -> (r: usize)
        ensures
            r == self@.batch.len(),
    {
        self.batch.len()
    }

    /// Whether the batch runs on workers.
    pub fn is_parallel(&self) -> (r: bool)
        ensures
            r == self@.parallel,
    {
        self.parallel
    }

    /// The request at `index` of the batch.
    pub fn tool_call(&self, index: usize) -> (r: Option<&ToolCall>)
        ensures
            match r {
                Some(call) => index < self@.batch.len() && call@ == self@.batch[index as int],
                None => index >= self@.batch.len(),
            },
    {
        if index < self.batch.len() {
            Some(&self.batch[index])
        } else {
            None
        }
    }

    /// The answer in slot `index`, as the hooks after a tool see it: its
    /// content and whether it is a failure.
    pub fn tool_outcome(&self, index: usize) -> (r: Option<(String, bool)>)
        requires
            self.wf(),
        ensures
            match r {
                Some((content, is_error)) => index < self@.batch.len() && (
                self@.slot_result(index as int) matches BlockView::ToolResult {
                    content: c,
                    is_error: e,
                    ..
                } && c == content@ && is_error == (e == Some(true))),
                None => index >= self@.batch.len(),
            },
    {
        if index >= self.slots.len() {
            return None;
        }
        match &self.slots[index] {
            Some(ContentBlock::ToolResult { content, is_error, .. }) => {
                let failed = match is_error {
                    Some(flag) => *flag,
                    None => false,
                };
                Some((content.clone(), failed))
            },
            Some(_) => {
                proof {
                    assert(self@.slots[index as int] is Some);
                }
                Some((owned("tool panicked"), true))
            },
            None => Some((owned("tool panicked"), true)),
        }
    }

    /// Hands out the messages appended since the journal was last taken.
    pub fn take_journal(&mut self) -> (r: Vec<JournalEntry>)
        requires
            old(self).wf(),
        ensures
            final(self).wf(),
            views(r@) == old(self)@.journal,
            final(self)@ == (TurnView { journal: Seq::empty(), ..old(self)@ }),
    {
        let mut out: Vec<JournalEntry> = Vec::new();
        out.append(&mut self.journal);
        assert(views(out@) =~= old(self)@.journal);
        assert(final(self)@.journal =~= Seq::empty());
        out
    }

    fn stop(&mut self, tag: StopTag) -> (action: Action)
        ensures
            (final(self)@, action) == old(self)@.stop(tag),
    {
        self.phase = Phase::AwaitStop;
        self.stop_tag = tag;
        Action::RunStop { tag }
    }

    fn loop_top(&mut self) -> (action: Action)
        ensures
            (final(self)@, action) == old(self)@.loop_top(true),
    {
        trim_if_needed(&mut self.conversation, self.last_input_tokens);
        if self.tool_iterations >= MAX_TOOL_ITERATIONS {
            recover_conversation(&mut self.conversation);
            self.stop(StopTag::IterationLimit)
        } else {
            self.phase = Phase::AwaitApi;
            self.attempt = 0;
            Action::CallApi
        }
    }

    fn append(&mut self, message: Message, usage: Option<Usage>)
        ensures
            final(self).conversation@.len() == old(self).conversation@.len() + 1,
            final(self).conversation@.last()@ == message@,
            final(self)@ == (TurnView {
                conversation: old(self)@.conversation.push(message@),
                journal: old(self)@.journal.push(JournalView { message: message@, usage }),
                ..old(self)@
            }),
    {
        proof {
            lemma_views_push(self.conversation@, message);
        }
        let entry = JournalEntry { message: message.clone(), usage };
        proof {
            lemma_views_push(self.journal@, entry);
        }
        self.journal.push(entry);
        self.conversation.push(message);
    }

    /// Begins a turn with the prompt `prompt`. Where a turn is under way,
    /// nothing changes and the call is rejected.
    pub fn begin_turn(&mut self, prompt: &str) -> (action: Action)
        requires
            old(self).wf(),
        ensures
            final(self).wf(),
            (final(self)@, action) == old(self)@.begin(prompt@, true),
    {
        match self.phase {
            Phase::Idle => {},
            _ => {
                return Action::Rejected;
            },
        }
        self.attempt = 0;
        self.tool_iterations = 0;
        self.continuation_count = 0;
        self.last_input_tokens = 0;
        self.blocks = BlockBudget::new();
        self.total_tokens = 0;
        self.stop_tag = StopTag::EndTurn;
        self.batch = Vec::new();
        self.parallel = false;
        self.cursor = 0;
        self.slots = Vec::new();
        self.blocked = Vec::new();
        self.spawned = Vec::new();
        self.signal = false;
        self.tripped = None;
        assert(self@ == (TurnView {
            journal: old(self)@.journal,
            ..TurnView::initial(old(self)@.conversation)
        })) by {
            assert(self@.batch =~= Seq::empty());
            assert(self@.slots =~= Seq::empty());
            assert(self@.spawned =~= Seq::empty());
        }
        let message = user_text_message(prompt);
        assert(message@ == user_text(prompt@));
        self.append(message, None);
        let action = self.loop_top();
        proof {
            lemma_begin_wf(old(self)@, prompt@, true);
        }
        action
    }

    fn begin_batch(&mut self) -> (action: Action)
        requires
            old(self).conversation@.len() > 0,
        ensures
            (final(self)@, action) == old(self)@.begin_batch(old(self)@.conversation.last().content),
    {
        let n = self.conversation.len();
        let batch = collect_tool_calls(&self.conversation[n - 1].content);
        let count = batch.len();
        self.parallel = batch_is_pure(&batch);
        self.batch = batch;
        self.cursor = 0;
        let mut slots: Vec<Option<ContentBlock>> = Vec::new();
        let mut blocked: Vec<bool> = Vec::new();
        let mut i: usize = 0;
        while i < count
            invariant
                i <= count,
                slots@.len() == i,
                blocked@.len() == i,
                forall|k: int| 0 <= k < i ==> slots@[k] is None,
                forall|k: int| 0 <= k < i ==> !blocked@[k],
            decreases count - i,
        {
            slots.push(None);
            blocked.push(false);
            i = i + 1;
        }
        self.slots = slots;
        self.blocked = blocked;
        self.spawned = Vec::new();
        self.signal = false;
        self.tripped = None;
        assert(self@.slots =~= Seq::new(count as nat, |i: int| None::<BlockView>));
        assert(self@.blocked =~= Seq::new(count as nat, |i: int| false));
        assert(self@.spawned =~= Seq::empty());
        if count == 0 {
            self.stop(StopTag::EndTurn)
        } else {
            self.phase = Phase::AwaitPreHook;
            Action::RunPreToolUse { index: 0 }
        }
    }

    fn api_replied(&mut self, reply: ApiReply) -> (action: Action)
        requires
            old(self)@.wf(),
        ensures
            (final(self)@, action) == old(self)@.api_replied(
                views(reply.blocks@),
                reply.stop_reason,
                reply.usage,
                true,
            ),
    {
        let ApiReply { blocks, stop_reason, usage } = reply;
        self.last_input_tokens = usage.input_tokens;
        self.total_tokens = self.total_tokens.saturating_add(
            usage.input_tokens.saturating_add(usage.output_tokens),
        );
        let content = match stop_reason {
            StopReason::MaxTokens => filter_null_input_tool_use(blocks),
            _ => blocks,
        };
        let message = Message::assistant(content);
        self.append(message, Some(usage));
        let n = self.conversation.len();
        match stop_reason {
            StopReason::EndTurn => self.stop(StopTag::EndTurn),
            StopReason::ToolUse => self.begin_batch(),
            StopReason::MaxTokens => {
                match classify_max_tokens(&self.conversation[n - 1].content, self.continuation_count) {
                    MaxTokensAction::BreakEmpty => self.stop(StopTag::ContinuationCap),
                    MaxTokensAction::BreakCapReached => self.stop(StopTag::ContinuationCap),
                    MaxTokensAction::DispatchTools => self.begin_batch(),
                    MaxTokensAction::Continue => {
                        self.continuation_count = self.continuation_count + 1;
                        let again = user_text_message("Continue from where you left off.");
                        self.append(again, None);
                        self.loop_top()
                    },
                }
            },
        }
    }

    fn api_failed(&mut self, error: AgentError) -> (action: Action)
        requires
            old(self)@.wf(),
        ensures
            (final(self)@, action) == old(self)@.api_failed(
                error_class(error),
                retry_after_of(error),
            ),
    {
        let permanent = match crate::api::classify_error(&error) {
            ErrorClass::Permanent => true,
            ErrorClass::Transient => false,
        };
        if permanent || self.attempt >= MAX_RETRIES {
            recover_conversation(&mut self.conversation);
            self.stop(StopTag::ApiError)
        } else {
            self.phase = Phase::AwaitDelay;
            Action::Sleep { seconds: retry_delay(&error, self.attempt) }
        }
    }

    fn abandon(&mut self, tag: StopTag) -> (action: Action)
        requires
            old(self).conversation@.len() > 0,
        ensures
            (final(self)@, action) == old(self)@.abandon(tag),
    {
        proof {
            lemma_views_drop_last(self.conversation@);
        }
        self.conversation.pop();
        assert(self.conversation@ =~= old(self).conversation@.drop_last());
        self.stop(tag)
    }

    fn set_slot(&mut self, index: usize, block: ContentBlock)
        requires
            index < old(self).slots@.len(),
        ensures
            final(self).spawned == old(self).spawned,
            final(self).batch == old(self).batch,
            final(self).conversation == old(self).conversation,
            final(self).slots@.len() == old(self).slots@.len(),
            final(self)@ == (TurnView {
                slots: old(self)@.slots.update(index as int, Some(block@)),
                ..old(self)@
            }),
    {
        self.slots.set(index, Some(block));
        assert(slot_views(self.slots@) =~= slot_views(old(self).slots@).update(
            index as int,
            Some(block@),
        ));
    }

    fn finish_batch(&mut self) -> (action: Action)
        requires
            old(self)@.wf(),
            old(self)@.tool_iterations < MAX_TOOL_ITERATIONS,
        ensures
            (final(self)@, action) == old(self)@.finish_batch(true),
    {
        let mut results: Vec<ContentBlock> = Vec::new();
        let mut i: usize = 0;
        while i < self.batch.len()
            invariant
                *self == *old(self),
                self.slots@.len() == self.batch@.len(),
                i <= self.batch.len(),
                results@.len() == i,
                forall|k: int| 0 <= k < i ==> (#[trigger] results@[k])@ == self@.slot_result(k),
            decreases self.batch.len() - i,
        {
            let block = match &self.slots[i] {
                Some(b) => b.clone(),
                None => ContentBlock::ToolResult {
                    tool_use_id: self.batch[i].id.clone(),
                    content: owned("tool panicked"),
                    is_error: Some(true),
                },
            };
            assert(block@ == self@.slot_result(i as int));
            results.push(block);
            i = i + 1;
        }
        assert(views(results@) =~= self@.results());
        let message = Message::user(results);
        self.append(message, None);
        self.tool_iterations = self.tool_iterations + 1;
        if self.signal {
            self.stop(StopTag::ConvergenceSignal)
        } else {
            self.loop_top()
        }
    }

    fn advance(&mut self) -> (action: Action)
        requires
            old(self)@.wf(),
            old(self)@.at_cursor(),
        ensures
            (final(self)@, action) == old(self)@.advance(true),
    {
        let count = self.batch.len();
        assert(self.cursor < count);
        let next = self.cursor + 1;
        if next < count {
            self.cursor = next;
            self.phase = Phase::AwaitPreHook;
            Action::RunPreToolUse { index: next }
        } else if self.parallel {
            self.phase = Phase::AwaitJoin;
            Action::JoinWorkers
        } else {
            self.finish_batch()
        }
    }

    fn pre_tool(&mut self, outcome: PreToolResult) -> (action: Action)
        requires
            old(self)@.wf(),
            old(self)@.phase == Phase::AwaitPreHook,
        ensures
            (final(self)@, action) == old(self)@.pre_tool(outcome, true),
    {
        match outcome {
            PreToolResult::Block { reason, blocked_by } => {
                let cursor = self.cursor;
                let block = ContentBlock::ToolResult {
                    tool_use_id: self.batch[cursor].id.clone(),
                    content: reason,
                    is_error: Some(true),
                };
                self.set_slot(cursor, block);
                self.blocked.set(cursor, true);
                let tripped = self.blocks.record_block();
                self.tripped = tripped;
                match tripped {
                    Some(tag) => {
                        if self.parallel {
                            self.phase = Phase::AwaitJoin;
                            Action::JoinWorkers
                        } else {
                            self.abandon(tag)
                        }
                    },
                    None => {
                        proof {
                            lemma_set_slot_wf(old(self)@, self@);
                        }
                        self.advance()
                    },
                }
            },
            PreToolResult::Allow => {
                self.blocks.record_allow();
                if self.parallel {
                    self.phase = Phase::AwaitSpawn;
                    self.spawned.push(self.cursor);
                    assert(index_views(self.spawned@) =~= index_views(old(self).spawned@).push(
                        self.cursor as int,
                    ));
                    Action::SpawnWorker { index: self.cursor }
                } else {
                    self.phase = Phase::AwaitTool;
                    Action::InvokeTool { index: self.cursor }
                }
            },
        }
    }

    fn tool_finished(&mut self, content: String, is_error: bool) -> (action: Action)
        requires
            old(self)@.wf(),
            old(self)@.phase == Phase::AwaitTool,
        ensures
            (final(self)@, action) == old(self)@.tool_finished(content@, is_error),
    {
        let cursor = self.cursor;
        let block = ContentBlock::tool_result(self.batch[cursor].id.as_str(), content, is_error);
        self.set_slot(cursor, block);
        self.phase = Phase::AwaitPostHook;
        Action::RunPostToolUse { index: cursor }
    }

    fn post_from(&mut self, from: usize) -> (action: Action)
        requires
            old(self)@.wf(),
            old(self)@.tool_iterations < MAX_TOOL_ITERATIONS,
        ensures
            (final(self)@, action) == old(self)@.post_from(from as int, true),
    {
        let mut at: usize = from;
        while at < self.batch.len() && self.blocked[at]
            invariant
                *self == *old(self),
                self@.wf(),
                from <= at,
                self@.post_from(at as int, true) == self@.post_from(from as int, true),
            decreases self.batch.len() - at,
        {
            at = at + 1;
        }
        if at < self.batch.len() {
            self.cursor = at;
            self.phase = Phase::AwaitPostHook;
            Action::RunPostToolUse { index: at }
        } else {
            self.finish_batch()
        }
    }

    fn post_tool(&mut self, outcome: PostToolResult) -> (action: Action)
        requires
            old(self)@.wf(),
            old(self)@.phase == Phase::AwaitPostHook,
        ensures
            (final(self)@, action) == old(self)@.post_tool(outcome, true),
    {
        match outcome {
            PostToolResult::Signal { .. } => {
                self.signal = true;
            },
            PostToolResult::Continue => {},
        }
        assert(self@ == (TurnView { signal: old(self)@.signal || outcome is Signal, ..old(self)@ }));
        let count = self.batch.len();
        assert(self.cursor < count);
        if self.parallel {
            self.post_from(self.cursor + 1)
        } else {
            self.advance()
        }
    }

    fn workers_joined(&mut self, outcomes: Vec<WorkerOutcome>) -> (action: Action)
        requires
            old(self)@.wf(),
            old(self)@.phase == Phase::AwaitJoin,
        ensures
            (final(self)@, action) == old(self)@.workers_joined(outcomes@, true),
    {
        let mut k: usize = 0;
        while k < self.spawned.len() && k < outcomes.len()
            invariant
                self@.wf(),
                self@.phase == Phase::AwaitJoin,
                self@ == (TurnView { slots: self@.slots, ..old(self)@ }),
                self.spawned == old(self).spawned,
                self.batch == old(self).batch,
                filled(self@.slots, self@.batch, self@.spawned, outcomes@, k as int) == filled(
                    old(self)@.slots,
                    old(self)@.batch,
                    old(self)@.spawned,
                    outcomes@,
                    0,
                ),
            decreases self.spawned.len() - k,
        {
            let at = self.spawned[k];
            assert(self@.spawned[k as int] == at);
            let block = match &outcomes[k] {
                WorkerOutcome::Finished { content, is_error } => ContentBlock::tool_result(
                    self.batch[at].id.as_str(),
                    content.clone(),
                    *is_error,
                ),
                WorkerOutcome::Panicked => ContentBlock::ToolResult {
                    tool_use_id: self.batch[at].id.clone(),
                    content: owned("tool panicked"),
                    is_error: Some(true),
                },
            };
            assert(block@ == outcome_result(self@.batch[at as int].id, outcomes@[k as int]));
            let ghost before = self@;
            self.set_slot(at, block);
            proof {
                lemma_set_slot_wf(before, self@);
            }
            k = k + 1;
        }
        match self.tripped {
            Some(tag) => self.abandon(tag),
            None => self.post_from(0),
        }
    }

    /// Takes the transition on `event` and says what is to be done next.
    pub fn step(&mut self, event: Event) -> (action: Action)
        requires
            old(self).wf(),
        ensures
            final(self).wf(),
            (final(self)@, action) == old(self)@.step(event),
    {
        proof {
            lemma_step_wf(self@, event, true);
            lemma_step_tidy(self@, event, true);
        }
        match (self.phase, event) {
            (Phase::AwaitApi, Event::ApiReplied(reply)) => self.api_replied(reply),
            (Phase::AwaitApi, Event::ApiFailed(error)) => self.api_failed(error),
            (Phase::AwaitDelay, Event::DelayElapsed) => {
                self.phase = Phase::AwaitApi;
                self.attempt = self.attempt + 1;
                Action::CallApi
            },
            (Phase::AwaitPreHook, Event::PreTool(outcome)) => self.pre_tool(outcome),
            (Phase::AwaitSpawn, Event::WorkerSpawned) => self.advance(),
            (Phase::AwaitTool, Event::ToolFinished { content, is_error }) => self.tool_finished(
                content,
                is_error,
            ),
            (Phase::AwaitJoin, Event::WorkersJoined(outcomes)) => self.workers_joined(outcomes),
            (Phase::AwaitPostHook, Event::PostTool(outcome)) => self.post_tool(outcome),
            (Phase::AwaitStop, Event::StopHookDone) => {
                self.phase = Phase::Idle;
                Action::Finished
            },
            _ => Action::Rejected,
        }
    }
}

/// Writing an answer for the right request into a slot keeps the invariant.
proof fn lemma_set_slot_wf(before: TurnView, after: TurnView)
    requires
        before.wf(),
        exists|i: int, b: BlockView|
            0 <= i < before.slots.len() && (b matches BlockView::ToolResult { tool_use_id, .. }
                && tool_use_id == before.batch[i].id) && after.slots == before.slots.update(
                i,
                Some(b),
            ),
        after.batch == before.batch,
        after.blocked.len() == before.blocked.len(),
        after.spawned == before.spawned,
        after.phase == before.phase,
        after.cursor == before.cursor,
        after.attempt == before.attempt,
        after.tool_iterations == before.tool_iterations,
        after.continuation_count == before.continuation_count,
                after.conversation == before.conversation,
        after.parallel == before.parallel,
        after.tripped is None ==> limit_reached(after.consecutive_blocks, after.total_blocks)
            is None,
        after.tripped == before.tripped || after.tripped is None,
        0 <= after.consecutive_blocks <= after.total_blocks <= crate::limits::MAX_TOTAL_BLOCKS,
        after.consecutive_blocks <= crate::limits::MAX_CONSECUTIVE_BLOCKS,
    ensures
        after.wf(),
{
}

/// Beginning a turn keeps the invariant.
pub proof fn lemma_begin_wf(s: TurnView, prompt: Seq<char>, trim: bool)
    requires
        s.wf(),
    ensures
        s.begin(prompt, trim).0.wf(),
{
}

/// Every transition keeps the invariant.
pub proof fn lemma_step_wf(s: TurnView, event: Event, trim: bool)
    requires
        s.wf(),
    ensures
        s.step_with(event, trim).0.wf(),
{
    match (s.phase, event) {
        (Phase::AwaitApi, Event::ApiReplied(reply)) => {
            lemma_api_replied_wf(s, views(reply.blocks@), reply.stop_reason, reply.usage, trim);
        },
        (Phase::AwaitPreHook, Event::PreTool(outcome)) => {
            lemma_pre_tool_wf(s, outcome, trim);
        },
        (Phase::AwaitSpawn, Event::WorkerSpawned) => {
            lemma_advance_wf(s, trim);
        },
        (Phase::AwaitJoin, Event::WorkersJoined(outcomes)) => {
            lemma_filled_wf(s, outcomes@, 0);
            let filled_state = TurnView {
                slots: filled(s.slots, s.batch, s.spawned, outcomes@, 0),
                ..s
            };
            if s.tripped is None {
                lemma_post_from_wf(filled_state, 0, trim);
            }
        },
        (Phase::AwaitPostHook, Event::PostTool(outcome)) => {
            let t = TurnView { signal: s.signal || outcome is Signal, ..s };
            if s.parallel {
                lemma_post_from_wf(t, s.cursor + 1, trim);
            } else {
                lemma_advance_wf(t, trim);
            }
        },
        _ => {},
    }
}

proof fn lemma_tool_calls_len(content: Seq<BlockView>)
    ensures
        tool_calls(content).len() <= content.len(),
    decreases content.len(),
{
    if content.len() > 0 {
        lemma_tool_calls_len(content.drop_last());
    }
}

proof fn lemma_api_replied_wf(
    s: TurnView,
    blocks: Seq<BlockView>,
    stop_reason: StopReason,
    usage: Usage,
    trim: bool,
)
    requires
        s.wf(),
        s.phase == Phase::AwaitApi,
    ensures
        s.api_replied(blocks, stop_reason, usage, trim).0.wf(),
{
    let content = if stop_reason == StopReason::MaxTokens {
        without_null_tool_use(blocks)
    } else {
        blocks
    };
    
}

proof fn lemma_finish_batch_wf(s: TurnView, trim: bool)
    requires
        s.wf(),
        s.in_batch(),
        s.tripped is None,
    ensures
        s.finish_batch(trim).0.wf(),
{
}

proof fn lemma_advance_wf(s: TurnView, trim: bool)
    requires
        s.wf(),
        s.at_cursor(),
        s.phase == Phase::AwaitPreHook || s.phase == Phase::AwaitSpawn || !s.parallel,
        s.tripped is None,
    ensures
        s.advance(trim).0.wf(),
{
    lemma_finish_batch_wf(s, trim);
}

proof fn lemma_post_from_wf(s: TurnView, from: int, trim: bool)
    requires
        s.wf(),
        s.in_batch(),
        s.tripped is None,
    ensures
        s.post_from(from, trim).0.wf(),
    decreases s.batch.len() - from,
{
    if from < 0 || from >= s.batch.len() {
        lemma_finish_batch_wf(s, trim);
    } else if s.blocked[from] {
        lemma_post_from_wf(s, from + 1, trim);
    }
}

proof fn lemma_pre_tool_wf(s: TurnView, outcome: PreToolResult, trim: bool)
    requires
        s.wf(),
        s.phase == Phase::AwaitPreHook,
    ensures
        s.pre_tool(outcome, trim).0.wf(),
{
    match outcome {
        PreToolResult::Block { reason, .. } => {
            let consecutive = s.consecutive_blocks + 1;
            let total = s.total_blocks + 1;
            let tripped = limit_reached(consecutive, total);
            let t = TurnView {
                slots: s.slots.update(s.cursor, Some(blocked_result(s.batch[s.cursor].id, reason@))),
                blocked: s.blocked.update(s.cursor, true),
                consecutive_blocks: consecutive,
                total_blocks: total,
                tripped,
                ..s
            };
            if tripped is None {
                assert(t.wf());
                lemma_advance_wf(t, trim);
            }
        },
        PreToolResult::Allow => {},
    }
}

pub proof fn lemma_filled_wf(s: TurnView, outcomes: Seq<WorkerOutcome>, from: int)
    requires
        s.wf(),
        0 <= from,
    ensures
        (TurnView { slots: filled(s.slots, s.batch, s.spawned, outcomes, from), ..s }).wf(),
    decreases s.spawned.len() - from,
{
    if from >= s.spawned.len() || from >= outcomes.len() {
        assert((TurnView { slots: s.slots, ..s }) == s);
    } else {
        let at = s.spawned[from];
        let next = s.slots.update(at, Some(outcome_result(s.batch[at].id, outcomes[from])));
        let t = TurnView { slots: next, ..s };
        assert(t.wf());
        lemma_filled_wf(t, outcomes, from + 1);
    }
}


proof fn lemma_finish_batch_tidy(s: TurnView, trim: bool)
    requires
        s.no_worker_for_blocked(),
    ensures
        s.finish_batch(trim).0.tidy(),
        s.stop(StopTag::EndTurn).0.tidy(),
{
}

proof fn lemma_advance_tidy(s: TurnView, trim: bool)
    requires
        s.wf(),
        s.at_cursor(),
        s.no_worker_for_blocked(),
        s.phase == Phase::AwaitSpawn ==> s.parallel,
        s.phase == Phase::AwaitPostHook || s.phase == Phase::AwaitTool ==> !s.parallel,
        s.parallel ==> forall|i: int|
            0 <= i < s.slots.len() ==> (#[trigger] s.slots[i] is Some ==> s.blocked[i]),
        forall|i: int|
            s.cursor < i < s.slots.len() ==> #[trigger] s.slots[i] is None && !s.blocked[i],
    ensures
        s.advance(trim).0.tidy(),
{
    lemma_finish_batch_tidy(s, trim);
}

proof fn lemma_post_from_tidy(s: TurnView, from: int, trim: bool)
    requires
        s.no_worker_for_blocked(),
        s.parallel,
    ensures
        s.post_from(from, trim).0.tidy(),
    decreases s.batch.len() - from,
{
    if from < 0 || from >= s.batch.len() {
        lemma_finish_batch_tidy(s, trim);
    } else if s.blocked[from] {
        lemma_post_from_tidy(s, from + 1, trim);
    }
}

proof fn lemma_pre_tool_tidy(s: TurnView, outcome: PreToolResult, trim: bool)
    requires
        s.wf(),
        s.tidy(),
        s.phase == Phase::AwaitPreHook,
    ensures
        s.pre_tool(outcome, trim).0.tidy(),
{
    match outcome {
        PreToolResult::Block { reason, .. } => {
            let consecutive = s.consecutive_blocks + 1;
            let total = s.total_blocks + 1;
            let tripped = limit_reached(consecutive, total);
            let t = TurnView {
                slots: s.slots.update(s.cursor, Some(blocked_result(s.batch[s.cursor].id, reason@))),
                blocked: s.blocked.update(s.cursor, true),
                consecutive_blocks: consecutive,
                total_blocks: total,
                tripped,
                ..s
            };
            assert forall|k: int| 0 <= k < t.spawned.len() implies !t.blocked[#[trigger] t.spawned[
                k
            ]] by {
                assert(s.spawned[k] < s.cursor);
                assert(!s.blocked[s.spawned[k]]);
            }
            assert(t.no_worker_for_blocked());
            match tripped {
                None => {
                    lemma_set_slot_wf(
                        s,
                        TurnView { blocked: s.blocked, ..t },
                    );
                    assert(t.wf());
                    lemma_advance_tidy(t, trim);
                },
                Some(tag) => {
                    lemma_finish_batch_tidy(
                        TurnView { conversation: t.conversation.drop_last(), ..t },
                        trim,
                    );
                },
            }
        },
        PreToolResult::Allow => {
            if s.parallel {
                let u = TurnView {
                    phase: Phase::AwaitSpawn,
                    spawned: s.spawned.push(s.cursor),
                    consecutive_blocks: 0,
                    ..s
                };
                assert forall|k: int| 0 <= k < u.spawned.len() implies !u.blocked[#[trigger] u.spawned[
                    k
                ]] by {
                    if k < s.spawned.len() {
                        assert(u.spawned[k] == s.spawned[k]);
                    } else {
                        assert(s.slots[s.cursor] is None && !s.blocked[s.cursor]);
                    }
                }
            }
        },
    }
}

proof fn lemma_filled_keeps_blocked(s: TurnView, outcomes: Seq<WorkerOutcome>)
    requires
        s.no_worker_for_blocked(),
    ensures
        (TurnView {
            slots: filled(s.slots, s.batch, s.spawned, outcomes, 0),
            ..s
        }).no_worker_for_blocked(),
{
    let t = TurnView { slots: filled(s.slots, s.batch, s.spawned, outcomes, 0), ..s };
    assert forall|k: int| 0 <= k < t.spawned.len() implies !t.blocked[#[trigger] t.spawned[k]] by {
        assert(!s.blocked[s.spawned[k]]);
    }
}

/// Beginning a turn keeps the batch in order.
pub proof fn lemma_begin_tidy(s: TurnView, prompt: Seq<char>, trim: bool)
    requires
        s.tidy(),
    ensures
        s.begin(prompt, trim).0.tidy(),
{
}

/// Every transition keeps the batch in order.
pub proof fn lemma_step_tidy(s: TurnView, event: Event, trim: bool)
    requires
        s.wf(),
        s.tidy(),
    ensures
        s.step_with(event, trim).0.tidy(),
{
    match (s.phase, event) {
        (Phase::AwaitApi, Event::ApiReplied(reply)) => {
            lemma_api_replied_tidy(s, views(reply.blocks@), reply.stop_reason, reply.usage, trim);
        },
        (Phase::AwaitApi, Event::ApiFailed(error)) => {},
        (Phase::AwaitDelay, Event::DelayElapsed) => {},
        (Phase::AwaitPreHook, Event::PreTool(outcome)) => {
            lemma_pre_tool_tidy(s, outcome, trim);
        },
        (Phase::AwaitSpawn, Event::WorkerSpawned) => {
            lemma_advance_tidy(s, trim);
        },
        (Phase::AwaitTool, Event::ToolFinished { content, is_error }) => {},
        (Phase::AwaitJoin, Event::WorkersJoined(outcomes)) => {
            let t = TurnView { slots: filled(s.slots, s.batch, s.spawned, outcomes@, 0), ..s };
            lemma_filled_keeps_blocked(s, outcomes@);
            match s.tripped {
                Some(tag) => {
                    lemma_finish_batch_tidy(
                        TurnView { conversation: t.conversation.drop_last(), ..t },
                        trim,
                    );
                },
                None => {
                    lemma_post_from_tidy(t, 0, trim);
                },
            }
        },
        (Phase::AwaitPostHook, Event::PostTool(outcome)) => {
            let t = TurnView { signal: s.signal || outcome is Signal, ..s };
            if s.parallel {
                lemma_post_from_tidy(t, s.cursor + 1, trim);
            } else {
                assert(t.wf());
                lemma_advance_tidy(t, trim);
            }
        },
        (Phase::AwaitStop, Event::StopHookDone) => {},
        _ => {},
    }
}

proof fn lemma_api_replied_tidy(
    s: TurnView,
    blocks: Seq<BlockView>,
    stop_reason: StopReason,
    usage: Usage,
    trim: bool,
)
    requires
        s.tidy(),
        s.phase == Phase::AwaitApi,
    ensures
        s.api_replied(blocks, stop_reason, usage, trim).0.tidy(),
{
}

} // verus!
