//! The limits of a turn: retries and their delays, the budget of blocked
//! tools, and the reasons for which a turn ends.

use crate::api::AgentError;
use vstd::prelude::*;

verus! {

/// A turn ends when it has dispatched this many batches of tools.
pub const MAX_TOOL_ITERATIONS: usize = 50;

/// How often a failed call is repeated.
pub const MAX_RETRIES: usize = 4;

/// The seconds to wait before each retry where the endpoint names no delay.
pub const BACKOFF_SCHEDULE: [u64; 4] = [2, 4, 8, 16];

/// The longest wait, in seconds, that the endpoint can ask for.
pub const RETRY_AFTER_CAP: u64 = 60;

/// This many blocked tools in a row end the turn.
pub const MAX_CONSECUTIVE_BLOCKS: usize = 3;

/// This many blocked tools end the turn.
pub const MAX_TOTAL_BLOCKS: usize = 10;

/// Why a turn ended.
#[derive(Debug, Clone, Copy, PartialEq, Eq, Structural)]
pub enum StopTag {
    EndTurn,
    IterationLimit,
    ApiError,
    ContinuationCap,
    BlockLimitConsecutive,
    BlockLimitTotal,
    ConvergenceSignal,
}

impl StopTag {
    /// The canonical name of the reason.
    pub open spec fn name(self) -> Seq<char> {
        match self {
            StopTag::EndTurn => "end_turn"@,
            StopTag::IterationLimit => "iteration_limit"@,
            StopTag::ApiError => "api_error"@,
            StopTag::ContinuationCap => "continuation_cap"@,
            StopTag::BlockLimitConsecutive => "block_limit_consecutive"@,
            StopTag::BlockLimitTotal => "block_limit_total"@,
            StopTag::ConvergenceSignal => "convergence_signal"@,
        }
    }

    /// The canonical name of the reason.
    pub fn as_str(&self) -> (r: &'static str)
        ensures
            r@ == self.name(),
    {
        match self {
            StopTag::EndTurn => "end_turn",
            StopTag::IterationLimit => "iteration_limit",
            StopTag::ApiError => "api_error",
            StopTag::ContinuationCap => "continuation_cap",
            StopTag::BlockLimitConsecutive => "block_limit_consecutive",
            StopTag::BlockLimitTotal => "block_limit_total",
            StopTag::ConvergenceSignal => "convergence_signal",
        }
    }
}

/// The delay that the endpoint asked for, where the fault carries one.
pub open spec fn retry_after_of(e: AgentError) -> Option<u64> {
    match e {
        AgentError::HttpError { retry_after, .. } => retry_after,
        _ => None,
    }
}

/// The seconds of the schedule for the retry after attempt `attempt`.
pub open spec fn backoff(attempt: int) -> u64 {
    if attempt == 0 {
        2
    } else if attempt == 1 {
        4
    } else if attempt == 2 {
        8
    } else {
        16
    }
}

/// The seconds to wait before the retry that follows attempt `attempt`: what
/// the endpoint asked for, capped, or else the schedule's entry.
pub open spec fn delay_for(retry_after: Option<u64>, attempt: int) -> u64 {
    match retry_after {
        Some(seconds) => if seconds <= RETRY_AFTER_CAP {
            seconds
        } else {
            RETRY_AFTER_CAP
        },
        None => backoff(attempt),
    }
}

/// The seconds to wait before retrying after the fault `error` of attempt
/// `attempt`.
pub fn retry_delay(error: &AgentError, attempt: usize) -> (seconds: u64)
    requires
        attempt < MAX_RETRIES,
    ensures
        seconds == delay_for(retry_after_of(*error), attempt as int),
        retry_after_of(*error) is Some ==> seconds <= RETRY_AFTER_CAP,
        retry_after_of(*error) is None ==> seconds == BACKOFF_SCHEDULE[attempt as int],
{
    match error {
        AgentError::HttpError { retry_after: Some(seconds), .. } => {
            if *seconds <= RETRY_AFTER_CAP {
                *seconds
            } else {
                RETRY_AFTER_CAP
            }
        },
        _ => BACKOFF_SCHEDULE[attempt],
    }
}

/// The counters of blocked tools within a turn.
#[derive(Debug, Clone, Copy, PartialEq, Eq, Structural)]
pub struct BlockBudget {
    /// Blocks since the last tool that was allowed.
    pub consecutive: usize,
    /// Blocks since the turn began.
    pub total: usize,
}

/// The limit that the counters have reached, the one on blocks in a row
/// first.
pub open spec fn limit_reached(consecutive: int, total: int) -> Option<StopTag> {
    if consecutive >= MAX_CONSECUTIVE_BLOCKS {
        Some(StopTag::BlockLimitConsecutive)
    } else if total >= MAX_TOTAL_BLOCKS {
        Some(StopTag::BlockLimitTotal)
    } else {
        None
    }
}

impl BlockBudget {
    /// The counters at the start of a turn.
    pub fn new() -> (r: BlockBudget)
        ensures
            r.consecutive == 0,
            r.total == 0,
    {
        BlockBudget { consecutive: 0, total: 0 }
    }

    /// Counts a tool that was allowed: the blocks in a row start over, the
    /// total stays.
    pub fn record_allow(&mut self)
        ensures
            final(self).consecutive == 0,
            final(self).total == old(self).total,
    {
        self.consecutive = 0;
    }

    /// Counts a blocked tool, and says which limit that reaches.
    pub fn record_block(&mut self) -> (tripped: Option<StopTag>)
        requires
            old(self).consecutive < usize::MAX,
            old(self).total < usize::MAX,
        ensures
            final(self).consecutive == old(self).consecutive + 1,
            final(self).total == old(self).total + 1,
            tripped == limit_reached(final(self).consecutive as int, final(self).total as int),
    {
        self.consecutive = self.consecutive + 1;
        self.total = self.total + 1;
        if self.consecutive >= MAX_CONSECUTIVE_BLOCKS {
            Some(StopTag::BlockLimitConsecutive)
        } else if self.total >= MAX_TOTAL_BLOCKS {
            Some(StopTag::BlockLimitTotal)
        } else {
            None
        }
    }
}

} // verus!
