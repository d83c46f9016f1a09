//! Hooks: commands that run before a tool, after a tool and at the end of a
//! turn, and what the runner makes of their outcomes.
//!
//! The runner starts no command itself. It says which hook runs next and
//! with what input, takes what came of it, and decides: guards fail closed,
//! every other hook fails open.

use crate::convergence::{Observation, ObservationView};
use crate::json::{
    json_bool, json_member, json_model, json_object, json_parse, json_set, json_str_at,
    json_string, json_u64, parse_json, JsonModel,
};
use crate::text::{
    bytes_start_with, floor_boundary, floor_char_boundary, owned, push_decimal,
    push_signed_decimal, push_text, seq_starts_with, str_eq, str_head, str_tail, decimal,
    signed_decimal,
};
use vstd::prelude::*;
use vstd::utf8::{decode_utf8, encode_utf8};

verus! {

/// The time, in milliseconds, that a hook before or after a tool may take
/// where its configuration names none.
pub const DEFAULT_TIMEOUT_MS: u64 = 5000;

/// The time, in milliseconds, that a hook at the end of a turn may take where
/// its configuration names none.
pub const DEFAULT_STOP_TIMEOUT_MS: u64 = 3000;

/// A tool result longer than this many bytes is shortened for the hooks.
pub const RESULT_TRUNCATION_LIMIT: usize = 5120;

/// The bytes kept at each end of a shortened tool result.
pub const RESULT_HALF: usize = 2560;

/// One configured hook.
#[derive(Debug)]
pub struct HookConfig {
    pub event: String,
    pub command: String,
    pub match_tool: Option<String>,
    pub phase: Option<String>,
    pub timeout_ms: Option<u64>,
}

/// The content of a [`HookConfig`].
pub struct HookConfigView {
    pub event: Seq<char>,
    pub command: Seq<char>,
    pub match_tool: Option<Seq<char>>,
    pub phase: Option<Seq<char>>,
    pub timeout_ms: Option<u64>,
}

impl View for HookConfig {
    type V = HookConfigView;

    open spec fn view(&self) -> HookConfigView {
        HookConfigView {
            event: self.event@,
            command: self.command@,
            match_tool: match self.match_tool {
                Some(t) => Some(t@),
                None => None,
            },
            phase: match self.phase {
                Some(p) => Some(p@),
                None => None,
            },
            timeout_ms: self.timeout_ms,
        }
    }
}

impl HookConfigView {
    /// The hook applies to the tool: it names that tool or none.
    pub open spec fn matches(self, tool: Seq<char>) -> bool {
        match self.match_tool {
            Some(t) => t == tool,
            None => true,
        }
    }

    /// A hook that decides whether the tool may run. A hook before a tool
    /// that names no phase is a guard.
    pub open spec fn is_guard(self) -> bool {
        self.event == "PreToolUse"@ && match self.phase {
            Some(p) => p == "guard"@,
            None => true,
        }
    }

    /// A hook that is told of the guards' decision.
    pub open spec fn is_observer(self) -> bool {
        self.event == "PreToolUse"@ && self.phase == Some("observe"@)
    }

    pub open spec fn is_post(self) -> bool {
        self.event == "PostToolUse"@
    }

    pub open spec fn is_stop(self) -> bool {
        self.event == "Stop"@
    }

    /// The time that the hook may take.
    pub open spec fn timeout(self) -> u64 {
        match self.timeout_ms {
            Some(ms) => ms,
            None => if self.is_stop() {
                DEFAULT_STOP_TIMEOUT_MS
            } else {
                DEFAULT_TIMEOUT_MS
            },
        }
    }
}

/// Whether the hook applies to the tool.
pub fn matches_tool(hook: &HookConfig, tool: &str) -> (r: bool)
    ensures
        r == hook@.matches(tool@),
{
    match &hook.match_tool {
        Some(t) => str_eq(t.as_str(), tool),
        None => true,
    }
}

/// The kinds of hooks.
#[derive(Debug, Clone, Copy, PartialEq, Eq, Structural)]
pub enum HookKind {
    Guard,
    Observer,
    Post,
    Stop,
}

/// The hook is of the kind.
pub open spec fn is_kind(hook: HookConfigView, kind: HookKind) -> bool {
    match kind {
        HookKind::Guard => hook.is_guard(),
        HookKind::Observer => hook.is_observer(),
        HookKind::Post => hook.is_post(),
        HookKind::Stop => hook.is_stop(),
    }
}

/// The hook is of the kind and, unless it runs at the end of a turn, applies
/// to the tool.
pub open spec fn selects(hook: HookConfigView, kind: HookKind, tool: Seq<char>) -> bool {
    is_kind(hook, kind) && (kind == HookKind::Stop || hook.matches(tool))
}

/// The positions of the hooks of the kind that apply to the tool, in the
/// order of the configuration.
pub open spec fn selected(hooks: Seq<HookConfigView>, kind: HookKind, tool: Seq<char>) -> Seq<int>
    decreases hooks.len(),
{
    if hooks.len() == 0 {
        Seq::empty()
    } else {
        let rest = selected(hooks.drop_last(), kind, tool);
        if selects(hooks.last(), kind, tool) {
            rest.push(hooks.len() - 1)
        } else {
            rest
        }
    }
}

/// Every selected position is a position of a hook of the kind.
pub proof fn lemma_selected_in_range(
    hooks: Seq<HookConfigView>,
    kind: HookKind,
    tool: Seq<char>,
    k: int,
)
    requires
        0 <= k < selected(hooks, kind, tool).len(),
    ensures
        0 <= selected(hooks, kind, tool)[k] < hooks.len(),
        selects(hooks[selected(hooks, kind, tool)[k]], kind, tool),
    decreases hooks.len(),
{
    if hooks.len() > 0 {
        let rest = selected(hooks.drop_last(), kind, tool);
        if k < rest.len() {
            lemma_selected_in_range(hooks.drop_last(), kind, tool, k);
        }
    }
}

/// Whether the hook is of the kind.
pub fn hook_is(hook: &HookConfig, kind: HookKind) -> (r: bool)
    ensures
        r == is_kind(hook@, kind),
{
    match kind {
        HookKind::Guard => {
            str_eq(hook.event.as_str(), "PreToolUse") && match &hook.phase {
                Some(p) => str_eq(p.as_str(), "guard"),
                None => true,
            }
        },
        HookKind::Observer => {
            str_eq(hook.event.as_str(), "PreToolUse") && match &hook.phase {
                Some(p) => str_eq(p.as_str(), "observe"),
                None => false,
            }
        },
        HookKind::Post => str_eq(hook.event.as_str(), "PostToolUse"),
        HookKind::Stop => str_eq(hook.event.as_str(), "Stop"),
    }
}

/// The time, in milliseconds, that the hook may take.
pub fn hook_timeout(hook: &HookConfig) -> (ms: u64)
    ensures
        ms == hook@.timeout(),
{
    match hook.timeout_ms {
        Some(ms) => ms,
        None => if str_eq(hook.event.as_str(), "Stop") {
            DEFAULT_STOP_TIMEOUT_MS
        } else {
            DEFAULT_TIMEOUT_MS
        },
    }
}

/// The text that a shortened tool result carries between its two ends.
pub open spec fn truncation_marker(len: nat) -> Seq<char> {
    "\n... (truncated for hook, full result: "@ + decimal(len) + " bytes)\n"@
}

/// The tool result as the hooks see it: one of at most
/// [`RESULT_TRUNCATION_LIMIT`] bytes as it is, a longer one cut down to its
/// first and last [`RESULT_HALF`] bytes, each cut moved back to a character
/// boundary, with a marker between them.
pub open spec fn truncated_result(text: Seq<char>) -> Seq<char> {
    let bytes = encode_utf8(text);
    if bytes.len() <= RESULT_TRUNCATION_LIMIT {
        text
    } else {
        decode_utf8(bytes.subrange(0, floor_boundary(bytes, RESULT_HALF as int)))
            + truncation_marker(bytes.len()) + decode_utf8(
            bytes.subrange(
                floor_boundary(bytes, bytes.len() - RESULT_HALF),
                bytes.len() as int,
            ),
        )
    }
}

pub fn truncate_result(result: &str) -> (r: String)
    ensures
        r@ == truncated_result(result@),
{
    let len = result.as_bytes().len();
    if len <= RESULT_TRUNCATION_LIMIT {
        return owned(result);
    }
    let first_end = floor_char_boundary(result, RESULT_HALF);
    let last_start = floor_char_boundary(result, len - RESULT_HALF);
    let mut out = owned(str_head(result, first_end));
    push_text(&mut out, "\n... (truncated for hook, full result: ");
    push_decimal(&mut out, len as u64);
    push_text(&mut out, " bytes)\n");
    push_text(&mut out, str_tail(result, last_start));
    assert(out@ =~= truncated_result(result@));
    out
}

/// How a hook's command failed.
#[derive(Debug)]
pub enum HookError {
    Timeout(u64),
    NonZeroExit(i32),
    Spawn(String),
}

impl HookError {
    /// The words for the failure.
    pub open spec fn text(self) -> Seq<char> {
        match self {
            HookError::Timeout(ms) => "timed out after "@ + decimal(ms as nat) + "ms"@,
            HookError::NonZeroExit(code) => "exited with code "@ + signed_decimal(code as int),
            HookError::Spawn(message) => "spawn error: "@ + message@,
        }
    }

    /// The words for the failure.
    pub fn message(&self) -> (r: String)
        ensures
            r@ == self.text(),
    {
        let mut out = String::new();
        match self {
            HookError::Timeout(ms) => {
                push_text(&mut out, "timed out after ");
                push_decimal(&mut out, *ms);
                push_text(&mut out, "ms");
            },
            HookError::NonZeroExit(code) => {
                push_text(&mut out, "exited with code ");
                push_signed_decimal(&mut out, *code as i64);
            },
            HookError::Spawn(message) => {
                push_text(&mut out, "spawn error: ");
                push_text(&mut out, message.as_str());
            },
        }
        assert(out@ =~= self.text());
        out
    }
}

/// What a guard's command printed.
#[derive(Debug)]
pub struct GuardOutput {
    pub action: String,
    pub reason: Option<String>,
}

/// What the command of a hook after a tool printed.
#[derive(Debug)]
pub struct PostOutput {
    pub action: String,
    pub signal: Option<String>,
    pub reason: Option<String>,
}

/// What came of a guard's command: what it printed, `None` where that was no
/// valid reply, or how it failed.
pub type GuardReply = Result<Option<GuardOutput>, HookError>;

/// What came of the command of a hook after a tool.
pub type PostReply = Result<Option<PostOutput>, HookError>;

/// The verdict of the hooks that run before a tool.
#[derive(Debug, PartialEq)]
pub enum PreToolResult {
    Allow,
    Block { reason: String, blocked_by: String },
}

/// The verdict of the hooks that run after a tool.
#[derive(Debug, PartialEq)]
pub enum PostToolResult {
    Continue,
    Signal { signal: String, reason: String },
}

/// A guard's refusal: the command of the guard and the reason it gave, or
/// the account of its failure.
pub struct RefusalView {
    pub blocked_by: Seq<char>,
    pub reason: Seq<char>,
}

/// The reason that stands for a guard that failed.
pub open spec fn failure_reason(command: Seq<char>, what: Seq<char>) -> Seq<char> {
    "hook failed: "@ + command + " "@ + what
}

/// The words that close the account of a guard whose command failed.
pub open spec fn blocked_by_default() -> Seq<char> {
    " (tool blocked by default)"@
}

/// What a guard's reply means for the tool: a refusal, or nothing. A guard
/// refuses by the action `block`; a guard that fails in any way refuses too.
/// The account of a command that timed out, ended badly or did not start
/// says that the tool is blocked by default.
pub open spec fn guard_verdict(command: Seq<char>, reply: GuardReply) -> Option<RefusalView> {
    match reply {
        Ok(Some(output)) => if output.action@ == "block"@ {
            Some(
                RefusalView {
                    blocked_by: command,
                    reason: match output.reason {
                        Some(r) => r@,
                        None => "no reason provided"@,
                    },
                },
            )
        } else {
            None
        },
        Ok(None) => Some(
            RefusalView { blocked_by: command, reason: failure_reason(command, "returned invalid JSON"@) },
        ),
                Err(error) => Some(
            RefusalView {
                blocked_by: command,
                reason: failure_reason(command, error.text() + blocked_by_default()),
            },
        ),
    }
}

/// The reason as the model reads it: the account of a failed guard as it is,
/// a guard's own reason behind the guard's command.
pub open spec fn shown_reason(block: RefusalView) -> Seq<char> {
    if seq_starts_with(encode_utf8(block.reason), encode_utf8("hook failed:"@)) {
        block.reason
    } else {
        "blocked by "@ + block.blocked_by + ": "@ + block.reason
    }
}

/// A guard's refusal.
#[derive(Debug)]
pub struct GuardBlock {
    pub blocked_by: String,
    pub reason: String,
}

impl View for GuardBlock {
    type V = RefusalView;

    open spec fn view(&self) -> RefusalView {
        RefusalView { blocked_by: self.blocked_by@, reason: self.reason@ }
    }
}

/// The view of a refusal that may be absent.
pub open spec fn block_view(block: Option<GuardBlock>) -> Option<RefusalView> {
    match block {
        Some(b) => Some(b@),
        None => None,
    }
}

fn failed_guard(command: &str, what: &str) -> (r: GuardBlock)
    ensures
        r@ == (RefusalView { blocked_by: command@, reason: failure_reason(command@, what@) }),
{
    let mut reason = owned("hook failed: ");
    push_text(&mut reason, command);
    push_text(&mut reason, " ");
    push_text(&mut reason, what);
    assert(reason@ =~= failure_reason(command@, what@));
    GuardBlock { blocked_by: owned(command), reason }
}

/// Decides what a guard's reply means for the tool.
pub fn judge_guard(hook: &HookConfig, reply: GuardReply) -> (r: Option<GuardBlock>)
    ensures
        block_view(r) == guard_verdict(hook@.command, reply),
{
    let command = hook.command.as_str();
    match reply {
        Ok(Some(output)) => {
            if str_eq(output.action.as_str(), "block") {
                let reason = match output.reason {
                    Some(r) => r,
                    None => owned("no reason provided"),
                };
                Some(GuardBlock { blocked_by: owned(command), reason })
            } else {
                None
            }
        },
        Ok(None) => Some(failed_guard(command, "returned invalid JSON")),
                Err(error) => {
            let mut what = error.message();
            push_text(&mut what, " (tool blocked by default)");
            Some(failed_guard(command, what.as_str()))
        },
    }
}

/// The verdict that the refusal, or its absence, makes.
pub open spec fn pre_tool_verdict(block: Option<RefusalView>, r: PreToolResult) -> bool {
    match block {
        None => r is Allow,
        Some(b) => r matches PreToolResult::Block { reason, blocked_by } && reason@ == shown_reason(
            b,
        ) && blocked_by@ == b.blocked_by,
    }
}

/// A guard that prints no valid reply refuses the tool: the tool is
/// blocked in the guard's name, and the reason says that the hook failed,
/// which one, and that it returned invalid JSON.
pub proof fn lemma_invalid_reply_blocks(command: Seq<char>, r: PreToolResult)
    requires
        pre_tool_verdict(guard_verdict(command, Ok(None)), r),
    ensures
        r matches PreToolResult::Block { reason, blocked_by } && blocked_by@ == command
            && reason@ == "hook failed: "@ + command + " returned invalid JSON"@,
{
    let rest = command + " "@ + "returned invalid JSON"@;
    let reason = failure_reason(command, "returned invalid JSON"@);
    assert(reason =~= "hook failed: "@ + rest);
    assert("hook failed: "@ =~= "hook failed:"@ + " "@) by {
        reveal_strlit("hook failed: ");
        reveal_strlit("hook failed:");
        reveal_strlit(" ");
    }
    crate::text::lemma_bytes_of_parts("hook failed: "@, rest);
    crate::text::lemma_bytes_of_parts("hook failed:"@, " "@);
    let head = encode_utf8("hook failed:"@);
    let all = encode_utf8(reason);
    assert(all =~= head + (encode_utf8(" "@) + encode_utf8(rest)));
    assert(all.subrange(0, head.len() as int) =~= head);
    assert(" returned invalid JSON"@ =~= " "@ + "returned invalid JSON"@) by {
        reveal_strlit(" returned invalid JSON");
        reveal_strlit("returned invalid JSON");
        reveal_strlit(" ");
    }
    assert(reason =~= "hook failed: "@ + command + " returned invalid JSON"@);
}

/// An observation that a hook after a tool asked to record.
pub open spec fn post_signal(reply: PostReply, tool_iterations: usize) -> Option<ObservationView> {
    match reply {
        Ok(Some(output)) => if output.action@ == "signal"@ {
            Some(
                ObservationView {
                    signal: match output.signal {
                        Some(s) => s@,
                        None => "unknown"@,
                    },
                    reason: match output.reason {
                        Some(r) => r@,
                        None => "no reason"@,
                    },
                    tool_iterations,
                },
            )
        } else {
            None
        },
        _ => None,
    }
}

/// Reads the signal out of the reply of a hook after a tool. A hook that
/// fails, or prints no valid reply, signals nothing.
pub fn judge_post(reply: PostReply, tool_iterations: usize) -> (r: Option<Observation>)
    ensures
        match r {
            Some(o) => post_signal(reply, tool_iterations) == Some(o@),
            None => post_signal(reply, tool_iterations) is None,
        },
{
    match reply {
        Ok(Some(output)) => {
            if str_eq(output.action.as_str(), "signal") {
                let signal = match output.signal {
                    Some(s) => s,
                    None => owned("unknown"),
                };
                let reason = match output.reason {
                    Some(r) => r,
                    None => owned("no reason"),
                };
                Some(Observation { signal, reason, tool_iterations })
            } else {
                None
            }
        },
        _ => None,
    }
}

impl Clone for HookConfig {
    fn clone(&self) -> (r: Self)
        ensures
            r@ == self@,
    {
        HookConfig {
            event: self.event.clone(),
            command: self.command.clone(),
            match_tool: match &self.match_tool {
                Some(t) => Some(t.clone()),
                None => None,
            },
            phase: match &self.phase {
                Some(p) => Some(p.clone()),
                None => None,
            },
            timeout_ms: self.timeout_ms,
        }
    }
}

/// The hooks at the given positions.
pub open spec fn picked(hooks: Seq<HookConfigView>, positions: Seq<int>) -> Seq<HookConfigView> {
    Seq::new(positions.len(), |k: int| hooks[positions[k]])
}

/// The hooks of the kind that apply to the tool, in the order of the
/// configuration.
pub open spec fn chosen(hooks: Seq<HookConfigView>, kind: HookKind, tool: Seq<char>) -> Seq<
    HookConfigView,
> {
    picked(hooks, selected(hooks, kind, tool))
}

/// The JSON object that the guards of a tool read.
pub open spec fn guard_input_json(
    tool: Seq<char>,
    input: JsonModel,
    tool_iterations: usize,
    cwd: Seq<char>,
) -> JsonModel {
    JsonModel::empty_object().with("event"@, JsonModel::String("PreToolUse"@)).with(
        "phase"@,
        JsonModel::String("guard"@),
    ).with("tool"@, JsonModel::String(tool)).with("input"@, input).with(
        "tool_iterations"@,
        JsonModel::Int(tool_iterations as int),
    ).with("cwd"@, JsonModel::String(cwd))
}

/// The JSON object that the observers of a tool read: it tells whether the
/// guards refused the tool, and if so which of them and why.
pub open spec fn observe_input_json(
    tool: Seq<char>,
    input: JsonModel,
    block: Option<RefusalView>,
    tool_iterations: usize,
    cwd: Seq<char>,
) -> JsonModel {
    let base = JsonModel::empty_object().with("event"@, JsonModel::String("PreToolUse"@)).with(
        "phase"@,
        JsonModel::String("observe"@),
    ).with("tool"@, JsonModel::String(tool)).with("input"@, input).with(
        "blocked"@,
        JsonModel::Bool(block is Some),
    ).with("tool_iterations"@, JsonModel::Int(tool_iterations as int)).with(
        "cwd"@,
        JsonModel::String(cwd),
    );
    match block {
        Some(b) => base.with("blocked_by"@, JsonModel::String(b.blocked_by)).with(
            "block_reason"@,
            JsonModel::String(b.reason),
        ),
        None => base,
    }
}

/// The JSON object that the hooks after a tool read; the tool's result is
/// shortened for them.
pub open spec fn post_input_json(
    tool: Seq<char>,
    input: JsonModel,
    result: Seq<char>,
    is_error: bool,
    tool_iterations: usize,
    cwd: Seq<char>,
) -> JsonModel {
    JsonModel::empty_object().with("event"@, JsonModel::String("PostToolUse"@)).with(
        "tool"@,
        JsonModel::String(tool),
    ).with("input"@, input).with("result"@, JsonModel::String(truncated_result(result))).with(
        "is_error"@,
        JsonModel::Bool(is_error),
    ).with("tool_iterations"@, JsonModel::Int(tool_iterations as int)).with(
        "cwd"@,
        JsonModel::String(cwd),
    )
}

/// The JSON object that the hooks at the end of a turn read.
pub open spec fn stop_input_json(
    reason: Seq<char>,
    tool_iterations: usize,
    total_tokens: u64,
    cwd: Seq<char>,
) -> JsonModel {
    JsonModel::empty_object().with("event"@, JsonModel::String("Stop"@)).with(
        "reason"@,
        JsonModel::String(reason),
    ).with("tool_iterations"@, JsonModel::Int(tool_iterations as int)).with(
        "total_tokens"@,
        JsonModel::Int(total_tokens as int),
    ).with("cwd"@, JsonModel::String(cwd))
}

/// The configured hooks and the directory they run in.
#[derive(Debug)]
pub struct HookRunner {
    hooks: Vec<HookConfig>,
    cwd: String,
}

impl HookRunner {
    /// The configured hooks.
    pub closed spec fn configured(&self) -> Seq<HookConfigView> {
        crate::api::views(self.hooks@)
    }

    /// The working directory.
    pub closed spec fn directory(&self) -> Seq<char> {
        self.cwd@
    }

    /// A runner for the hooks of a configuration, in its order.
    pub fn new(hooks: Vec<HookConfig>, cwd: &str) -> (r: HookRunner)
        ensures
            r.configured() == crate::api::views(hooks@),
            r.directory() == cwd@,
    {
        HookRunner { hooks, cwd: owned(cwd) }
    }

    pub fn has_hooks(&self) -> (r: bool)
        ensures
            r == (self.configured().len() > 0),
    {
        !self.hooks.is_empty()
    }

    pub fn hooks(&self) -> (r: &Vec<HookConfig>)
        ensures
            crate::api::views(r@) == self.configured(),
    {
        &self.hooks
    }

    pub fn cwd(&self) -> (r: &str)
        ensures
            r@ == self.directory(),
    {
        self.cwd.as_str()
    }

    /// The hooks of the kind that apply to the tool, in the order of the
    /// configuration. The hooks at the end of a turn apply whatever the tool.
    pub fn select(&self, kind: HookKind, tool: &str) -> (r: Vec<HookConfig>)
        ensures
            crate::api::views(r@) == chosen(self.configured(), kind, tool@),
    {
        let ghost all = self.configured();
        let mut out: Vec<HookConfig> = Vec::new();
        let mut i: usize = 0;
        assert(all.take(0) =~= Seq::<HookConfigView>::empty());
        assert(crate::api::views(out@) =~= chosen(all.take(0), kind, tool@));
        while i < self.hooks.len()
            invariant
                i <= self.hooks.len(),
                all == self.configured(),
                crate::api::views(out@) == chosen(all.take(i as int), kind, tool@),
            decreases self.hooks.len() - i,
        {
            let hook = &self.hooks[i];
            let take = hook_is(hook, kind) && (match kind {
                HookKind::Stop => true,
                _ => matches_tool(hook, tool),
            });
            proof {
                lemma_chosen_push(all.take(i as int), all[i as int], kind, tool@);
                assert(all.take(i as int).push(all[i as int]) =~= all.take(i + 1));
            }
            if take {
                let ghost before = out@;
                let copy = hook.clone();
                out.push(copy);
                assert(crate::api::views(out@) =~= crate::api::views(before).push(copy@));
            }
            i = i + 1;
        }
        assert(all.take(self.hooks@.len() as int) =~= all);
        out
    }

    /// The input of the tool's guards.
    pub fn guard_input(&self, tool: &str, input: &serde_json::Value, tool_iterations: usize) -> (r:
        serde_json::Value)
        ensures
            json_model(r) == guard_input_json(
                tool@,
                json_model(*input),
                tool_iterations,
                self.directory(),
            ),
    {
        let mut obj = json_object();
        json_set(&mut obj, "event", json_string(owned("PreToolUse")));
        json_set(&mut obj, "phase", json_string(owned("guard")));
        json_set(&mut obj, "tool", json_string(owned(tool)));
        json_set(&mut obj, "input", input.clone());
        json_set(&mut obj, "tool_iterations", json_u64(tool_iterations as u64));
        json_set(&mut obj, "cwd", json_string(self.cwd.clone()));
        obj
    }

    /// The input of the tool's observers.
    pub fn observe_input(
        &self,
        tool: &str,
        input: &serde_json::Value,
        block: &Option<GuardBlock>,
        tool_iterations: usize,
    ) -> (r: serde_json::Value)
        ensures
            json_model(r) == observe_input_json(
                tool@,
                json_model(*input),
                block_view(*block),
                tool_iterations,
                self.directory(),
            ),
    {
        let mut obj = json_object();
        json_set(&mut obj, "event", json_string(owned("PreToolUse")));
        json_set(&mut obj, "phase", json_string(owned("observe")));
        json_set(&mut obj, "tool", json_string(owned(tool)));
        json_set(&mut obj, "input", input.clone());
        json_set(&mut obj, "blocked", json_bool(block.is_some()));
        json_set(&mut obj, "tool_iterations", json_u64(tool_iterations as u64));
        json_set(&mut obj, "cwd", json_string(self.cwd.clone()));
        match block {
            Some(b) => {
                json_set(&mut obj, "blocked_by", json_string(b.blocked_by.clone()));
                json_set(&mut obj, "block_reason", json_string(b.reason.clone()));
            },
            None => {},
        }
        obj
    }

    /// The input of the hooks after a tool.
    pub fn post_input(
        &self,
        tool: &str,
        input: &serde_json::Value,
        result: &str,
        is_error: bool,
        tool_iterations: usize,
    ) -> (r: serde_json::Value)
        ensures
            json_model(r) == post_input_json(
                tool@,
                json_model(*input),
                result@,
                is_error,
                tool_iterations,
                self.directory(),
            ),
    {
        let mut obj = json_object();
        json_set(&mut obj, "event", json_string(owned("PostToolUse")));
        json_set(&mut obj, "tool", json_string(owned(tool)));
        json_set(&mut obj, "input", input.clone());
        json_set(&mut obj, "result", json_string(truncate_result(result)));
        json_set(&mut obj, "is_error", json_bool(is_error));
        json_set(&mut obj, "tool_iterations", json_u64(tool_iterations as u64));
        json_set(&mut obj, "cwd", json_string(self.cwd.clone()));
        obj
    }

    /// The input of the hooks at the end of a turn.
    pub fn stop_input(&self, reason: &str, tool_iterations: usize, total_tokens: u64) -> (r:
        serde_json::Value)
        ensures
            json_model(r) == stop_input_json(
                reason@,
                tool_iterations,
                total_tokens,
                self.directory(),
            ),
    {
        let mut obj = json_object();
        json_set(&mut obj, "event", json_string(owned("Stop")));
        json_set(&mut obj, "reason", json_string(owned(reason)));
        json_set(&mut obj, "tool_iterations", json_u64(tool_iterations as u64));
        json_set(&mut obj, "total_tokens", json_u64(total_tokens));
        json_set(&mut obj, "cwd", json_string(self.cwd.clone()));
        obj
    }

    /// Begins the run of the hooks before the tool.
    pub fn run_pre_tool_use(&self, tool: &str) -> (run: PreToolRun)
        ensures
            run@ == PreRunView::start(
                chosen(self.configured(), HookKind::Guard, tool@),
                chosen(self.configured(), HookKind::Observer, tool@),
            ),
    {
        let run = PreToolRun {
            guards: self.select(HookKind::Guard, tool),
            observers: self.select(HookKind::Observer, tool),
            observing: false,
            position: 0,
            block: None,
        };
        run
    }

    /// Begins the run of the hooks after the tool.
    pub fn run_post_tool_use(&self, tool: &str, tool_iterations: usize) -> (run: PostToolRun)
        ensures
            run@ == PostRunView::start(
                chosen(self.configured(), HookKind::Post, tool@),
                tool_iterations,
            ),
    {
        let run = PostToolRun {
            hooks: self.select(HookKind::Post, tool),
            position: 0,
            observations: Vec::new(),
            tool_iterations,
        };
        assert(run@.observations =~= Seq::empty());
        run
    }

    /// The hooks that run at the end of a turn, in the order of the
    /// configuration.
    pub fn run_stop(&self) -> (hooks: Vec<HookConfig>)
        ensures
            crate::api::views(hooks@) == chosen(self.configured(), HookKind::Stop, Seq::empty()),
    {
        proof {
            reveal_strlit("");
        }
        let hooks = self.select(HookKind::Stop, "");
        assert(""@ =~= Seq::<char>::empty());
        hooks
    }
}

proof fn lemma_chosen_push(
    hooks: Seq<HookConfigView>,
    hook: HookConfigView,
    kind: HookKind,
    tool: Seq<char>,
)
    ensures
        chosen(hooks.push(hook), kind, tool) == if selects(hook, kind, tool) {
            chosen(hooks, kind, tool).push(hook)
        } else {
            chosen(hooks, kind, tool)
        },
{
    let longer = hooks.push(hook);
    assert(longer.drop_last() =~= hooks);
    assert forall|k: int| 0 <= k < selected(hooks, kind, tool).len() implies longer[selected(
        hooks,
        kind,
        tool,
    )[k]] == hooks[selected(hooks, kind, tool)[k]] by {
        lemma_selected_in_range(hooks, kind, tool, k);
    }
    if selects(hook, kind, tool) {
        assert(chosen(longer, kind, tool) =~= chosen(hooks, kind, tool).push(hook));
    } else {
        assert(chosen(longer, kind, tool) =~= chosen(hooks, kind, tool));
    }
}

/// The run of the hooks before a tool: first the guards, in their order,
/// until one refuses the tool or all have run; then every observer.
#[derive(Debug)]
pub struct PreToolRun {
    guards: Vec<HookConfig>,
    observers: Vec<HookConfig>,
    observing: bool,
    position: usize,
    block: Option<GuardBlock>,
}

/// The state of a [`PreToolRun`].
pub struct PreRunView {
    pub guards: Seq<HookConfigView>,
    pub observers: Seq<HookConfigView>,
    /// Whether the guards are done with.
    pub observing: bool,
    /// How many hooks of the current stage have run.
    pub position: int,
    /// The refusal of the first guard that refused.
    pub block: Option<RefusalView>,
}

impl PreRunView {
    pub open spec fn start(guards: Seq<HookConfigView>, observers: Seq<HookConfigView>) -> PreRunView {
        PreRunView { guards, observers, observing: false, position: 0, block: None }
    }

    /// The guard that runs next: the guards run in their order while none
    /// has refused.
    pub open spec fn next_guard(self) -> Option<HookConfigView> {
        if !self.observing && self.block is None && 0 <= self.position < self.guards.len() {
            Some(self.guards[self.position])
        } else {
            None
        }
    }

    /// The position among the observers from which they have yet to run.
    pub open spec fn observed(self) -> int {
        if self.observing {
            self.position
        } else {
            0
        }
    }

    /// The observer that runs next: every observer runs once the guards are
    /// done with, whether or not one of them refused.
    pub open spec fn next_observer(self) -> Option<HookConfigView> {
        if self.next_guard() is None && 0 <= self.observed() < self.observers.len() {
            Some(self.observers[self.observed()])
        } else {
            None
        }
    }

    /// No hook is left to run.
    pub open spec fn finished(self) -> bool {
        self.next_guard() is None && self.next_observer() is None
    }

    /// The state after the guard that was next gave `reply`.
    pub open spec fn guard_done(self, reply: GuardReply) -> PreRunView {
        match self.next_guard() {
            Some(guard) => PreRunView {
                position: self.position + 1,
                block: guard_verdict(guard.command, reply),
                ..self
            },
            None => self,
        }
    }

    /// The state after the observer that was next has run, however it ended.
    pub open spec fn observe_done(self) -> PreRunView {
        match self.next_observer() {
            Some(_) => PreRunView { observing: true, position: self.observed() + 1, ..self },
            None => self,
        }
    }
}

/// The refusal that the guards come to when they receive `replies` in turn:
/// that of the first guard whose reply refuses, and none where none does.
/// Replies to guards after it are not looked at, for those guards do not
/// run.
pub open spec fn first_refusal(guards: Seq<HookConfigView>, replies: Seq<GuardReply>) -> Option<
    RefusalView,
>
    decreases guards.len(),
{
    if guards.len() == 0 || replies.len() == 0 {
        None
    } else {
        match guard_verdict(guards[0].command, replies[0]) {
            Some(refusal) => Some(refusal),
            None => first_refusal(guards.drop_first(), replies.drop_first()),
        }
    }
}

/// The state of the run after the guards have received `replies` in turn.
pub open spec fn after_guards(run: PreRunView, replies: Seq<GuardReply>) -> PreRunView
    decreases replies.len(),
{
    if replies.len() == 0 {
        run
    } else {
        after_guards(run.guard_done(replies[0]), replies.drop_first())
    }
}

/// The first guard that refuses decides: whatever replies are offered to a
/// fresh run, it ends with the refusal of the first guard whose reply
/// refuses, and no guard runs after that one.
pub proof fn lemma_first_refusal_wins(run: PreRunView, replies: Seq<GuardReply>)
    requires
        !run.observing,
        0 <= run.position <= run.guards.len(),
        run.block is None,
    ensures
        after_guards(run, replies).block == first_refusal(
            run.guards.skip(run.position),
            replies,
        ),
        after_guards(run, replies).block is Some ==> after_guards(run, replies).next_guard()
            is None,
    decreases replies.len(),
{
    let rest = run.guards.skip(run.position);
    if replies.len() == 0 {
    } else if run.position >= run.guards.len() {
        lemma_after_guards_idle(run, replies);
    } else {
        let next = run.guard_done(replies[0]);
        assert(rest[0] == run.guards[run.position]);
        assert(rest.drop_first() =~= run.guards.skip(run.position + 1));
        if next.block is Some {
            lemma_after_guards_idle(next, replies.drop_first());
        } else {
            lemma_first_refusal_wins(next, replies.drop_first());
        }
    }
}

proof fn lemma_after_guards_idle(run: PreRunView, replies: Seq<GuardReply>)
    requires
        run.next_guard() is None,
    ensures
        after_guards(run, replies) == run,
    decreases replies.len(),
{
    if replies.len() > 0 {
        lemma_after_guards_idle(run, replies.drop_first());
    }
}

impl View for PreToolRun {
    type V = PreRunView;

    closed spec fn view(&self) -> PreRunView {
        PreRunView {
            guards: crate::api::views(self.guards@),
            observers: crate::api::views(self.observers@),
            observing: self.observing,
            position: self.position as int,
            block: block_view(self.block),
        }
    }
}

impl PreToolRun {
    /// The guard that runs next.
    pub fn next_guard(&self) -> (r: Option<&HookConfig>)
        ensures
            match r {
                Some(hook) => self@.next_guard() == Some(hook@),
                None => self@.next_guard() is None,
            },
    {
        if !self.observing && self.block.is_none() && self.position < self.guards.len() {
            Some(&self.guards[self.position])
        } else {
            None
        }
    }

    /// The observer that runs next.
    pub fn next_observer(&self) -> (r: Option<&HookConfig>)
        ensures
            match r {
                Some(hook) => self@.next_observer() == Some(hook@),
                None => self@.next_observer() is None,
            },
    {
        if self.next_guard().is_some() {
            return None;
        }
        let at = if self.observing {
            self.position
        } else {
            0
        };
        if at < self.observers.len() {
            Some(&self.observers[at])
        } else {
            None
        }
    }

    /// Whether no hook is left to run.
    pub fn is_finished(&self) -> (r: bool)
        ensures
            r == self@.finished(),
    {
        self.next_guard().is_none() && self.next_observer().is_none()
    }

    /// The refusal so far, as the observers are told of it.
    pub fn block(&self) -> (r: &Option<GuardBlock>)
        ensures
            block_view(*r) == self@.block,
    {
        &self.block
    }

    /// Takes what came of the guard that was next. Where no guard was next,
    /// nothing changes.
    pub fn guard_finished(&mut self, reply: GuardReply)
        ensures
            final(self)@ == old(self)@.guard_done(reply),
    {
        if !self.observing && self.block.is_none() && self.position < self.guards.len() {
            self.block = judge_guard(&self.guards[self.position], reply);
            self.position = self.position + 1;
        }
    }

    /// Notes that the observer that was next has run. How it ended does not
    /// matter. Where no observer was next, nothing changes.
    pub fn observe_finished(&mut self)
        ensures
            final(self)@ == old(self)@.observe_done(),
    {
        let at = if self.observing {
            self.position
        } else {
            0
        };
        if self.next_guard().is_none() && at < self.observers.len() {
            self.observing = true;
            self.position = at + 1;
        }
    }

        /// What the run comes to, once no hook is left to run: the tool is
    /// allowed unless a guard refused it. A run with hooks left has no
    /// result yet, so that no tool is allowed before its guards have
    /// spoken.
    pub fn result(self) -> (r: PreToolResult)
        requires
            self@.finished(),
        ensures
            pre_tool_verdict(self@.block, r),
    {
        match self.block {
            None => PreToolResult::Allow,
            Some(GuardBlock { blocked_by, reason }) => {
                if bytes_start_with(reason.as_str().as_bytes(), "hook failed:".as_bytes()) {
                    PreToolResult::Block { reason, blocked_by }
                } else {
                    let mut shown = owned("blocked by ");
                    push_text(&mut shown, blocked_by.as_str());
                    push_text(&mut shown, ": ");
                    push_text(&mut shown, reason.as_str());
                    assert(shown@ =~= "blocked by "@ + blocked_by@ + ": "@ + reason@);
                    PreToolResult::Block { reason: shown, blocked_by }
                }
            },
        }
    }
}

/// The run of the hooks after a tool: every hook runs, and every signal is
/// recorded.
#[derive(Debug)]
pub struct PostToolRun {
    hooks: Vec<HookConfig>,
    position: usize,
    observations: Vec<Observation>,
    tool_iterations: usize,
}

/// The state of a [`PostToolRun`].
pub struct PostRunView {
    pub hooks: Seq<HookConfigView>,
    /// How many hooks have run.
    pub position: int,
    /// The signals so far, in the order of the hooks that gave them.
    pub observations: Seq<ObservationView>,
    pub tool_iterations: usize,
}

impl PostRunView {
    pub open spec fn start(hooks: Seq<HookConfigView>, tool_iterations: usize) -> PostRunView {
        PostRunView { hooks, position: 0, observations: Seq::empty(), tool_iterations }
    }

    /// The hook that runs next.
    pub open spec fn next_hook(self) -> Option<HookConfigView> {
        if 0 <= self.position < self.hooks.len() {
            Some(self.hooks[self.position])
        } else {
            None
        }
    }

    /// The state after the hook that was next gave `reply`.
    pub open spec fn hook_done(self, reply: PostReply) -> PostRunView {
        match self.next_hook() {
            Some(_) => PostRunView {
                position: self.position + 1,
                observations: match post_signal(reply, self.tool_iterations) {
                    Some(o) => self.observations.push(o),
                    None => self.observations,
                },
                ..self
            },
            None => self,
        }
    }

    /// The verdict is the first signal, and `Continue` where there is none.
    pub open spec fn verdict(self, r: PostToolResult) -> bool {
        if self.observations.len() == 0 {
            r is Continue
        } else {
            r matches PostToolResult::Signal { signal, reason } && signal@
                == self.observations[0].signal && reason@ == self.observations[0].reason
        }
    }
}

impl View for PostToolRun {
    type V = PostRunView;

    closed spec fn view(&self) -> PostRunView {
        PostRunView {
            hooks: crate::api::views(self.hooks@),
            position: self.position as int,
            observations: crate::api::views(self.observations@),
            tool_iterations: self.tool_iterations,
        }
    }
}

impl PostToolRun {
    /// The hook that runs next.
    pub fn next_hook(&self) -> (r: Option<&HookConfig>)
        ensures
            match r {
                Some(hook) => self@.next_hook() == Some(hook@),
                None => self@.next_hook() is None,
            },
    {
        if self.position < self.hooks.len() {
            Some(&self.hooks[self.position])
        } else {
            None
        }
    }

    /// Takes what came of the hook that was next. Where no hook was next,
    /// nothing changes.
    pub fn hook_finished(&mut self, reply: PostReply)
        ensures
            final(self)@ == old(self)@.hook_done(reply),
    {
        if self.position < self.hooks.len() {
            self.position = self.position + 1;
            match judge_post(reply, self.tool_iterations) {
                Some(o) => {
                    let ghost before = self.observations@;
                    self.observations.push(o);
                    assert(crate::api::views(self.observations@) =~= crate::api::views(before).push(
                        o@,
                    ));
                },
                None => {},
            }
        }
    }

        /// Whether no hook is left to run.
    pub fn is_finished(&self) -> (r: bool)
        ensures
            r == (self@.next_hook() is None),
    {
        self.position >= self.hooks.len()
    }

    /// The verdict, once no hook is left to run, and the signals to record
    /// in the ledger.
    pub fn finish(self) -> (r: (PostToolResult, Vec<Observation>))
        requires
            self@.next_hook() is None,
        ensures
            self@.verdict(r.0),
            crate::api::views(r.1@) == self@.observations,
    {
        let verdict = if self.observations.len() == 0 {
            PostToolResult::Continue
        } else {
            PostToolResult::Signal {
                signal: self.observations[0].signal.clone(),
                reason: self.observations[0].reason.clone(),
            }
        };
        (verdict, self.observations)
    }
}


/// A member that may be left out: nothing where the object has no such
/// member or null stands there, the text where a string stands there. Any
/// other member is not accepted.
pub open spec fn optional_text(m: JsonModel, key: Seq<char>) -> Option<Option<Seq<char>>> {
    match m.at(key) {
        JsonModel::Null => Some(None),
        JsonModel::String(s) => Some(Some(s)),
        _ => None,
    }
}

/// The content of an optional string.
pub open spec fn text_view(s: Option<String>) -> Option<Seq<char>> {
    match s {
        Some(t) => Some(t@),
        None => None,
    }
}

/// What a guard printed, read as its reply: a JSON object with the string
/// `action` and, where it gives one, the string `reason`.
pub open spec fn guard_output_of(text: Seq<char>) -> Option<(Seq<char>, Option<Seq<char>>)> {
    match json_parse(text) {
        Some(m) => match (m is Object, m.at("action"@).text(), optional_text(m, "reason"@)) {
            (true, Some(action), Some(reason)) => Some((action, reason)),
            _ => None,
        },
        None => None,
    }
}

/// What a hook after a tool printed, read as its reply: a JSON object with
/// the string `action` and, where it gives them, the strings `signal` and
/// `reason`.
pub open spec fn post_output_of(text: Seq<char>) -> Option<
    (Seq<char>, Option<Seq<char>>, Option<Seq<char>>),
> {
    match json_parse(text) {
        Some(m) => match (
            m is Object,
            m.at("action"@).text(),
            optional_text(m, "signal"@),
            optional_text(m, "reason"@),
        ) {
            (true, Some(action), Some(signal), Some(reason)) => Some((action, signal, reason)),
            _ => None,
        },
        None => None,
    }
}

fn read_optional_text(v: &serde_json::Value, key: &str) -> (r: Option<Option<String>>)
    ensures
        match r {
            Some(found) => optional_text(json_model(*v), key@) == Some(text_view(found)),
            None => optional_text(json_model(*v), key@) is None,
        },
{
    match json_member(v, key) {
        None => Some(None),
        Some(member) => {
            if member.is_null() {
                Some(None)
            } else {
                match member.as_str() {
                    Some(s) => Some(Some(owned(s))),
                    None => None,
                }
            }
        },
    }
}

/// Reads a guard's reply out of what its command printed.
pub fn parse_guard_output(stdout: &str) -> (r: Option<GuardOutput>)
    ensures
        match r {
            Some(o) => guard_output_of(stdout@) == Some((o.action@, text_view(o.reason))),
            None => guard_output_of(stdout@) is None,
        },
{
    let value = match parse_json(stdout) {
        Ok(v) => v,
        Err(_) => {
            return None;
        },
    };
    if !value.is_object() {
        return None;
    }
    let action = match json_str_at(&value, "action") {
        Some(a) => owned(a),
        None => {
            return None;
        },
    };
    match read_optional_text(&value, "reason") {
        Some(reason) => Some(GuardOutput { action, reason }),
        None => None,
    }
}

/// Reads the reply of a hook after a tool out of what its command printed.
pub fn parse_post_output(stdout: &str) -> (r: Option<PostOutput>)
    ensures
        match r {
            Some(o) => post_output_of(stdout@) == Some(
                (o.action@, text_view(o.signal), text_view(o.reason)),
            ),
            None => post_output_of(stdout@) is None,
        },
{
    let value = match parse_json(stdout) {
        Ok(v) => v,
        Err(_) => {
            return None;
        },
    };
    if !value.is_object() {
        return None;
    }
    let action = match json_str_at(&value, "action") {
        Some(a) => owned(a),
        None => {
            return None;
        },
    };
    let signal = match read_optional_text(&value, "signal") {
        Some(signal) => signal,
        None => {
            return None;
        },
    };
    match read_optional_text(&value, "reason") {
        Some(reason) => Some(PostOutput { action, signal, reason }),
        None => None,
    }
}


} // verus!
