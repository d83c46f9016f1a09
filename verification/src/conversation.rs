//! The conversation and the rules that keep it in shape: trimming to the
//! byte budget, recovery after a failed call, and the treatment of a reply
//! that was cut off at the token limit.

use crate::api::{views, BlockView, ContentBlock, Message, MessageView};
use crate::text::{owned, str_eq};
use vstd::prelude::*;

verus! {

/// The byte budget of a conversation's JSON text.
pub const CONTEXT_BUDGET_BYTES: usize = 720_000;

/// The context window of the model, in tokens.
pub const MODEL_CONTEXT_TOKENS: u64 = 200_000;

/// From this many input tokens on, the conversation is trimmed before a call:
/// 60% of the context window.
pub const TRIM_THRESHOLD: u64 = MODEL_CONTEXT_TOKENS * 60 / 100;

/// How often a reply cut off at the token limit is continued within a turn.
pub const MAX_CONTINUATIONS: usize = 3;

/// The sum of the JSON sizes of the messages.
pub open spec fn total_size(conv: Seq<MessageView>) -> nat
    decreases conv.len(),
{
    if conv.len() == 0 {
        0
    } else {
        total_size(conv.drop_last()) + conv.last().json_size()
    }
}

/// What trimming leaves of the messages after the first one: messages are
/// dropped from the front, one at a time and an assistant message that comes
/// to the front with it, until the first message and the rest fit the budget
/// or at most one message is left.
pub open spec fn trimmed_rest(first_size: nat, rest: Seq<MessageView>) -> Seq<MessageView>
    decreases rest.len(),
{
    if rest.len() <= 1 || first_size + total_size(rest) <= CONTEXT_BUDGET_BYTES {
        rest
    } else if rest[1].is_assistant() {
        trimmed_rest(first_size, rest.skip(2))
    } else {
        trimmed_rest(first_size, rest.skip(1))
    }
}

/// The conversation after trimming to the byte budget. One that fits, or has
/// at most two messages, is left as it is; otherwise the first message stays
/// and the rest is cut from the front.
pub open spec fn trimmed(conv: Seq<MessageView>) -> Seq<MessageView> {
    if total_size(conv) <= CONTEXT_BUDGET_BYTES || conv.len() <= 2 {
        conv
    } else {
        seq![conv[0]] + trimmed_rest(conv[0].json_size(), conv.skip(1))
    }
}

/// Whether the trim runs before a call, given the input tokens that the last
/// call of the turn reported (0 before the first).
pub open spec fn trim_due(last_input_tokens: u64) -> bool {
    last_input_tokens == 0 || last_input_tokens >= TRIM_THRESHOLD
}

/// The conversation as the next call sees it.
pub open spec fn gated(conv: Seq<MessageView>, last_input_tokens: u64) -> Seq<MessageView> {
    if trim_due(last_input_tokens) {
        trimmed(conv)
    } else {
        conv
    }
}

/// The number of messages that trimming drops after the first one.
pub open spec fn trim_cut(first_size: nat, rest: Seq<MessageView>) -> nat
    decreases rest.len(),
{
    if rest.len() <= 1 || first_size + total_size(rest) <= CONTEXT_BUDGET_BYTES {
        0
    } else if rest[1].is_assistant() {
        2 + trim_cut(first_size, rest.skip(2))
    } else {
        1 + trim_cut(first_size, rest.skip(1))
    }
}

/// Trimming keeps a suffix of the rest: the part behind the cut.
pub proof fn lemma_trimmed_rest_is_suffix(first_size: nat, rest: Seq<MessageView>)
    ensures
        trim_cut(first_size, rest) <= rest.len(),
        trimmed_rest(first_size, rest) == rest.skip(trim_cut(first_size, rest) as int),
    decreases rest.len(),
{
    if rest.len() <= 1 || first_size + total_size(rest) <= CONTEXT_BUDGET_BYTES {
        assert(rest.skip(0) =~= rest);
    } else if rest[1].is_assistant() {
        lemma_trimmed_rest_is_suffix(first_size, rest.skip(2));
        assert(rest.skip(2).skip(trim_cut(first_size, rest.skip(2)) as int) =~= rest.skip(
            trim_cut(first_size, rest) as int,
        ));
    } else {
        lemma_trimmed_rest_is_suffix(first_size, rest.skip(1));
        assert(rest.skip(1).skip(trim_cut(first_size, rest.skip(1)) as int) =~= rest.skip(
            trim_cut(first_size, rest) as int,
        ));
    }
}

/// Trimming keeps the first message, and what follows it is a suffix of the
/// conversation.
pub proof fn lemma_trimmed_keeps_first(conv: Seq<MessageView>)
    requires
        conv.len() > 0,
    ensures
        trimmed(conv).len() > 0,
        trimmed(conv)[0] == conv[0],
        exists|cut: int|
            1 <= cut <= conv.len() && trimmed(conv) == seq![conv[0]] + conv.skip(cut),
{
    if total_size(conv) <= CONTEXT_BUDGET_BYTES || conv.len() <= 2 {
        assert(conv =~= seq![conv[0]] + conv.skip(1));
    } else {
        let first_size = conv[0].json_size();
        lemma_trimmed_rest_is_suffix(first_size, conv.skip(1));
        let cut = 1 + trim_cut(first_size, conv.skip(1));
        assert(conv.skip(1).skip(cut - 1) =~= conv.skip(cut as int));
    }
}

proof fn lemma_total_size_push(conv: Seq<MessageView>, m: MessageView)
    ensures
        total_size(conv.push(m)) == total_size(conv) + m.json_size(),
{
    assert(conv.push(m).drop_last() =~= conv);
}

proof fn lemma_total_size_skip(conv: Seq<MessageView>)
    requires
        conv.len() > 0,
    ensures
        total_size(conv) == conv[0].json_size() + total_size(conv.skip(1)),
    decreases conv.len(),
{
    if conv.len() == 1 {
        assert(conv.drop_last() =~= conv.skip(1));
        assert(total_size(conv.drop_last()) == 0);
    } else {
        lemma_total_size_skip(conv.drop_last());
        assert(conv.drop_last().skip(1) =~= conv.skip(1).drop_last());
        assert(conv.drop_last()[0] == conv[0]);
        assert(conv.skip(1).last() == conv.last());
    }
}

/// Trims the conversation to the byte budget.
pub fn trim_conversation(messages: &mut Vec<Message>)
    ensures
        views(final(messages)@) == trimmed(views(old(messages)@)),
        old(messages)@.len() > 0 ==> final(messages)@.len() > 0 && final(messages)@[0] == old(
            messages,
        )@[0],
{
    let n = messages.len();
    let ghost conv = views(messages@);
    let mut sizes: Vec<usize> = Vec::new();
    let mut total: u128 = 0;
    let mut i: usize = 0;
    while i < n
        invariant
            n == messages.len(),
            conv == views(messages@),
            i <= n,
            sizes@.len() == i,
            forall|k: int| 0 <= k < i ==> sizes@[k] == conv[k].json_size(),
            total == total_size(conv.take(i as int)),
            total <= i * 0xFFFF_FFFF_FFFF_FFFF,
        decreases n - i,
    {
        let size = messages[i].json_size();
        proof {
            lemma_total_size_push(conv.take(i as int), conv[i as int]);
            assert(conv.take(i as int).push(conv[i as int]) =~= conv.take(i + 1));
        }
        sizes.push(size);
        total = total + size as u128;
        i = i + 1;
    }
    assert(conv.take(n as int) =~= conv);
    if total <= CONTEXT_BUDGET_BYTES as u128 || n <= 2 {
        return ;
    }
    // `after` is what the first message and the messages from `start` on weigh.
    let ghost first_size = conv[0].json_size();
    let mut start: usize = 1;
    let mut after: u128 = total;
    proof {
        lemma_total_size_skip(conv);
    }
    while n - start > 1 && after > CONTEXT_BUDGET_BYTES as u128
        invariant
            n == messages.len(),
            conv == views(messages@),
            sizes@.len() == n,
            forall|k: int| 0 <= k < n ==> sizes@[k] == conv[k].json_size(),
            1 <= start <= n,
            first_size == conv[0].json_size(),
            after == first_size + total_size(conv.skip(start as int)),
            trimmed_rest(first_size, conv.skip(1)) == trimmed_rest(
                first_size,
                conv.skip(start as int),
            ),
        decreases n - start,
    {
        let ghost rest = conv.skip(start as int);
        proof {
            lemma_total_size_skip(rest);
            assert(rest.skip(1) =~= conv.skip(start + 1));
            lemma_total_size_skip(rest.skip(1));
            assert(rest.skip(2) =~= conv.skip(start + 2));
            assert(rest.skip(1).skip(1) =~= rest.skip(2));
        }
        after = after - sizes[start] as u128;
        start = start + 1;
        if messages[start].is_assistant() {
            after = after - sizes[start] as u128;
            start = start + 1;
        }
    }
    let ghost orig = messages@;
    let mut removed: usize = 1;
    assert(messages@ =~= seq![orig[0]] + orig.skip(1));
    while removed < start
        invariant
            1 <= removed <= start <= n,
            orig.len() == n,
            orig == old(messages)@,
            messages@ == seq![orig[0]] + orig.skip(removed as int),
        decreases start - removed,
    {
        messages.remove(1);
        assert(messages@ =~= seq![orig[0]] + orig.skip(removed + 1));
        removed = removed + 1;
    }
    assert(views(messages@) =~= seq![conv[0]] + conv.skip(start as int));
    assert(conv.skip(start as int) =~= trimmed_rest(first_size, conv.skip(start as int)));
}

/// Trims the conversation where the trim is due: before the first call of a
/// turn and whenever the last call reported input tokens at or above the
/// threshold.
pub fn trim_if_needed(messages: &mut Vec<Message>, last_input_tokens: u64)
    ensures
        views(final(messages)@) == gated(views(old(messages)@), last_input_tokens),
        !trim_due(last_input_tokens) ==> final(messages)@ == old(messages)@,
        old(messages)@.len() > 0 ==> final(messages)@.len() > 0 && final(messages)@[0] == old(
            messages,
        )@[0],
{
    if last_input_tokens == 0 || last_input_tokens >= TRIM_THRESHOLD {
        trim_conversation(messages);
    }
}

/// Every block is a tool request.
pub open spec fn only_tool_use(content: Seq<BlockView>) -> bool {
    forall|i: int| 0 <= i < content.len() ==> content[i] is ToolUse
}

/// The conversation after a failed call: without a trailing user message,
/// and, where the message before it is an assistant message made of tool
/// requests only, without that message and the user message before it.
pub open spec fn recovered(conv: Seq<MessageView>) -> Seq<MessageView> {
    let c1 = if conv.len() > 0 && conv.last().is_user() {
        conv.drop_last()
    } else {
        conv
    };
    if c1.len() > 0 && c1.last().is_assistant() && only_tool_use(c1.last().content) {
        let c2 = c1.drop_last();
        if c2.len() > 0 && c2.last().is_user() {
            c2.drop_last()
        } else {
            c2
        }
    } else {
        c1
    }
}

/// Whether every block is a tool request.
pub fn all_tool_use(content: &Vec<ContentBlock>) -> (r: bool)
    ensures
        r == only_tool_use(views(content@)),
{
    let mut i: usize = 0;
    while i < content.len()
        invariant
            i <= content.len(),
            forall|k: int| 0 <= k < i ==> views(content@)[k] is ToolUse,
        decreases content.len() - i,
    {
        if !content[i].is_tool_use() {
            assert(!(views(content@)[i as int] is ToolUse));
            return false;
        }
        i = i + 1;
    }
    true
}

/// Restores the shape of the conversation after a failed call.
pub fn recover_conversation(messages: &mut Vec<Message>)
    ensures
        views(final(messages)@) == recovered(views(old(messages)@)),
        final(messages)@.len() <= old(messages)@.len(),
        final(messages)@ == old(messages)@.take(final(messages)@.len() as int),
{
    let ghost conv = views(messages@);
    let n = messages.len();
    if n > 0 && messages[n - 1].is_user() {
        messages.pop();
    }
    let ghost c1 = views(messages@);
    assert(c1 =~= if conv.len() > 0 && conv.last().is_user() {
        conv.drop_last()
    } else {
        conv
    });
    let n = messages.len();
    if n > 0 && messages[n - 1].is_assistant() && all_tool_use(&messages[n - 1].content) {
        messages.pop();
        let n = messages.len();
        assert(views(messages@) =~= c1.drop_last());
        if n > 0 && messages[n - 1].is_user() {
            messages.pop();
            assert(views(messages@) =~= c1.drop_last().drop_last());
        }
    }
}

/// A tool request whose input is null: what is left of a request that was
/// cut off before its arguments arrived.
pub open spec fn is_null_tool_use(b: BlockView) -> bool {
    b matches BlockView::ToolUse { input, .. } && input is Null
}

/// The text that stands for a reply of which nothing is left.
pub open spec fn placeholder_block() -> BlockView {
    BlockView::Text { text: "[Response truncated]"@ }
}

/// The blocks without the tool requests that have a null input; where that
/// leaves nothing, the placeholder.
pub open spec fn without_null_tool_use(blocks: Seq<BlockView>) -> Seq<BlockView> {
    let kept = blocks.filter(|b: BlockView| !is_null_tool_use(b));
    if kept.len() == 0 {
        seq![placeholder_block()]
    } else {
        kept
    }
}

/// Removes the tool requests with a null input from a reply that was cut off
/// at the token limit.
pub fn filter_null_input_tool_use(blocks: Vec<ContentBlock>) -> (r: Vec<ContentBlock>)
    ensures
        views(r@) == without_null_tool_use(views(blocks@)),
{
    let ghost keep = |b: BlockView| !is_null_tool_use(b);
    let mut kept: Vec<ContentBlock> = Vec::new();
    let mut i: usize = 0;
    assert(views(blocks@).take(0) =~= Seq::<BlockView>::empty());
    while i < blocks.len()
        invariant
            i <= blocks.len(),
            keep == |b: BlockView| !is_null_tool_use(b),
            views(kept@) == views(blocks@).take(i as int).filter(keep),
        decreases blocks.len() - i,
    {
        proof {
            let prefix = views(blocks@).take(i as int);
            assert(prefix.push(blocks@[i as int]@) =~= views(blocks@).take(i + 1));
            Seq::lemma_filter_push(prefix, blocks@[i as int]@, keep);
        }
        let is_null = match &blocks[i] {
            ContentBlock::ToolUse { input, .. } => input.is_null(),
            _ => false,
        };
        if !is_null {
            let ghost before = kept@;
            kept.push(blocks[i].clone());
            assert(views(kept@) =~= views(before).push(blocks@[i as int]@));
        }
        i = i + 1;
    }
    assert(views(blocks@).take(blocks@.len() as int) =~= views(blocks@));
    if kept.len() == 0 {
        let mut out: Vec<ContentBlock> = Vec::new();
        out.push(ContentBlock::text("[Response truncated]"));
        assert(views(out@) =~= seq![placeholder_block()]);
        out
    } else {
        kept
    }
}

/// What follows a reply that was cut off at the token limit.
#[derive(Debug, Clone, Copy, PartialEq, Eq, Structural)]
pub enum MaxTokensAction {
    /// Nothing but the placeholder is left: the turn ends.
    BreakEmpty,
    /// Tool requests are present: they are dispatched.
    DispatchTools,
    /// Text only, and continuations are left: the model is asked to go on.
    Continue,
    /// Text only, and the continuations are used up: the turn ends.
    BreakCapReached,
}

/// Some block is a tool request.
pub open spec fn has_tool_use(blocks: Seq<BlockView>) -> bool {
    exists|i: int| 0 <= i < blocks.len() && blocks[i] is ToolUse
}

/// The decision on a reply cut off at the token limit, after its tool
/// requests with null input were removed.
pub open spec fn max_tokens_action(blocks: Seq<BlockView>, continuation_count: nat)
    -> MaxTokensAction {
    if blocks.len() == 1 && blocks[0] == placeholder_block() {
        MaxTokensAction::BreakEmpty
    } else if has_tool_use(blocks) {
        MaxTokensAction::DispatchTools
    } else if continuation_count < MAX_CONTINUATIONS {
        MaxTokensAction::Continue
    } else {
        MaxTokensAction::BreakCapReached
    }
}

/// Whether some block is a tool request.
pub fn any_tool_use(blocks: &Vec<ContentBlock>) -> (r: bool)
    ensures
        r == has_tool_use(views(blocks@)),
{
    let mut i: usize = 0;
    while i < blocks.len()
        invariant
            i <= blocks.len(),
            forall|k: int| 0 <= k < i ==> !(views(blocks@)[k] is ToolUse),
        decreases blocks.len() - i,
    {
        if blocks[i].is_tool_use() {
            assert(views(blocks@)[i as int] is ToolUse);
            return true;
        }
        i = i + 1;
    }
    false
}

/// Decides what follows a reply that was cut off at the token limit.
pub fn classify_max_tokens(blocks: &Vec<ContentBlock>, continuation_count: usize) -> (r:
    MaxTokensAction)
    ensures
        r == max_tokens_action(views(blocks@), continuation_count as nat),
{
    let is_empty = blocks.len() == 1 && match &blocks[0] {
        ContentBlock::Text { text } => str_eq(text.as_str(), "[Response truncated]"),
        _ => false,
    };
    if is_empty {
        return MaxTokensAction::BreakEmpty;
    }
    if any_tool_use(blocks) {
        MaxTokensAction::DispatchTools
    } else if continuation_count < MAX_CONTINUATIONS {
        MaxTokensAction::Continue
    } else {
        MaxTokensAction::BreakCapReached
    }
}

/// A reply at the token limit whose blocks are all tool requests with a null
/// input comes down to the placeholder, and ends the turn.
pub proof fn lemma_all_null_tool_use_breaks_empty(blocks: Seq<BlockView>, continuation_count: nat)
    requires
        forall|i: int| 0 <= i < blocks.len() ==> is_null_tool_use(#[trigger] blocks[i]),
    ensures
        without_null_tool_use(blocks) == seq![placeholder_block()],
        max_tokens_action(without_null_tool_use(blocks), continuation_count)
            == MaxTokensAction::BreakEmpty,
{
    let keep = |b: BlockView| !is_null_tool_use(b);
    let kept = blocks.filter(keep);
    if kept.len() > 0 {
        blocks.lemma_filter_pred(keep, 0);
        assert(kept.contains(kept[0]));
        blocks.lemma_filter_contains_rev(keep, kept[0]);
        let j = choose|j: int| 0 <= j < blocks.len() && blocks[j] == kept[0];
        assert(is_null_tool_use(blocks[j]));
    }
}

/// A user message that holds one text.
pub fn user_text_message(text: &str) -> (r: Message)
    ensures
        r@.role == "user"@,
        r@.content == seq![BlockView::Text { text: text@ }],
{
    let mut content: Vec<ContentBlock> = Vec::new();
    content.push(ContentBlock::text(text));
    let m = Message { role: owned("user"), content };
    assert(m@.content =~= seq![BlockView::Text { text: text@ }]);
    m
}

} // verus!
