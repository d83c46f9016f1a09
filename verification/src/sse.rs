//! The decoder of the endpoint's event stream.
//!
//! The stream is a sequence of bytes in which events end with an empty line.
//! Within an event, each line that begins with `data: ` carries a JSON value.
//! The decoder takes the bytes as they arrive, in chunks of any size, and
//! rebuilds from the events the content blocks, the stop reason and the
//! usage counters of the reply.
//!
//! [`DecoderView`] is the decoder's state, and [`DecoderView::feed`] says
//! what a chunk does to it.

use crate::api::{views, AgentError, BlockView, ContentBlock, StopReason, Usage};
use crate::json::{
    json_member, json_model, json_object, json_parse, json_str_at, json_u64_at, parse_json,
    JsonModel,
};
use crate::text::{bytes_eq, bytes_start_with, owned, push_text, seq_starts_with, str_eq};
use std::collections::HashMap;
use vstd::prelude::*;
use vstd::slice::slice_subrange;
use vstd::string::StringExecFns;

verus! {

broadcast use vstd::std_specs::hash::group_hash_axioms;

/// What `String::from_utf8_lossy` makes of the bytes: their text, with the
/// replacement character in place of whatever is no valid UTF-8.
pub uninterp spec fn utf8_lossy(bytes: Seq<u8>) -> Seq<char>;

/// `String::from_utf8_lossy`: the text of the bytes, a function of the bytes
/// alone, named by [`utf8_lossy`].
#[verifier::external_body]
fn decode_lossy(bytes: &[u8]) -> (r: String)
    ensures
        r@ == utf8_lossy(bytes@),
{
    String::from_utf8_lossy(bytes).into_owned()
}

/// A fault that the stream itself reported.
#[derive(Debug)]
pub struct StreamFault {
    /// Whether the call may be tried again.
    pub transient: bool,
    pub message: String,
}

/// The content of a [`StreamFault`].
pub struct FaultView {
    pub transient: bool,
    pub message: Seq<char>,
}

impl View for StreamFault {
    type V = FaultView;

    open spec fn view(&self) -> FaultView {
        FaultView { transient: self.transient, message: self.message@ }
    }
}

/// The number that a JSON value holds, 0 where it holds none.
pub open spec fn count_of(m: JsonModel) -> u64 {
    match m.unsigned() {
        Some(n) => n,
        None => 0,
    }
}

/// The text that a JSON value holds, `default` where it holds none.
pub open spec fn text_or(m: JsonModel, default: Seq<char>) -> Seq<char> {
    match m.text() {
        Some(t) => t,
        None => default,
    }
}

/// The position of the first line feed of `bytes` at or after `from`.
pub open spec fn next_newline(bytes: Seq<u8>, from: int) -> Option<int>
    decreases bytes.len() - from,
{
    if from < 0 || from >= bytes.len() {
        None
    } else if bytes[from] == 10 {
        Some(from)
    } else {
        next_newline(bytes, from + 1)
    }
}

/// The position of the first empty line of `bytes` at or after `from`: of
/// two line feeds in a row.
pub open spec fn next_break(bytes: Seq<u8>, from: int) -> Option<int>
    decreases bytes.len() - from,
{
    if from < 0 || from + 2 > bytes.len() {
        None
    } else if bytes[from] == 10 && bytes[from + 1] == 10 {
        Some(from)
    } else {
        next_break(bytes, from + 1)
    }
}

/// A line without the carriage return that may stand before its line feed.
pub open spec fn without_cr(line: Seq<u8>) -> Seq<u8> {
    if line.len() > 0 && line.last() == 13 {
        line.drop_last()
    } else {
        line
    }
}

/// The bytes of `data: `.
pub open spec fn data_prefix() -> Seq<u8> {
    seq![100u8, 97u8, 116u8, 97u8, 58u8, 32u8]
}

/// The bytes of `[DONE]`.
pub open spec fn done_marker() -> Seq<u8> {
    seq![91u8, 68u8, 79u8, 78u8, 69u8, 93u8]
}

/// The JSON value that a line carries: a line that begins with `data: `
/// carries what follows, unless that is `[DONE]` or no JSON.
pub open spec fn line_payload(line: Seq<u8>) -> Option<JsonModel> {
    if !seq_starts_with(line, data_prefix()) {
        None
    } else {
        let payload = line.skip(6);
        if payload == done_marker() {
            None
        } else {
            json_parse(utf8_lossy(payload))
        }
    }
}

/// What the decoder has rebuilt of the reply.
pub struct ReplyView {
    pub blocks: Seq<BlockView>,
    /// For each block, the JSON text of its input as far as it has arrived;
    /// `None` for a block that collects none.
    pub buffers: Seq<Option<Seq<char>>>,
    pub stop_reason: Option<StopReason>,
    pub usage: Usage,
    /// The fault that the stream reported. After it nothing is decoded.
    pub fault: Option<FaultView>,
}

/// The state of the decoder.
pub struct DecoderView {
    /// The bytes that belong to an event that has not ended.
    pub pending: Seq<u8>,
    pub reply: ReplyView,
}

impl ReplyView {
    pub open spec fn initial() -> ReplyView {
        ReplyView {
            blocks: Seq::empty(),
            buffers: Seq::empty(),
            stop_reason: None,
            usage: Usage::zero(),
            fault: None,
        }
    }

    /// `message_start`: the usage of the message, where it has one, sets the
    /// counters of the input.
    pub open spec fn message_start(self, m: JsonModel) -> ReplyView {
        match m.member("message"@) {
            Some(message) => match message.member("usage"@) {
                Some(u) => ReplyView {
                    usage: Usage {
                        input_tokens: count_of(u.at("input_tokens"@)),
                        cache_creation_input_tokens: count_of(
                            u.at("cache_creation_input_tokens"@),
                        ),
                        cache_read_input_tokens: count_of(u.at("cache_read_input_tokens"@)),
                        ..self.usage
                    },
                    ..self
                },
                None => self,
            },
            None => self,
        }
    }

    /// `content_block_start`: a text block begins empty; a tool request
    /// begins with the empty object as its input and collects the JSON text
    /// of its input.
    pub open spec fn block_start(self, m: JsonModel) -> ReplyView {
        let block = m.at("content_block"@);
        let kind = block.at("type"@).text();
        if kind == Some("text"@) {
            ReplyView {
                blocks: self.blocks.push(BlockView::Text { text: Seq::empty() }),
                buffers: self.buffers.push(None),
                ..self
            }
        } else if kind == Some("tool_use"@) {
            ReplyView {
                blocks: self.blocks.push(
                    BlockView::ToolUse {
                        id: text_or(block.at("id"@), Seq::empty()),
                        name: text_or(block.at("name"@), Seq::empty()),
                        input: JsonModel::empty_object(),
                    },
                ),
                buffers: self.buffers.push(Some(Seq::empty())),
                ..self
            }
        } else {
            self
        }
    }

    /// `content_block_delta`: text is handed on and joins the text block at
    /// the index; a piece of input JSON joins what the block at the index
    /// has collected.
    pub open spec fn block_delta(self, m: JsonModel) -> (ReplyView, Seq<Seq<char>>) {
        let index = count_of(m.at("index"@)) as int;
        let delta = m.at("delta"@);
        let kind = delta.at("type"@).text();
        if kind == Some("text_delta"@) {
            match delta.at("text"@).text() {
                Some(piece) => (
                    if index < self.blocks.len() && self.blocks[index] is Text {
                        ReplyView {
                            blocks: self.blocks.update(
                                index,
                                BlockView::Text { text: self.blocks[index]->Text_text + piece },
                            ),
                            ..self
                        }
                    } else {
                        self
                    },
                    seq![piece],
                ),
                None => (self, Seq::empty()),
            }
        } else if kind == Some("input_json_delta"@) {
            match delta.at("partial_json"@).text() {
                Some(piece) => (
                    if index < self.buffers.len() && self.buffers[index] is Some {
                        ReplyView {
                            buffers: self.buffers.update(
                                index,
                                Some(self.buffers[index]->0 + piece),
                            ),
                            ..self
                        }
                    } else {
                        self
                    },
                    Seq::empty(),
                ),
                None => (self, Seq::empty()),
            }
        } else {
            (self, Seq::empty())
        }
    }

    /// `content_block_stop`: what the block at the index has collected
    /// becomes the input of its tool request, where it is JSON; else the
    /// input stays as it is.
    pub open spec fn block_stop(self, m: JsonModel) -> ReplyView {
        let index = count_of(m.at("index"@)) as int;
        if index < self.buffers.len() && index < self.blocks.len() && self.buffers[index] is Some {
            let closed = ReplyView { buffers: self.buffers.update(index, None), ..self };
            match (self.blocks[index], json_parse(self.buffers[index]->0)) {
                (BlockView::ToolUse { id, name, .. }, Some(input)) => ReplyView {
                    blocks: self.blocks.update(index, BlockView::ToolUse { id, name, input }),
                    ..closed
                },
                _ => closed,
            }
        } else {
            self
        }
    }

    /// `message_delta`: sets the stop reason, where one is named (to none,
    /// where the name is unknown), and the counter of the output, where the
    /// event has a usage.
    pub open spec fn message_delta(self, m: JsonModel) -> ReplyView {
        let stop_reason = match m.at("delta"@).at("stop_reason"@).text() {
            Some(name) => StopReason::of_name(name),
            None => self.stop_reason,
        };
        let usage = match m.member("usage"@) {
            Some(u) => Usage { output_tokens: count_of(u.at("output_tokens"@)), ..self.usage },
            None => self.usage,
        };
        ReplyView { stop_reason, usage, ..self }
    }

    /// Whether a fault of this type may pass: the endpoint was overloaded,
    /// failed, or limits the rate.
    pub open spec fn is_transient_type(kind: Seq<char>) -> bool {
        kind == "overloaded_error"@ || kind == "api_error"@ || kind == "rate_limit_error"@
    }

    /// `error`: the stream reports a fault, and decoding ends.
    pub open spec fn error(self, m: JsonModel) -> ReplyView {
        let kind = text_or(m.at("error"@).at("type"@), "unknown"@);
        let message = text_or(m.at("error"@).at("message"@), "unknown error"@);
        ReplyView {
            fault: Some(
                FaultView {
                    transient: Self::is_transient_type(kind),
                    message: kind + ": "@ + message,
                },
            ),
            ..self
        }
    }

    /// What one event does, and the text it hands on. An event of an
    /// unknown type does nothing.
    pub open spec fn event(self, m: JsonModel) -> (ReplyView, Seq<Seq<char>>) {
        let kind = text_or(m.at("type"@), Seq::empty());
        if kind == "message_start"@ {
            (self.message_start(m), Seq::empty())
        } else if kind == "content_block_start"@ {
            (self.block_start(m), Seq::empty())
        } else if kind == "content_block_delta"@ {
            self.block_delta(m)
        } else if kind == "content_block_stop"@ {
            (self.block_stop(m), Seq::empty())
        } else if kind == "message_delta"@ {
            (self.message_delta(m), Seq::empty())
        } else if kind == "error"@ {
            (self.error(m), Seq::empty())
        } else {
            (self, Seq::empty())
        }
    }

    /// What one line does. A line that carries no JSON value does nothing.
    pub open spec fn line(self, line: Seq<u8>) -> (ReplyView, Seq<Seq<char>>) {
        match line_payload(line) {
            Some(m) => self.event(m),
            None => (self, Seq::empty()),
        }
    }

    /// What the lines of an event do, from offset `from` of the event's
    /// bytes on. Lines end with a line feed, or a carriage return and a line
    /// feed; the last line may end with the event. After a fault no line is
    /// read.
    pub open spec fn lines_from(self, bytes: Seq<u8>, from: int) -> (ReplyView, Seq<Seq<char>>)
        decreases bytes.len() - from,
    {
        if from < 0 || from >= bytes.len() || self.fault is Some {
            (self, Seq::empty())
        } else {
            match next_newline(bytes, from) {
                None => self.line(bytes.subrange(from, bytes.len() as int)),
                Some(end) => if from <= end < bytes.len() {
                    let (after, first) = self.line(without_cr(bytes.subrange(from, end)));
                    let (last, rest) = after.lines_from(bytes, end + 1);
                    (last, first + rest)
                } else {
                    (self, Seq::empty())
                },
            }
        }
    }

    /// What the events of `bytes` do, from offset `from` on. Each event is
    /// what stands before the next empty line; what stands behind the last
    /// empty line stays pending. After a fault nothing is read or kept.
    pub open spec fn events_from(self, bytes: Seq<u8>, from: int) -> (
        DecoderView,
        Seq<Seq<char>>,
    )
        decreases bytes.len() - from,
    {
        if self.fault is Some || from < 0 || from > bytes.len() {
            (DecoderView { pending: Seq::empty(), reply: self }, Seq::empty())
        } else {
            match next_break(bytes, from) {
                None => (
                    DecoderView { pending: bytes.subrange(from, bytes.len() as int), reply: self },
                    Seq::empty(),
                ),
                Some(end) => if from <= end && end + 2 <= bytes.len() {
                    let (after, first) = self.lines_from(bytes.subrange(from, end), 0);
                    let (last, rest) = after.events_from(bytes, end + 2);
                    (last, first + rest)
                } else {
                    (DecoderView { pending: Seq::empty(), reply: self }, Seq::empty())
                },
            }
        }
    }

    /// The fault with which a stream ends that named no stop reason.
    pub open spec fn ended_early() -> FaultView {
        FaultView { transient: true, message: "stream ended without stop_reason"@ }
    }

    /// The fault of the stream at its end, if it has one: the fault it
    /// reported, or that it named no stop reason.
    pub open spec fn final_fault(self) -> Option<FaultView> {
        match self.fault {
            Some(f) => Some(f),
            None => match self.stop_reason {
                Some(_) => None,
                None => Some(Self::ended_early()),
            },
        }
    }
}

impl DecoderView {
    pub open spec fn initial() -> DecoderView {
        DecoderView { pending: Seq::empty(), reply: ReplyView::initial() }
    }

    /// What a chunk of the stream does, and the texts it hands on, in their
    /// order.
    pub open spec fn feed(self, chunk: Seq<u8>) -> (DecoderView, Seq<Seq<char>>) {
        self.reply.events_from(self.pending + chunk, 0)
    }
}

/// The fault as the controller sees it.
pub open spec fn fault_matches(fault: FaultView, error: AgentError) -> bool {
    if fault.transient {
        error matches AgentError::StreamTransient(m) && m@ == fault.message
    } else {
        error matches AgentError::StreamParse(m) && m@ == fault.message
    }
}

/// An empty line that stands in the bytes stays the first one when more
/// bytes follow.
pub proof fn lemma_break_stable(bytes: Seq<u8>, more: Seq<u8>, from: int)
    requires
        0 <= from,
        next_break(bytes, from) is Some,
    ensures
        next_break(bytes + more, from) == next_break(bytes, from),
    decreases bytes.len() - from,
{
    if !(bytes[from] == 10 && bytes[from + 1] == 10) {
        lemma_break_stable(bytes, more, from + 1);
    }
}

/// Where the break is found, it is one, and it lies at or behind `from`.
pub proof fn lemma_break_position(bytes: Seq<u8>, from: int)
    requires
        0 <= from,
    ensures
        next_break(bytes, from) matches Some(end) ==> from <= end && end + 2 <= bytes.len()
            && bytes[end] == 10 && bytes[end + 1] == 10,
    decreases bytes.len() - from,
{
    if from + 2 <= bytes.len() && !(bytes[from] == 10 && bytes[from + 1] == 10) {
        lemma_break_position(bytes, from + 1);
    }
}

/// Where the line feed is found, it is one, and it lies at or behind `from`.
pub proof fn lemma_newline_position(bytes: Seq<u8>, from: int)
    requires
        0 <= from,
    ensures
        next_newline(bytes, from) matches Some(end) ==> from <= end < bytes.len() && bytes[end]
            == 10,
    decreases bytes.len() - from,
{
    if from < bytes.len() && bytes[from] != 10 {
        lemma_newline_position(bytes, from + 1);
    }
}

/// Searching from `at` is searching what is left when the bytes before
/// `from` are gone.
pub proof fn lemma_break_shift(bytes: Seq<u8>, from: int, at: int)
    requires
        0 <= from <= at,
        from <= bytes.len(),
    ensures
        next_break(bytes, at) == match next_break(bytes.skip(from), at - from) {
            Some(end) => Some(end + from),
            None => None,
        },
    decreases bytes.len() - at,
{
    let rest = bytes.skip(from);
    assert(rest.len() == bytes.len() - from);
    if at + 2 <= bytes.len() {
        assert(rest[at - from] == bytes[at]);
        assert(rest[at - from + 1] == bytes[at + 1]);
        if !(bytes[at] == 10 && bytes[at + 1] == 10) {
            lemma_break_shift(bytes, from, at + 1);
        }
    }
}

/// Decoding from `at` is decoding what is left when the bytes before `from`
/// are gone.
pub proof fn lemma_events_shift(s: ReplyView, bytes: Seq<u8>, from: int, at: int)
    requires
        0 <= from <= at <= bytes.len(),
    ensures
        s.events_from(bytes, at) == s.events_from(bytes.skip(from), at - from),
    decreases bytes.len() - at,
{
    let rest = bytes.skip(from);
    if s.fault is None {
        lemma_break_shift(bytes, from, at);
        lemma_break_position(bytes, at);
        match next_break(bytes, at) {
            None => {
                assert(bytes.subrange(at, bytes.len() as int) =~= rest.subrange(
                    at - from,
                    rest.len() as int,
                ));
            },
            Some(end) => {
                assert(bytes.subrange(at, end) =~= rest.subrange(at - from, end - from));
                let (after, first) = s.lines_from(bytes.subrange(at, end), 0);
                lemma_events_shift(after, bytes, from, end + 2);
            },
        }
    }
}

/// More bytes behind the stream change nothing of what was decoded: decoding
/// `bytes` and then going on with what is pending and `more` comes to what
/// decoding `bytes + more` comes to.
pub proof fn lemma_events_extend(s: ReplyView, bytes: Seq<u8>, more: Seq<u8>, from: int)
    requires
        0 <= from <= bytes.len(),
    ensures
        s.events_from(bytes + more, from) == ({
            let (first, handed) = s.events_from(bytes, from);
            let (last, rest) = first.feed(more);
            (last, handed + rest)
        }),
    decreases bytes.len() - from,
{
    let all = bytes + more;
    if s.fault is Some {
        assert(Seq::<Seq<char>>::empty() + Seq::<Seq<char>>::empty() =~= Seq::<Seq<char>>::empty());
    } else {
        lemma_break_position(bytes, from);
        match next_break(bytes, from) {
            None => {
                let first = DecoderView {
                    pending: bytes.subrange(from, bytes.len() as int),
                    reply: s,
                };
                assert(first.pending + more =~= all.skip(from));
                lemma_events_shift(s, all, from, from);
                let (last, rest) = first.feed(more);
                assert(Seq::<Seq<char>>::empty() + rest =~= rest);
            },
            Some(end) => {
                lemma_break_stable(bytes, more, from);
                assert(all.subrange(from, end) =~= bytes.subrange(from, end));
                let (after, first_texts) = s.lines_from(bytes.subrange(from, end), 0);
                lemma_events_extend(after, bytes, more, end + 2);
                let (first, handed) = after.events_from(bytes, end + 2);
                let (last, rest) = first.feed(more);
                assert(first_texts + (handed + rest) =~= (first_texts + handed) + rest);
            },
        }
    }
}

/// The chunks of a stream can be cut anywhere: feeding two chunks one after
/// the other comes to the same state, and hands on the same texts in the
/// same order, as feeding the two as one.
pub proof fn lemma_chunk_boundaries(s: DecoderView, first: Seq<u8>, second: Seq<u8>)
    ensures
        s.feed(first + second) == ({
            let (middle, handed) = s.feed(first);
            let (last, rest) = middle.feed(second);
            (last, handed + rest)
        }),
{
    let bytes = s.pending + first;
    assert(s.pending + (first + second) =~= bytes + second);
    lemma_events_extend(s.reply, bytes, second, 0);
}

/// The input buffers, one place for each block: the text gathered for a
/// tool request that is still open, and nothing for every other block.
pub open spec fn buffer_views(blocks: Seq<BlockView>, buffers: Map<usize, String>) -> Seq<
    Option<Seq<char>>,
> {
    Seq::new(
        blocks.len(),
        |i: int|
            if blocks[i] is ToolUse && buffers.contains_key(i as usize) {
                Some(buffers[i as usize]@)
            } else {
                None
            },
    )
}

/// The view of a fault that may be absent.
pub open spec fn fault_view(fault: Option<StreamFault>) -> Option<FaultView> {
    match fault {
        Some(f) => Some(f@),
        None => None,
    }
}

/// Appends `more` to `bytes`.
fn append_bytes(bytes: &mut Vec<u8>, more: &[u8])
    ensures
        final(bytes)@ == old(bytes)@ + more@,
{
    let mut i: usize = 0;
    assert(bytes@ =~= old(bytes)@ + more@.take(0));
    while i < more.len()
        invariant
            i <= more.len(),
            bytes@ == old(bytes)@ + more@.take(i as int),
        decreases more.len() - i,
    {
        bytes.push(more[i]);
        assert(bytes@ =~= old(bytes)@ + more@.take(i + 1));
        i = i + 1;
    }
    assert(more@.take(more@.len() as int) =~= more@);
}

/// The position of the first line feed at or after `from`.
fn find_newline(bytes: &[u8], from: usize) -> (r: Option<usize>)
    ensures
        match r {
            Some(end) => next_newline(bytes@, from as int) == Some(end as int) && from <= end
                < bytes@.len(),
            None => next_newline(bytes@, from as int) is None,
        },
{
    let mut at: usize = from;
    while at < bytes.len()
        invariant
            from <= at,
            next_newline(bytes@, at as int) == next_newline(bytes@, from as int),
        decreases bytes.len() - at,
    {
        if bytes[at] == 10 {
            return Some(at);
        }
        at = at + 1;
    }
    None
}

/// The position of the first empty line at or after `from`.
fn find_break(bytes: &[u8], from: usize) -> (r: Option<usize>)
    ensures
        match r {
            Some(end) => next_break(bytes@, from as int) == Some(end as int) && from <= end
                && end + 2 <= bytes@.len(),
            None => next_break(bytes@, from as int) is None,
        },
{
    let mut at: usize = from;
    while at < bytes.len() && bytes.len() - at >= 2
        invariant
            from <= at,
            next_break(bytes@, at as int) == next_break(bytes@, from as int),
        decreases bytes.len() - at,
    {
        if bytes[at] == 10 && bytes[at + 1] == 10 {
            return Some(at);
        }
        at = at + 1;
    }
    None
}

/// Reads the text of the member `inner` of the member `outer`.
fn json_str_in<'a>(v: &'a serde_json::Value, outer: &str, inner: &str) -> (r: Option<&'a str>)
    ensures
        match r {
            Some(s) => json_model(*v).at(outer@).at(inner@).text() == Some(s@),
            None => json_model(*v).at(outer@).at(inner@).text() is None,
        },
{
    match json_member(v, outer) {
        Some(m) => json_str_at(m, inner),
        None => None,
    }
}

/// Reads the number of a member, 0 where it holds none.
fn json_count_at(v: &serde_json::Value, key: &str) -> (n: u64)
    ensures
        n == count_of(json_model(*v).at(key@)),
{
    match json_u64_at(v, key) {
        Some(n) => n,
        None => 0,
    }
}

/// The decoder of one reply's event stream.
#[derive(Debug)]
pub struct SseDecoder {
    buffer: Vec<u8>,
    blocks: Vec<ContentBlock>,
        /// The input gathered so far for each open tool request, by the
    /// position of its block.
    input_buffers: HashMap<usize, String>,
    stop_reason: Option<StopReason>,
    usage: Usage,
    fault: Option<StreamFault>,
}

impl View for SseDecoder {
    type V = DecoderView;

    closed spec fn view(&self) -> DecoderView {
        DecoderView {
            pending: self.buffer@,
            reply: ReplyView {
                blocks: views(self.blocks@),
                buffers: buffer_views(views(self.blocks@), self.input_buffers@),
                stop_reason: self.stop_reason,
                usage: self.usage,
                fault: fault_view(self.fault),
            },
        }
    }
}

impl SseDecoder {
    /// A decoder at the start of a stream.
    pub fn new() -> (r: SseDecoder)
        ensures
            r@ == DecoderView::initial(),
    {
        let r = SseDecoder {
            buffer: Vec::new(),
            blocks: Vec::new(),
            input_buffers: HashMap::new(),
            stop_reason: None,
            usage: Usage::default(),
            fault: None,
        };
        assert(r@.reply.blocks =~= Seq::empty());
        assert(r@.reply.buffers =~= Seq::empty());
        r
    }

    /// Whether the stream has reported a fault.
    pub fn has_failed(&self) -> (r: bool)
        ensures
            r == (self@.reply.fault is Some),
    {
        self.fault.is_some()
    }

    fn message_start(&mut self, v: &serde_json::Value)
        ensures
            final(self)@.reply == old(self)@.reply.message_start(json_model(*v)),
            final(self).buffer == old(self).buffer,
    {
        match json_member(v, "message") {
            Some(message) => match json_member(message, "usage") {
                Some(u) => {
                    self.usage.input_tokens = json_count_at(u, "input_tokens");
                    self.usage.cache_creation_input_tokens = json_count_at(
                        u,
                        "cache_creation_input_tokens",
                    );
                    self.usage.cache_read_input_tokens = json_count_at(
                        u,
                        "cache_read_input_tokens",
                    );
                },
                None => {},
            },
            None => {},
        }
    }

    fn block_start(&mut self, v: &serde_json::Value)
        ensures
            final(self)@.reply == old(self)@.reply.block_start(json_model(*v)),
            final(self).buffer == old(self).buffer,
    {
        let block = match json_member(v, "content_block") {
            Some(block) => block,
            None => {
                return ;
            },
        };
        let kind = match json_str_at(block, "type") {
            Some(kind) => kind,
            None => {
                return ;
            },
        };
        if str_eq(kind, "text") {
            let piece = ContentBlock::Text { text: String::new() };
                        self.blocks.push(piece);
            assert(views(self.blocks@) =~= views(old(self).blocks@).push(piece@));
            assert(self@.reply.buffers =~= old(self)@.reply.buffers.push(None));
        } else if str_eq(kind, "tool_use") {
            let id = match json_str_at(block, "id") {
                Some(id) => owned(id),
                None => String::new(),
            };
            let name = match json_str_at(block, "name") {
                Some(name) => owned(name),
                None => String::new(),
            };
            let piece = ContentBlock::ToolUse { id, name, input: json_object() };
                        let at = self.blocks.len();
            self.blocks.push(piece);
            self.input_buffers.insert(at, String::new());
            assert(views(self.blocks@) =~= views(old(self).blocks@).push(piece@));
            assert(self@.reply.buffers =~= old(self)@.reply.buffers.push(Some(Seq::empty())));
        }
    }

    fn block_delta(&mut self, v: &serde_json::Value, handed: &mut Vec<String>)
        ensures
            final(self)@.reply == old(self)@.reply.block_delta(json_model(*v)).0,
            views(final(handed)@) == views(old(handed)@) + old(self)@.reply.block_delta(
                json_model(*v),
            ).1,
            final(self).buffer == old(self).buffer,
    {
        let index = json_count_at(v, "index");
        assert(views(handed@) + Seq::<Seq<char>>::empty() =~= views(handed@));
        let delta = match json_member(v, "delta") {
            Some(delta) => delta,
            None => {
                return ;
            },
        };
        let kind = match json_str_at(delta, "type") {
            Some(kind) => kind,
            None => {
                return ;
            },
        };
        if str_eq(kind, "text_delta") {
            match json_str_at(delta, "text") {
                Some(piece) => {
                    handed.push(owned(piece));
                    assert(views(handed@) =~= views(old(handed)@) + seq![piece@]);
                    if index < self.blocks.len() as u64 {
                        let at = index as usize;
                        match &mut self.blocks[at] {
                            ContentBlock::Text { text } => {
                                text.append(piece);
                            },
                            _ => {},
                        }
                        assert(views(self.blocks@) =~= if old(self)@.reply.blocks[at as int]
                            is Text {
                            old(self)@.reply.blocks.update(
                                at as int,
                                BlockView::Text {
                                    text: old(self)@.reply.blocks[at as int]->Text_text + piece@,
                                },
                            )
                                                } else {
                            old(self)@.reply.blocks
                        });
                        assert(self@.reply.buffers =~= old(self)@.reply.buffers);
                    }
                },
                None => {},
            }
        } else if str_eq(kind, "input_json_delta") {
            match json_str_at(delta, "partial_json") {
                Some(piece) => {
                    if index < self.blocks.len() as u64 {
                        let at = index as usize;
                        if self.blocks[at].is_tool_use() {
                            match self.input_buffers.remove(&at) {
                                Some(text) => {
                                    let mut text = text;
                                    text.append(piece);
                                    self.input_buffers.insert(at, text);
                                },
                                None => {},
                            }
                        }
                        assert(self@.reply.buffers =~= if old(
                            self,
                        )@.reply.buffers[at as int] is Some {
                            old(self)@.reply.buffers.update(
                                at as int,
                                Some(old(self)@.reply.buffers[at as int]->0 + piece@),
                            )
                        } else {
                            old(self)@.reply.buffers
                        });
                    }
                },
                None => {},
            }
        }
    }

    fn block_stop(&mut self, v: &serde_json::Value)
        ensures
            final(self)@.reply == old(self)@.reply.block_stop(json_model(*v)),
            final(self).buffer == old(self).buffer,
    {
        let index = json_count_at(v, "index");
        if index >= self.blocks.len() as u64 {
            return ;
        }
        let at = index as usize;
        if !self.blocks[at].is_tool_use() {
            return ;
        }
        let parsed = match self.input_buffers.remove(&at) {
            Some(text) => parse_json(text.as_str()),
            None => {
                assert(self@.reply.buffers =~= old(self)@.reply.buffers);
                return ;
            },
        };
        assert(self@.reply.buffers =~= old(self)@.reply.buffers.update(at as int, None));
        match parsed {
            Ok(value) => {
                match &mut self.blocks[at] {
                    ContentBlock::ToolUse { input, .. } => {
                        *input = value;
                    },
                    _ => {},
                }
                assert(views(self.blocks@) =~= match old(self)@.reply.blocks[at as int] {
                    BlockView::ToolUse { id, name, .. } => old(self)@.reply.blocks.update(
                        at as int,
                        BlockView::ToolUse { id, name, input: json_model(value) },
                    ),
                    _ => old(self)@.reply.blocks,
                });
                assert(self@.reply.buffers =~= old(self)@.reply.buffers.update(at as int, None));
            },
            Err(_) => {},
        }
    }

    fn message_delta(&mut self, v: &serde_json::Value)
        ensures
            final(self)@.reply == old(self)@.reply.message_delta(json_model(*v)),
            final(self).buffer == old(self).buffer,
    {
        match json_str_in(v, "delta", "stop_reason") {
            Some(name) => {
                self.stop_reason = StopReason::from_name(name);
            },
            None => {},
        }
        match json_member(v, "usage") {
            Some(u) => {
                self.usage.output_tokens = json_count_at(u, "output_tokens");
            },
            None => {},
        }
    }

    fn error(&mut self, v: &serde_json::Value)
        ensures
            final(self)@.reply == old(self)@.reply.error(json_model(*v)),
            final(self).buffer == old(self).buffer,
    {
        let kind = match json_str_in(v, "error", "type") {
            Some(kind) => kind,
            None => "unknown",
        };
        let detail = match json_str_in(v, "error", "message") {
            Some(detail) => detail,
            None => "unknown error",
        };
        let transient = str_eq(kind, "overloaded_error") || str_eq(kind, "api_error") || str_eq(
            kind,
            "rate_limit_error",
        );
        let mut message = owned(kind);
        push_text(&mut message, ": ");
        push_text(&mut message, detail);
        assert(message@ =~= kind@ + ": "@ + detail@);
        self.fault = Some(StreamFault { transient, message });
    }

    fn event(&mut self, v: &serde_json::Value, handed: &mut Vec<String>)
        ensures
            final(self)@.reply == old(self)@.reply.event(json_model(*v)).0,
            views(final(handed)@) == views(old(handed)@) + old(self)@.reply.event(
                json_model(*v),
            ).1,
            final(self).buffer == old(self).buffer,
    {
        proof {
            reveal_strlit("");
            assert(""@ =~= Seq::<char>::empty());
        }
        assert(views(handed@) + Seq::<Seq<char>>::empty() =~= views(handed@));
        let kind = match json_str_at(v, "type") {
            Some(kind) => kind,
            None => "",
        };
        if str_eq(kind, "message_start") {
            self.message_start(v);
        } else if str_eq(kind, "content_block_start") {
            self.block_start(v);
        } else if str_eq(kind, "content_block_delta") {
            self.block_delta(v, handed);
        } else if str_eq(kind, "content_block_stop") {
            self.block_stop(v);
        } else if str_eq(kind, "message_delta") {
            self.message_delta(v);
        } else if str_eq(kind, "error") {
            self.error(v);
        }
    }

    fn line(&mut self, line: &[u8], handed: &mut Vec<String>)
        ensures
            final(self)@.reply == old(self)@.reply.line(line@).0,
            views(final(handed)@) == views(old(handed)@) + old(self)@.reply.line(line@).1,
            final(self).buffer == old(self).buffer,
    {
        assert(views(handed@) + Seq::<Seq<char>>::empty() =~= views(handed@));
        let prefix: [u8; 6] = [100, 97, 116, 97, 58, 32];
        let done: [u8; 6] = [91, 68, 79, 78, 69, 93];
        assert(prefix@ =~= data_prefix());
        assert(done@ =~= done_marker());
        if !bytes_start_with(line, prefix.as_slice()) {
            return ;
        }
        let payload = slice_subrange(line, 6, line.len());
        assert(payload@ =~= line@.skip(6));
        if bytes_eq(payload, done.as_slice()) {
            return ;
        }
        let text = decode_lossy(payload);
        match parse_json(text.as_str()) {
            Ok(value) => {
                self.event(&value, handed);
            },
            Err(_) => {},
        }
    }

    fn lines(&mut self, block: &[u8], handed: &mut Vec<String>)
        ensures
            final(self)@.reply == old(self)@.reply.lines_from(block@, 0).0,
            views(final(handed)@) == views(old(handed)@) + old(self)@.reply.lines_from(
                block@,
                0,
            ).1,
            final(self).buffer == old(self).buffer,
    {
        let mut from: usize = 0;
        assert(views(handed@) + Seq::<Seq<char>>::empty() =~= views(handed@));
        while from < block.len() && self.fault.is_none()
            invariant
                self.buffer == old(self).buffer,
                ({
                    let (last, rest) = self@.reply.lines_from(block@, from as int);
                    (last, views(handed@) + rest)
                }) == ({
                    let (last, rest) = old(self)@.reply.lines_from(block@, 0);
                    (last, views(old(handed)@) + rest)
                }),
            decreases block.len() - from,
        {
            let ghost before = self@.reply;
            let ghost texts = views(handed@);
            match find_newline(block, from) {
                None => {
                    let rest = slice_subrange(block, from, block.len());
                    self.line(rest, handed);
                    from = block.len();
                    assert(views(handed@) + Seq::<Seq<char>>::empty() =~= views(handed@));
                },
                Some(end) => {
                    let whole = slice_subrange(block, from, end);
                    let line = if whole.len() > 0 && whole[whole.len() - 1] == 13 {
                        slice_subrange(whole, 0, whole.len() - 1)
                    } else {
                        whole
                    };
                    assert(line@ =~= without_cr(block@.subrange(from as int, end as int)));
                    self.line(line, handed);
                    from = end + 1;
                    proof {
                        let (after, first) = before.line(line@);
                        let (last, rest) = after.lines_from(block@, end + 1);
                        assert(texts + (first + rest) =~= (texts + first) + rest);
                    }
                },
            }
        }
    }

    /// Takes the next chunk of the stream, and hands on the texts of the
    /// reply that it holds, in their order.
    pub fn feed(&mut self, chunk: &[u8]) -> (handed: Vec<String>)
        ensures
            (final(self)@, views(handed@)) == old(self)@.feed(chunk@),
    {
        let mut data: Vec<u8> = Vec::new();
        data.append(&mut self.buffer);
        append_bytes(&mut data, chunk);
        assert(data@ =~= old(self)@.pending + chunk@);
        let mut handed: Vec<String> = Vec::new();
        let mut from: usize = 0;
        let mut done = false;
        assert(views(handed@) + old(self)@.feed(chunk@).1 =~= old(self)@.feed(chunk@).1);
        while !done
            invariant
                from <= data.len(),
                data@ == old(self)@.pending + chunk@,
                !done ==> self.buffer@.len() == 0,
                !done ==> ({
                    let (last, rest) = self@.reply.events_from(data@, from as int);
                    (last, views(handed@) + rest)
                }) == old(self)@.feed(chunk@),
                done ==> (self@, views(handed@)) == old(self)@.feed(chunk@),
            decreases data.len() - from + (if done { 0int } else { 1int }),
        {
            let ghost texts = views(handed@);
            let ghost before = self@.reply;
            assert(self.buffer@ =~= Seq::<u8>::empty());
            if self.fault.is_some() {
                assert(texts + Seq::<Seq<char>>::empty() =~= texts);
                done = true;
            } else {
                match find_break(data.as_slice(), from) {
                    None => {
                        let rest = slice_subrange(data.as_slice(), from, data.len());
                        append_bytes(&mut self.buffer, rest);
                        assert(self.buffer@ =~= data@.subrange(from as int, data@.len() as int));
                        assert(texts + Seq::<Seq<char>>::empty() =~= texts);
                        done = true;
                    },
                    Some(end) => {
                        let block = slice_subrange(data.as_slice(), from, end);
                        self.lines(block, &mut handed);
                        from = end + 2;
                        proof {
                            let (after, first) = before.lines_from(block@, 0);
                            let (last, rest) = after.events_from(data@, end + 2);
                            assert(texts + (first + rest) =~= (texts + first) + rest);
                        }
                    },
                }
            }
        }
        handed
    }

    /// Ends the stream: the blocks, the stop reason and the usage of the
    /// reply, or the fault of the stream. A stream that reported a fault
    /// fails with it; one that named no stop reason fails as one that may be
    /// tried again.
    pub fn finish(self) -> (r: Result<(Vec<ContentBlock>, StopReason, Usage), AgentError>)
        ensures
            match r {
                Ok((blocks, stop_reason, usage)) => self@.reply.final_fault() is None && views(
                    blocks@,
                ) == self@.reply.blocks && Some(stop_reason) == self@.reply.stop_reason && usage
                    == self@.reply.usage,
                Err(error) => self@.reply.final_fault() matches Some(fault) && fault_matches(
                    fault,
                    error,
                ),
            },
    {
        match self.fault {
            Some(StreamFault { transient, message }) => {
                if transient {
                    Err(AgentError::StreamTransient(message))
                } else {
                    Err(AgentError::StreamParse(message))
                }
            },
            None => match self.stop_reason {
                Some(stop_reason) => Ok((self.blocks, stop_reason, self.usage)),
                None => Err(
                    AgentError::StreamTransient(owned("stream ended without stop_reason")),
                ),
            },
        }
    }
}

/// What a whole stream, given as its chunks, comes to: the state after the
/// chunks from `from` on were fed, and the texts handed on.
pub open spec fn fed(s: DecoderView, chunks: Seq<Seq<u8>>, from: int) -> (DecoderView, Seq<Seq<char>>)
    decreases chunks.len() - from,
{
    if from < 0 || from >= chunks.len() {
        (s, Seq::empty())
    } else {
        let (next, first) = s.feed(chunks[from]);
        let (last, rest) = fed(next, chunks, from + 1);
        (last, first + rest)
    }
}

/// The views of the chunks.
pub open spec fn chunk_views(chunks: Seq<Vec<u8>>) -> Seq<Seq<u8>> {
    Seq::new(chunks.len(), |i: int| chunks[i]@)
}

/// The bytes of the chunks from `from` on, one after the other.
pub open spec fn joined(chunks: Seq<Seq<u8>>, from: int) -> Seq<u8>
    decreases chunks.len() - from,
{
    if from < 0 || from >= chunks.len() {
        Seq::empty()
    } else {
        chunks[from] + joined(chunks, from + 1)
    }
}

/// However a stream is cut into chunks, feeding the chunks one after the
/// other comes to the same state, and hands on the same texts in the same
/// order, as feeding the whole stream as one chunk.
pub proof fn lemma_chunks_as_one(s: DecoderView, chunks: Seq<Seq<u8>>, from: int)
    requires
        0 <= from < chunks.len(),
    ensures
        fed(s, chunks, from) == s.feed(joined(chunks, from)),
    decreases chunks.len() - from,
{
    let (next, first) = s.feed(chunks[from]);
    if from + 1 == chunks.len() {
        assert(joined(chunks, from + 1) =~= Seq::<u8>::empty());
        assert(chunks[from] + joined(chunks, from + 1) =~= chunks[from]);
        assert(fed(next, chunks, from + 1) == (next, Seq::<Seq<char>>::empty()));
        assert(first + Seq::<Seq<char>>::empty() =~= first);
    } else {
        lemma_chunks_as_one(next, chunks, from + 1);
        lemma_chunk_boundaries(s, chunks[from], joined(chunks, from + 1));
    }
}

/// Decodes a stream that is at hand as a whole, in its chunks: the reply or
/// the fault, and the texts that were handed on while it was decoded.
pub fn parse_sse_stream(chunks: &Vec<Vec<u8>>) -> (r: (
    Result<(Vec<ContentBlock>, StopReason, Usage), AgentError>,
    Vec<String>,
))
    ensures
        ({
            let (last, texts) = fed(DecoderView::initial(), chunk_views(chunks@), 0);
            &&& views(r.1@) == texts
            &&& match r.0 {
                Ok((blocks, stop_reason, usage)) => last.reply.final_fault() is None && views(
                    blocks@,
                ) == last.reply.blocks && Some(stop_reason) == last.reply.stop_reason && usage
                    == last.reply.usage,
                Err(error) => last.reply.final_fault() matches Some(fault) && fault_matches(
                    fault,
                    error,
                ),
            }
        }),
{
    let mut decoder = SseDecoder::new();
    let mut texts: Vec<String> = Vec::new();
    let mut i: usize = 0;
    let ghost all = chunk_views(chunks@);
    assert(views(texts@) + fed(decoder@, all, 0).1 =~= fed(decoder@, all, 0).1);
    while i < chunks.len()
        invariant
            i <= chunks.len(),
            all == chunk_views(chunks@),
            ({
                let (last, rest) = fed(decoder@, all, i as int);
                (last, views(texts@) + rest)
            }) == fed(DecoderView::initial(), all, 0),
        decreases chunks.len() - i,
    {
        let ghost before = decoder@;
        let ghost so_far = views(texts@);
        let mut handed = decoder.feed(chunks[i].as_slice());
        let ghost first = views(handed@);
        texts.append(&mut handed);
        assert(views(texts@) =~= so_far + first);
        proof {
            let (last, rest) = fed(decoder@, all, i + 1);
            assert(so_far + (first + rest) =~= (so_far + first) + rest);
        }
        i = i + 1;
    }
    assert(views(texts@) + Seq::<Seq<char>>::empty() =~= views(texts@));
    (decoder.finish(), texts)
}


} // verus!
