//! The data exchanged with the model endpoint: content blocks, messages,
//! usage counters, stop reasons and faults, with their JSON encoding and the
//! classification of faults into transient and permanent.

use crate::json::{
    json_array, json_bool, json_model, json_object, json_render, json_set, json_string, json_u64,
    render_json, JsonModel,
};
use crate::text::{owned, str_eq};
use vstd::prelude::*;

verus! {

/// The views of the items of a sequence, in order.
pub open spec fn views<T: View>(s: Seq<T>) -> Seq<T::V> {
    Seq::new(s.len(), |i: int| s[i]@)
}

/// What a transport fault reports of itself.
#[derive(Debug)]
pub struct TransportFault {
    pub timeout: bool,
    pub connect: bool,
    pub message: String,
}

/// A fault of one call to the model endpoint.
#[derive(Debug)]
pub enum AgentError {
    Api(TransportFault),
    Json(serde_json::Error),
    HttpError { status: u16, retry_after: Option<u64>, body: String },
    StreamTransient(String),
    StreamParse(String),
}

#[derive(Debug, Clone, Copy, PartialEq, Eq, Structural)]
pub enum ErrorClass {
    Transient,
    Permanent,
}

/// The class of an HTTP status: 429 and every status from 500 to 599, 503
/// and 529 among them, are transient; all others are permanent.
pub open spec fn status_is_transient(status: u16) -> bool {
    status == 429 || (500 <= status && status <= 599)
}

/// The class of a fault.
pub open spec fn error_class(e: AgentError) -> ErrorClass {
    match e {
        AgentError::HttpError { status, .. } => if status_is_transient(status) {
            ErrorClass::Transient
        } else {
            ErrorClass::Permanent
        },
        AgentError::StreamTransient(_) => ErrorClass::Transient,
        AgentError::StreamParse(_) => ErrorClass::Permanent,
        AgentError::Api(fault) => if fault.timeout || fault.connect {
            ErrorClass::Transient
        } else {
            ErrorClass::Permanent
        },
        AgentError::Json(_) => ErrorClass::Permanent,
    }
}

pub fn classify_error(e: &AgentError) -> (class: ErrorClass)
    ensures
        class == error_class(*e),
{
    match e {
        AgentError::HttpError { status, .. } => {
                        if *status == 429 || (500 <= *status && *status <= 599) {
                ErrorClass::Transient
            } else {
                ErrorClass::Permanent
            }
        },
        AgentError::StreamTransient(_) => ErrorClass::Transient,
        AgentError::StreamParse(_) => ErrorClass::Permanent,
        AgentError::Api(fault) => {
            if fault.timeout || fault.connect {
                ErrorClass::Transient
            } else {
                ErrorClass::Permanent
            }
        },
        AgentError::Json(_) => ErrorClass::Permanent,
    }
}

impl From<serde_json::Error> for AgentError {
    fn from(e: serde_json::Error) -> (r: AgentError) {
        AgentError::Json(e)
    }
}

impl vstd::std_specs::convert::FromSpecImpl<serde_json::Error> for AgentError {
    open spec fn obeys_from_spec() -> bool {
        true
    }

    open spec fn from_spec(e: serde_json::Error) -> AgentError {
        AgentError::Json(e)
    }
}

#[derive(Debug, Clone, Copy, PartialEq, Eq, Structural)]
pub enum StopReason {
    EndTurn,
    MaxTokens,
    ToolUse,
}

impl StopReason {
    /// The reason that the wire name stands for.
    pub open spec fn of_name(name: Seq<char>) -> Option<StopReason> {
        if name == "end_turn"@ {
            Some(StopReason::EndTurn)
        } else if name == "max_tokens"@ {
            Some(StopReason::MaxTokens)
        } else if name == "tool_use"@ {
            Some(StopReason::ToolUse)
        } else {
            None
        }
    }

    pub open spec fn name(self) -> Seq<char> {
        match self {
            StopReason::EndTurn => "end_turn"@,
            StopReason::MaxTokens => "max_tokens"@,
            StopReason::ToolUse => "tool_use"@,
        }
    }

    /// Reads a wire name; `None` for any other text.
    pub fn from_name(name: &str) -> (r: Option<StopReason>)
        ensures
            r == Self::of_name(name@),
    {
        if str_eq(name, "end_turn") {
            Some(StopReason::EndTurn)
        } else if str_eq(name, "max_tokens") {
            Some(StopReason::MaxTokens)
        } else if str_eq(name, "tool_use") {
            Some(StopReason::ToolUse)
        } else {
            None
        }
    }

    /// The wire name.
    pub fn as_str(&self) -> (r: &'static str)
        ensures
            r@ == self.name(),
    {
        match self {
            StopReason::EndTurn => "end_turn",
            StopReason::MaxTokens => "max_tokens",
            StopReason::ToolUse => "tool_use",
        }
    }
}

/// One piece of a message's content.
#[derive(Debug)]
pub enum ContentBlock {
    Text { text: String },
    ToolUse { id: String, name: String, input: serde_json::Value },
    ToolResult { tool_use_id: String, content: String, is_error: Option<bool> },
}

/// The content of a [`ContentBlock`].
pub enum BlockView {
    Text { text: Seq<char> },
    ToolUse { id: Seq<char>, name: Seq<char>, input: JsonModel },
    ToolResult { tool_use_id: Seq<char>, content: Seq<char>, is_error: Option<bool> },
}

impl View for ContentBlock {
    type V = BlockView;

    open spec fn view(&self) -> BlockView {
        match *self {
            ContentBlock::Text { text } => BlockView::Text { text: text@ },
            ContentBlock::ToolUse { id, name, input } => BlockView::ToolUse {
                id: id@,
                name: name@,
                input: json_model(input),
            },
            ContentBlock::ToolResult { tool_use_id, content, is_error } => BlockView::ToolResult {
                tool_use_id: tool_use_id@,
                content: content@,
                is_error,
            },
        }
    }
}

impl Clone for ContentBlock {
    fn clone(&self) -> (r: Self)
        ensures
            r == *self,
    {
        match self {
            ContentBlock::Text { text } => ContentBlock::Text { text: text.clone() },
            ContentBlock::ToolUse { id, name, input } => ContentBlock::ToolUse {
                id: id.clone(),
                name: name.clone(),
                input: input.clone(),
            },
            ContentBlock::ToolResult { tool_use_id, content, is_error } => {
                ContentBlock::ToolResult {
                    tool_use_id: tool_use_id.clone(),
                    content: content.clone(),
                    is_error: *is_error,
                }
            },
        }
    }
}

impl BlockView {
    /// A request to run a tool whose input is not null.
    pub open spec fn is_valid_tool_use(self) -> bool {
        self matches BlockView::ToolUse { input, .. } && !(input is Null)
    }

    /// The JSON object that stands for the block on the wire.
    pub open spec fn json(self) -> JsonModel {
        match self {
            BlockView::Text { text } => JsonModel::empty_object().with(
                "type"@,
                JsonModel::String("text"@),
            ).with("text"@, JsonModel::String(text)),
            BlockView::ToolUse { id, name, input } => JsonModel::empty_object().with(
                "type"@,
                JsonModel::String("tool_use"@),
            ).with("id"@, JsonModel::String(id)).with("name"@, JsonModel::String(name)).with(
                "input"@,
                input,
            ),
            BlockView::ToolResult { tool_use_id, content, is_error } => {
                let base = JsonModel::empty_object().with(
                    "type"@,
                    JsonModel::String("tool_result"@),
                ).with("tool_use_id"@, JsonModel::String(tool_use_id)).with(
                    "content"@,
                    JsonModel::String(content),
                );
                match is_error {
                    Some(flag) => base.with("is_error"@, JsonModel::Bool(flag)),
                    None => base,
                }
            },
        }
    }
}

impl ContentBlock {
    /// A text block.
    pub fn text(text: &str) -> (r: ContentBlock)
        ensures
            r@ == (BlockView::Text { text: text@ }),
    {
        ContentBlock::Text { text: owned(text) }
    }

    /// The answer to the tool request `tool_use_id`. A failure carries
    /// `is_error: Some(true)`, a success no flag.
    pub fn tool_result(tool_use_id: &str, content: String, failed: bool) -> (r: ContentBlock)
        ensures
            r@ == (BlockView::ToolResult {
                tool_use_id: tool_use_id@,
                content: content@,
                is_error: if failed {
                    Some(true)
                } else {
                    None
                },
            }),
    {
        ContentBlock::ToolResult {
            tool_use_id: owned(tool_use_id),
            content,
            is_error: if failed {
                Some(true)
            } else {
                None
            },
        }
    }

    /// Whether this is a request to run a tool.
    pub fn is_tool_use(&self) -> (r: bool)
        ensures
            r == (self@ is ToolUse),
    {
        match self {
            ContentBlock::ToolUse { .. } => true,
            _ => false,
        }
    }

    /// Whether this is a request to run a tool with an input that is not null.
    pub fn is_valid_tool_use(&self) -> (r: bool)
        ensures
            r == self@.is_valid_tool_use(),
    {
        match self {
            ContentBlock::ToolUse { input, .. } => !input.is_null(),
            _ => false,
        }
    }

    /// The JSON object that stands for the block on the wire.
    pub fn to_json(&self) -> (r: serde_json::Value)
        ensures
            json_model(r) == self@.json(),
    {
        let mut obj = json_object();
        match self {
            ContentBlock::Text { text } => {
                json_set(&mut obj, "type", json_string(owned("text")));
                json_set(&mut obj, "text", json_string(text.clone()));
            },
            ContentBlock::ToolUse { id, name, input } => {
                json_set(&mut obj, "type", json_string(owned("tool_use")));
                json_set(&mut obj, "id", json_string(id.clone()));
                json_set(&mut obj, "name", json_string(name.clone()));
                json_set(&mut obj, "input", input.clone());
            },
            ContentBlock::ToolResult { tool_use_id, content, is_error } => {
                json_set(&mut obj, "type", json_string(owned("tool_result")));
                json_set(&mut obj, "tool_use_id", json_string(tool_use_id.clone()));
                json_set(&mut obj, "content", json_string(content.clone()));
                match is_error {
                    Some(flag) => {
                        json_set(&mut obj, "is_error", json_bool(*flag));
                    },
                    None => {},
                }
            },
        }
        obj
    }
}

/// A copy of the blocks.
pub fn clone_blocks(blocks: &Vec<ContentBlock>) -> (r: Vec<ContentBlock>)
    ensures
        r@ == blocks@,
{
    let mut out: Vec<ContentBlock> = Vec::new();
    let mut i: usize = 0;
    while i < blocks.len()
        invariant
            i <= blocks.len(),
            out@ == blocks@.subrange(0, i as int),
        decreases blocks.len() - i,
    {
        out.push(blocks[i].clone());
        i = i + 1;
    }
    out
}

/// One entry of a conversation.
#[derive(Debug)]
pub struct Message {
    pub role: String,
    pub content: Vec<ContentBlock>,
}

/// The content of a [`Message`].
pub struct MessageView {
    pub role: Seq<char>,
    pub content: Seq<BlockView>,
}

impl View for Message {
    type V = MessageView;

    open spec fn view(&self) -> MessageView {
        MessageView { role: self.role@, content: views(self.content@) }
    }
}

impl Clone for Message {
    fn clone(&self) -> (r: Self)
        ensures
            r@ == self@,
            r.role == self.role,
            r.content@ == self.content@,
    {
        Message { role: self.role.clone(), content: clone_blocks(&self.content) }
    }
}

impl MessageView {
    pub open spec fn is_user(self) -> bool {
        self.role == "user"@
    }

    pub open spec fn is_assistant(self) -> bool {
        self.role == "assistant"@
    }

    /// The JSON object that stands for the message on the wire.
    pub open spec fn json(self) -> JsonModel {
        JsonModel::empty_object().with("role"@, JsonModel::String(self.role)).with(
            "content"@,
            JsonModel::Array(self.content.map_values(|b: BlockView| b.json())),
        )
    }

    /// The number of bytes of the message's compact JSON text.
    pub open spec fn json_size(self) -> nat {
        vstd::utf8::encode_utf8(json_render(self.json())).len()
    }
}

/// The two roles are different texts.
pub proof fn lemma_roles_differ()
    ensures
        "user"@ != "assistant"@,
{
    reveal_strlit("user");
    reveal_strlit("assistant");
    assert("user"@.len() == 4);
    assert("assistant"@.len() == 9);
}

impl Message {
    /// A message of the user.
    pub fn user(content: Vec<ContentBlock>) -> (r: Message)
        ensures
            r@.role == "user"@,
            r.content == content,
    {
        Message { role: owned("user"), content }
    }

    /// A message of the assistant.
    pub fn assistant(content: Vec<ContentBlock>) -> (r: Message)
        ensures
            r@.role == "assistant"@,
            r.content == content,
    {
        Message { role: owned("assistant"), content }
    }

    pub fn is_user(&self) -> (r: bool)
        ensures
            r == self@.is_user(),
    {
        str_eq(self.role.as_str(), "user")
    }

    pub fn is_assistant(&self) -> (r: bool)
        ensures
            r == self@.is_assistant(),
    {
        str_eq(self.role.as_str(), "assistant")
    }

    /// The JSON object that stands for the message on the wire.
    pub fn to_json(&self) -> (r: serde_json::Value)
        ensures
            json_model(r) == self@.json(),
    {
        let mut items: Vec<serde_json::Value> = Vec::new();
        let mut i: usize = 0;
        while i < self.content.len()
            invariant
                i <= self.content.len(),
                items@.len() == i,
                forall|k: int|
                    0 <= k < i ==> json_model(#[trigger] items@[k]) == self.content@[k]@.json(),
            decreases self.content.len() - i,
        {
            items.push(self.content[i].to_json());
            i = i + 1;
        }
        assert(items@.map_values(|v: serde_json::Value| json_model(v)) =~= self@.content.map_values(
            |b: BlockView| b.json(),
        ));
        let mut obj = json_object();
        json_set(&mut obj, "role", json_string(self.role.clone()));
        json_set(&mut obj, "content", json_array(items));
        obj
    }

    /// The number of bytes of the message's compact JSON text.
    pub fn json_size(&self) -> (r: usize)
        ensures
            r == self@.json_size(),
    {
        let text = render_json(&self.to_json());
        text.as_str().as_bytes().len()
    }
}

/// The four token counters that the endpoint reports for one call.
#[derive(Debug, Clone, Copy, PartialEq, Eq, Structural)]
pub struct Usage {
    pub input_tokens: u64,
    pub output_tokens: u64,
    pub cache_creation_input_tokens: u64,
    pub cache_read_input_tokens: u64,
}

impl Default for Usage {
    fn default() -> (r: Usage)
        ensures
            r == Usage::zero(),
    {
        Usage {
            input_tokens: 0,
            output_tokens: 0,
            cache_creation_input_tokens: 0,
            cache_read_input_tokens: 0,
        }
    }
}

impl Usage {
    pub open spec fn zero() -> Usage {
        Usage {
            input_tokens: 0,
            output_tokens: 0,
            cache_creation_input_tokens: 0,
            cache_read_input_tokens: 0,
        }
    }

    /// The JSON object that stands for the counters.
    pub open spec fn json(self) -> JsonModel {
        JsonModel::empty_object().with(
            "input_tokens"@,
            JsonModel::Int(self.input_tokens as int),
        ).with("output_tokens"@, JsonModel::Int(self.output_tokens as int)).with(
            "cache_creation_input_tokens"@,
            JsonModel::Int(self.cache_creation_input_tokens as int),
        ).with("cache_read_input_tokens"@, JsonModel::Int(self.cache_read_input_tokens as int))
    }

    /// The JSON object that stands for the counters.
    pub fn to_json(&self) -> (r: serde_json::Value)
        ensures
            json_model(r) == self.json(),
    {
        let mut obj = json_object();
        json_set(&mut obj, "input_tokens", json_u64(self.input_tokens));
        json_set(&mut obj, "output_tokens", json_u64(self.output_tokens));
        json_set(&mut obj, "cache_creation_input_tokens", json_u64(self.cache_creation_input_tokens));
        json_set(&mut obj, "cache_read_input_tokens", json_u64(self.cache_read_input_tokens));
        obj
    }
}

/// `serde_json::Error`'s `Display`: the words of a JSON fault. Nothing is
/// claimed of them.
#[verifier::external_body]
fn json_fault_text(error: &serde_json::Error) -> (r: String) {
    error.to_string()
}

/// The words for a fault, but for those of a JSON fault, which come from
/// the JSON library and of which only the heading is known here.
pub open spec fn fault_text(e: AgentError) -> Option<Seq<char>> {
    match e {
        AgentError::Api(fault) => Some("API error: "@ + fault.message@),
        AgentError::Json(_) => None,
        AgentError::HttpError { status, body, .. } => Some(
            "HTTP "@ + crate::text::decimal(status as nat) + ": "@ + body@,
        ),
        AgentError::StreamTransient(message) => Some("Stream error (transient): "@ + message@),
        AgentError::StreamParse(message) => Some("Stream parse error: "@ + message@),
    }
}

impl AgentError {
    /// The words for the fault.
    pub fn message(&self) -> (r: String)
        ensures
            match fault_text(*self) {
                Some(text) => r@ == text,
                None => exists|detail: Seq<char>| r@ == "JSON error: "@ + detail,
            },
    {
        match self {
            AgentError::Api(fault) => {
                let mut out = crate::text::owned("API error: ");
                crate::text::push_text(&mut out, fault.message.as_str());
                out
            },
            AgentError::Json(error) => {
                let detail = json_fault_text(error);
                let mut out = crate::text::owned("JSON error: ");
                crate::text::push_text(&mut out, detail.as_str());
                assert(out@ == "JSON error: "@ + detail@);
                out
            },
            AgentError::HttpError { status, body, .. } => {
                let mut out = crate::text::owned("HTTP ");
                crate::text::push_decimal(&mut out, *status as u64);
                crate::text::push_text(&mut out, ": ");
                crate::text::push_text(&mut out, body.as_str());
                out
            },
            AgentError::StreamTransient(message) => {
                let mut out = crate::text::owned("Stream error (transient): ");
                crate::text::push_text(&mut out, message.as_str());
                out
            },
            AgentError::StreamParse(message) => {
                let mut out = crate::text::owned("Stream parse error: ");
                crate::text::push_text(&mut out, message.as_str());
                out
            },
        }
    }
}

} // verus!
