//! What is said to the endpoint, and what is made of its refusals.

use crate::api::{views, AgentError, Message, MessageView};
use crate::json::{
    json_array, json_bool, json_model, json_object, json_set, json_string, json_u64, JsonModel,
};
use crate::text::{owned, push_text, str_head};
use vstd::prelude::*;
use vstd::string::StringSliceAdditionalSpecFns;
use vstd::utf8::{decode_utf8, encode_utf8};

verus! {

/// The length of the bytes without the slashes at their end.
pub open spec fn trimmed_len(bytes: Seq<u8>) -> int
    decreases bytes.len(),
{
    if bytes.len() > 0 && bytes.last() == 47 {
        trimmed_len(bytes.drop_last())
    } else {
        bytes.len() as int
    }
}

/// The text without the slashes at its end.
pub open spec fn without_trailing_slashes(text: Seq<char>) -> Seq<char> {
    let bytes = encode_utf8(text);
    decode_utf8(bytes.subrange(0, trimmed_len(bytes)))
}

proof fn lemma_trimmed_len(bytes: Seq<u8>, end: int)
    requires
        0 <= end <= bytes.len(),
        forall|k: int| end <= k < bytes.len() ==> bytes[k] == 47,
        end == 0 || bytes[end - 1] != 47,
    ensures
        trimmed_len(bytes) == end,
    decreases bytes.len(),
{
    if end < bytes.len() {
        lemma_trimmed_len(bytes.drop_last(), end);
    }
}

/// The text without the slashes at its end.
pub fn trim_trailing_slashes(text: &str) -> (r: &str)
    ensures
        r@ == without_trailing_slashes(text@),
{
    let bytes = text.as_bytes();
    let mut end: usize = bytes.len();
    while end > 0 && bytes[end - 1] == 47
        invariant
            end <= bytes.len(),
            bytes@ == text.spec_bytes(),
            forall|k: int| end <= k < bytes@.len() ==> bytes@[k] == 47,
        decreases end,
    {
        end = end - 1;
    }
    proof {
        lemma_trimmed_len(bytes@, end as int);
        vstd::utf8::encode_utf8_valid_utf8(text@);
        if end < bytes@.len() {
            vstd::utf8::is_char_boundary_iff_not_is_continuation_byte(bytes@, end as int);
        } else {
            vstd::utf8::is_char_boundary_start_end_of_seq(bytes@);
        }
    }
    str_head(text, end)
}

/// Whether the byte is a decimal digit.
pub open spec fn is_digit(b: u8) -> bool {
    48 <= b <= 57
}

/// The number that the digits write.
pub open spec fn digits_value(digits: Seq<u8>) -> nat
    decreases digits.len(),
{
    if digits.len() == 0 {
        0
    } else {
        digits_value(digits.drop_last()) * 10 + (digits.last() - 48) as nat
    }
}

/// The number that a text writes, as `u64`'s `FromStr` reads it: digits,
/// with or without a plus sign before them, whose number fits.
pub open spec fn parsed_u64(bytes: Seq<u8>) -> Option<u64> {
    let digits = unsigned_part(bytes);
    if digits.len() > 0 && all_digits(digits) && digits_value(digits) <= u64::MAX {
        Some(digits_value(digits) as u64)
    } else {
        None
    }
}

/// The bytes behind a plus sign at the start, or all of them where there
/// is none.
pub open spec fn unsigned_part(bytes: Seq<u8>) -> Seq<u8> {
    if bytes.len() > 0 && bytes[0] == 43 {
        bytes.skip(1)
    } else {
        bytes
    }
}

/// Whether every byte is a decimal digit.
pub open spec fn all_digits(digits: Seq<u8>) -> bool {
    forall|i: int| 0 <= i < digits.len() ==> is_digit(#[trigger] digits[i])
}

proof fn lemma_digits_grow(digits: Seq<u8>, n: int)
    requires
        0 <= n <= digits.len(),
        forall|i: int| 0 <= i < digits.len() ==> is_digit(#[trigger] digits[i]),
    ensures
        digits_value(digits.take(n)) <= digits_value(digits),
    decreases digits.len() - n,
{
    if n < digits.len() {
        assert(digits.take(n + 1).drop_last() =~= digits.take(n));
        lemma_digits_grow(digits, n + 1);
    } else {
        assert(digits.take(n) =~= digits);
    }
}

/// Reads a number of seconds from a header's text.
pub fn parse_u64(text: &str) -> (r: Option<u64>)
    ensures
        r == parsed_u64(text.spec_bytes()),
{
    let bytes = text.as_bytes();
    let start: usize = if bytes.len() > 0 && bytes[0] == 43 {
        1
    } else {
        0
    };
        let ghost digits = bytes@.skip(start as int);
    proof {
        assert(bytes@.skip(0) =~= bytes@);
    }
    if bytes.len() == start {
        return None;
    }
    let mut value: u64 = 0;
    let mut i: usize = start;
    assert(digits.take(0) =~= Seq::<u8>::empty());
    while i < bytes.len()
        invariant
                        start <= i <= bytes.len(),
            start < bytes.len(),
            bytes@ == text.spec_bytes(),
            digits == bytes@.skip(start as int),
                        digits == unsigned_part(bytes@),
            forall|k: int| 0 <= k < i - start ==> is_digit(#[trigger] digits[k]),
            value == digits_value(digits.take(i - start)),
        decreases bytes.len() - i,
    {
        let b = bytes[i];
        assert(digits[i - start] == b);
                if b < 48 || b > 57 {
            proof {
                                assert(!is_digit(digits[i - start]));
                assert(!all_digits(digits));
            }
            return None;
        }
        let d: u64 = (b - 48) as u64;
        proof {
            assert(digits.take(i - start + 1).drop_last() =~= digits.take(i - start));
            assert(digits.take(i - start + 1).last() == b);
        }
        if value > (u64::MAX - d) / 10 {
                        proof {
                                assert(digits_value(digits.take(i - start + 1)) == value * 10 + d);
                assert(value * 10 + d > u64::MAX);
                                if all_digits(digits) {
                    lemma_digits_grow(digits, i - start + 1);
                }
            }
            return None;
        }
        value = value * 10 + d;
        i = i + 1;
    }
    assert(digits.take(digits.len() as int) =~= digits);
    Some(value)
}

/// Whether the status is one of success.
pub fn status_is_success(status: u16) -> (r: bool)
    ensures
        r == (200 <= status < 300),
{
    200 <= status && status < 300
}

/// The delay that a `retry-after` header asks for: its number of seconds,
/// where the header is there and holds one.
pub open spec fn retry_after_of_header(header: Option<Seq<u8>>) -> Option<u64> {
    match header {
        Some(bytes) => parsed_u64(bytes),
        None => None,
    }
}

/// The fault that a reply with a status of no success makes.
pub fn http_error(status: u16, retry_after: Option<&str>, body: String) -> (r: AgentError)
    ensures
        r matches AgentError::HttpError { status: s, retry_after: ra, body: b } && s == status
            && b == body && ra == retry_after_of_header(
            match retry_after {
                Some(text) => Some(text.spec_bytes()),
                None => None,
            },
        ),
{
    let seconds = match retry_after {
        Some(text) => parse_u64(text),
        None => None,
    };
    AgentError::HttpError { status, retry_after: seconds, body }
}

/// The address and the key of the endpoint.
#[derive(Debug)]
pub struct AnthropicClient {
    api_url: String,
    api_key: Option<String>,
}

/// The body of a request: the model, the token limit, the system prompt,
/// the conversation, the wish for a stream, and the tools where there are
/// any.
pub open spec fn request_json(
    model: Seq<char>,
    max_tokens: u32,
    system: Seq<char>,
    messages: Seq<MessageView>,
    tools: Seq<JsonModel>,
) -> JsonModel {
    let base = JsonModel::empty_object().with("model"@, JsonModel::String(model)).with(
        "max_tokens"@,
        JsonModel::Int(max_tokens as int),
    ).with("system"@, JsonModel::String(system)).with(
        "messages"@,
        JsonModel::Array(messages.map_values(|m: MessageView| m.json())),
    ).with("stream"@, JsonModel::Bool(true));
    if tools.len() > 0 {
        base.with("tools"@, JsonModel::Array(tools))
    } else {
        base
    }
}

impl AnthropicClient {
    /// The address of the endpoint, without slashes at its end.
    pub closed spec fn url(&self) -> Seq<char> {
        self.api_url@
    }

    /// The key, where there is one.
    pub closed spec fn key(&self) -> Option<Seq<char>> {
        match self.api_key {
            Some(k) => Some(k@),
            None => None,
        }
    }

    /// A client for the endpoint at `api_url`, with the key where one is
    /// set.
    pub fn new(api_url: &str, api_key: Option<String>) -> (r: AnthropicClient)
        ensures
            r.url() == without_trailing_slashes(api_url@),
            r.key() == match api_key {
                Some(k) => Some(k@),
                None => None,
            },
    {
        AnthropicClient { api_url: owned(trim_trailing_slashes(api_url)), api_key }
    }

    pub fn api_url(&self) -> (r: &str)
        ensures
            r@ == self.url(),
    {
        self.api_url.as_str()
    }

    pub fn has_api_key(&self) -> (r: bool)
        ensures
            r == (self.key() is Some),
    {
        self.api_key.is_some()
    }

    pub fn api_key(&self) -> (r: Option<&str>)
        ensures
            match r {
                Some(k) => self.key() == Some(k@),
                None => self.key() is None,
            },
    {
        match &self.api_key {
            Some(k) => Some(k.as_str()),
            None => None,
        }
    }

    /// The address to which requests go.
    pub fn messages_url(&self) -> (r: String)
        ensures
            r@ == self.url() + "/v1/messages"@,
    {
        let mut url = self.api_url.clone();
        push_text(&mut url, "/v1/messages");
        url
    }

    /// The body of the request for the next reply.
    pub fn request_body(
        &self,
        model: &str,
        max_tokens: u32,
        system: &str,
        messages: &Vec<Message>,
        tools: &Vec<serde_json::Value>,
    ) -> (r: serde_json::Value)
        ensures
            json_model(r) == request_json(
                model@,
                max_tokens,
                system@,
                views(messages@),
                tools@.map_values(|v: serde_json::Value| json_model(v)),
            ),
    {
        let mut items: Vec<serde_json::Value> = Vec::new();
        let mut i: usize = 0;
        while i < messages.len()
            invariant
                i <= messages.len(),
                items@.len() == i,
                forall|k: int|
                    0 <= k < i ==> json_model(#[trigger] items@[k]) == messages@[k]@.json(),
            decreases messages.len() - i,
        {
            items.push(messages[i].to_json());
            i = i + 1;
        }
        assert(items@.map_values(|v: serde_json::Value| json_model(v)) =~= views(
            messages@,
        ).map_values(|m: MessageView| m.json()));
        let mut body = json_object();
        json_set(&mut body, "model", json_string(owned(model)));
        json_set(&mut body, "max_tokens", json_u64(max_tokens as u64));
        json_set(&mut body, "system", json_string(owned(system)));
        json_set(&mut body, "messages", json_array(items));
        json_set(&mut body, "stream", json_bool(true));
        if tools.len() > 0 {
            let mut copies: Vec<serde_json::Value> = Vec::new();
            let mut k: usize = 0;
            while k < tools.len()
                invariant
                    k <= tools.len(),
                    copies@ == tools@.take(k as int),
                decreases tools.len() - k,
            {
                copies.push(tools[k].clone());
                assert(copies@ =~= tools@.take(k + 1));
                k = k + 1;
            }
            assert(tools@.take(tools@.len() as int) =~= tools@);
            json_set(&mut body, "tools", json_array(copies));
        }
        body
    }
}

} // verus!
