use forgeflare::api::{classify_error, AgentError, ContentBlock, ErrorClass, StopReason, Usage};
use forgeflare::sse::{parse_sse_stream, SseDecoder};

type Reply = (Vec<ContentBlock>, StopReason, Usage);

fn decode(chunks: Vec<Vec<u8>>) -> (Result<Reply, AgentError>, Vec<String>) {
    parse_sse_stream(&chunks)
}

fn decode_one(data: &str) -> (Result<Reply, AgentError>, Vec<String>) {
    decode(vec![data.as_bytes().to_vec()])
}

#[test]
fn parse_sse_text_response() {
    let sse_data = b"event: message_start\ndata: {\"type\":\"message_start\",\"message\":{\"id\":\"msg_1\",\"role\":\"assistant\"}}\n\nevent: content_block_start\ndata: {\"type\":\"content_block_start\",\"index\":0,\"content_block\":{\"type\":\"text\",\"text\":\"\"}}\n\nevent: content_block_delta\ndata: {\"type\":\"content_block_delta\",\"index\":0,\"delta\":{\"type\":\"text_delta\",\"text\":\"Hello world\"}}\n\nevent: content_block_stop\ndata: {\"type\":\"content_block_stop\",\"index\":0}\n\nevent: message_delta\ndata: {\"type\":\"message_delta\",\"delta\":{\"stop_reason\":\"end_turn\"}}\n\nevent: message_stop\ndata: {\"type\":\"message_stop\"}\n\n";

    let (result, handed) = decode(vec![sse_data.to_vec()]);
    let streamed: String = handed.concat();
    let (blocks, stop, _usage) = result.unwrap();

    assert_eq!(stop, StopReason::EndTurn);
    assert_eq!(blocks.len(), 1);
    assert_eq!(streamed, "Hello world");

    if let ContentBlock::Text { text } = &blocks[0] {
        assert_eq!(text, "Hello world");
    } else {
        panic!("expected Text block");
    }
}

fn tool_use_stream() -> String {
    [
    "event: content_block_start\n",
    "data: {\"type\":\"content_block_start\",\"index\":0,\"content_block\":{\"type\":\"tool_use\",\"id\":\"tu_1\",\"name\":\"Read\",\"input\":{}}}\n\n",
    "event: content_block_delta\n",
    "data: {\"type\":\"content_block_delta\",\"index\":0,\"delta\":{\"type\":\"input_json_delta\",\"partial_json\":\"{\\\"file_path\\\": \\\"/tmp/test\\\"}\"}}\n\n",
    "event: content_block_stop\n",
    "data: {\"type\":\"content_block_stop\",\"index\":0}\n\n",
    "event: message_delta\n",
    "data: {\"type\":\"message_delta\",\"delta\":{\"stop_reason\":\"tool_use\"}}\n\n",
    ]
    .concat()
}

#[test]
fn parse_sse_tool_use_response() {
    let (result, handed) = decode_one(&tool_use_stream());
    let (blocks, stop, _usage) = result.unwrap();

    assert_eq!(stop, StopReason::ToolUse);
    assert_eq!(blocks.len(), 1);
    assert!(handed.is_empty());

    if let ContentBlock::ToolUse { id, name, input } = &blocks[0] {
        assert_eq!(id, "tu_1");
        assert_eq!(name, "Read");
        assert_eq!(input["file_path"], "/tmp/test");
    } else {
        panic!("expected ToolUse block");
    }
}

#[test]
fn parse_sse_error_event_transient() {
    let sse_data = [
        "event: error\n",
        "data: {\"type\":\"error\",\"error\":{\"type\":\"overloaded_error\",\"message\":\"Overloaded\"}}\n\n",
    ].concat();
    let err = decode_one(&sse_data).0.unwrap_err();
    assert!(matches!(err, AgentError::StreamTransient(_)));
    if let AgentError::StreamTransient(message) = &err {
        assert_eq!(message, "overloaded_error: Overloaded");
    }
    assert_eq!(classify_error(&err), ErrorClass::Transient);
}

#[test]
fn parse_sse_error_event_permanent() {
    let sse_data = [
        "event: error\n",
        "data: {\"type\":\"error\",\"error\":{\"type\":\"invalid_request_error\",\"message\":\"Bad request\"}}\n\n",
    ].concat();
    let err = decode_one(&sse_data).0.unwrap_err();
    assert!(matches!(err, AgentError::StreamParse(_)));
    if let AgentError::StreamParse(message) = &err {
        assert_eq!(message, "invalid_request_error: Bad request");
    }
    assert_eq!(classify_error(&err), ErrorClass::Permanent);
}

#[test]
fn parse_sse_error_types() {
    for kind in ["overloaded_error", "api_error", "rate_limit_error"] {
        let data = format!(
            "data: {{\"type\":\"error\",\"error\":{{\"type\":\"{}\",\"message\":\"m\"}}}}\n\n",
            kind
        );
        let err = decode_one(&data).0.unwrap_err();
        assert!(matches!(err, AgentError::StreamTransient(_)), "{}", kind);
    }
    let err = decode_one("data: {\"type\":\"error\"}\n\n").0.unwrap_err();
    match err {
        AgentError::StreamParse(message) => assert_eq!(message, "unknown: unknown error"),
        _ => panic!("expected a permanent fault"),
    }
}

#[test]
fn parse_sse_missing_stop_reason() {
    let sse_data = [
        "event: content_block_start\n",
        "data: {\"type\":\"content_block_start\",\"index\":0,\"content_block\":{\"type\":\"text\",\"text\":\"\"}}\n\n",
        "event: content_block_delta\n",
        "data: {\"type\":\"content_block_delta\",\"index\":0,\"delta\":{\"type\":\"text_delta\",\"text\":\"partial\"}}\n\n",
    ].concat();
    let (result, handed) = decode_one(&sse_data);
    let err = result.unwrap_err();
    assert!(matches!(err, AgentError::StreamTransient(_)));
    if let AgentError::StreamTransient(message) = &err {
        assert_eq!(message, "stream ended without stop_reason");
    }
    assert_eq!(classify_error(&err), ErrorClass::Transient);
    assert_eq!(handed, vec!["partial".to_string()]);
}

fn usage_stream() -> String {
    [
    "event: message_start\n",
    "data: {\"type\":\"message_start\",\"message\":{\"id\":\"msg_1\",\"role\":\"assistant\",\"usage\":{\"input_tokens\":1500,\"cache_creation_input_tokens\":200,\"cache_read_input_tokens\":800}}}\n\n",
    "event: content_block_start\n",
    "data: {\"type\":\"content_block_start\",\"index\":0,\"content_block\":{\"type\":\"text\",\"text\":\"\"}}\n\n",
    "event: content_block_delta\n",
    "data: {\"type\":\"content_block_delta\",\"index\":0,\"delta\":{\"type\":\"text_delta\",\"text\":\"Hello\"}}\n\n",
    "event: content_block_stop\n",
    "data: {\"type\":\"content_block_stop\",\"index\":0}\n\n",
    "event: message_delta\n",
    "data: {\"type\":\"message_delta\",\"delta\":{\"stop_reason\":\"end_turn\"},\"usage\":{\"output_tokens\":350}}\n\n",
    ]
    .concat()
}

#[test]
fn parse_sse_usage_from_message_start_and_delta() {
    let (_blocks, _stop, usage) = decode_one(&usage_stream()).0.unwrap();
    assert_eq!(usage.input_tokens, 1500);
    assert_eq!(usage.output_tokens, 350);
    assert_eq!(usage.cache_creation_input_tokens, 200);
    assert_eq!(usage.cache_read_input_tokens, 800);
}

fn summary(result: &Result<Reply, AgentError>) -> String {
    match result {
        Ok((blocks, stop, usage)) => {
            let parts: Vec<String> = blocks.iter().map(|b| b.to_json().to_string()).collect();
            format!("{:?} {:?} {}", stop, usage, parts.join("|"))
        }
        Err(e) => format!("{:?}", e),
    }
}

#[test]
fn decoding_does_not_depend_on_chunk_boundaries() {
    for data in [usage_stream(), tool_use_stream()] {
        let bytes = data.as_bytes();
        let (whole, whole_texts) = decode(vec![bytes.to_vec()]);
        for cut in 0..=bytes.len() {
            let (split, split_texts) = decode(vec![bytes[..cut].to_vec(), bytes[cut..].to_vec()]);
            assert_eq!(summary(&split), summary(&whole), "cut at {}", cut);
            assert_eq!(split_texts, whole_texts, "cut at {}", cut);
        }
        let single: Vec<Vec<u8>> = bytes.iter().map(|b| vec![*b]).collect();
        let (bytewise, bytewise_texts) = decode(single);
        assert_eq!(summary(&bytewise), summary(&whole));
        assert_eq!(bytewise_texts, whole_texts);
    }
}

#[test]
fn incomplete_event_stays_pending() {
    let mut decoder = SseDecoder::new();
    let handed = decoder.feed(
        b"data: {\"type\":\"message_delta\",\"delta\":{\"stop_reason\":\"end_turn\"}}\n",
    );
    assert!(handed.is_empty());
    // The event has not ended, so no stop reason was seen.
    assert!(matches!(
        decoder.finish(),
        Err(AgentError::StreamTransient(_))
    ));

    let mut decoder = SseDecoder::new();
    decoder.feed(b"data: {\"type\":\"message_delta\",\"delta\":{\"stop_reason\":\"end_turn\"}}\n");
    decoder.feed(b"\n");
    let (_, stop, _) = decoder.finish().unwrap();
    assert_eq!(stop, StopReason::EndTurn);
}

#[test]
fn malformed_and_unknown_events_are_skipped() {
    let data = [
        "data: not json\n\n",
        "data: [DONE]\n\n",
        ": heartbeat\n\n",
        "data: {\"type\":\"ping\"}\n\n",
        "data: {\"type\":\"content_block_start\",\"content_block\":{\"type\":\"image\"}}\n\n",
        "data: {\"type\":\"content_block_start\",\"content_block\":{\"type\":\"text\"}}\r\n\n",
        "data: {\"type\":\"content_block_delta\",\"index\":0,\"delta\":{\"type\":\"text_delta\",\"text\":\"a\"}}\n",
        "data: {\"type\":\"content_block_delta\",\"index\":0,\"delta\":{\"type\":\"text_delta\",\"text\":\"b\"}}\n\n",
        "data: {\"type\":\"content_block_delta\",\"index\":7,\"delta\":{\"type\":\"text_delta\",\"text\":\"c\"}}\n\n",
        "data: {\"type\":\"message_delta\",\"delta\":{\"stop_reason\":\"max_tokens\"}}\n\n",
    ].concat();
    let (result, handed) = decode_one(&data);
    let (blocks, stop, usage) = result.unwrap();
    assert_eq!(stop, StopReason::MaxTokens);
    assert_eq!(usage, Usage::default());
    assert_eq!(blocks.len(), 1);
    match &blocks[0] {
        ContentBlock::Text { text } => assert_eq!(text, "ab"),
        _ => panic!("expected Text block"),
    }
    // Text is handed on even where no text block takes it.
    assert_eq!(handed, vec!["a".to_string(), "b".to_string(), "c".to_string()]);
}

#[test]
fn partial_tool_input_leaves_empty_object() {
    let data = [
        "data: {\"type\":\"content_block_start\",\"content_block\":{\"type\":\"tool_use\",\"id\":\"t\",\"name\":\"Bash\"}}\n\n",
        "data: {\"type\":\"content_block_delta\",\"index\":0,\"delta\":{\"type\":\"input_json_delta\",\"partial_json\":\"{\\\"command\\\": \\\"ls\"}}\n\n",
        "data: {\"type\":\"content_block_stop\",\"index\":0}\n\n",
        "data: {\"type\":\"message_delta\",\"delta\":{\"stop_reason\":\"max_tokens\"}}\n\n",
    ].concat();
    let (blocks, _, _) = decode_one(&data).0.unwrap();
    match &blocks[0] {
        ContentBlock::ToolUse { input, .. } => assert_eq!(input.to_string(), "{}"),
        _ => panic!("expected ToolUse block"),
    }
}

#[test]
fn tool_input_arrives_in_pieces_and_may_be_null() {
    let data = [
        "data: {\"type\":\"content_block_start\",\"content_block\":{\"type\":\"tool_use\",\"id\":\"t\",\"name\":\"Bash\"}}\n\n",
        "data: {\"type\":\"content_block_delta\",\"index\":0,\"delta\":{\"type\":\"input_json_delta\",\"partial_json\":\"{\\\"command\\\"\"}}\n\n",
        "data: {\"type\":\"content_block_delta\",\"index\":0,\"delta\":{\"type\":\"input_json_delta\",\"partial_json\":\": \\\"ls\\\"}\"}}\n\n",
        "data: {\"type\":\"content_block_stop\",\"index\":0}\n\n",
        "data: {\"type\":\"content_block_start\",\"content_block\":{\"type\":\"tool_use\",\"id\":\"u\",\"name\":\"Read\"}}\n\n",
        "data: {\"type\":\"content_block_delta\",\"index\":1,\"delta\":{\"type\":\"input_json_delta\",\"partial_json\":\"null\"}}\n\n",
        "data: {\"type\":\"content_block_stop\",\"index\":1}\n\n",
        "data: {\"type\":\"message_delta\",\"delta\":{\"stop_reason\":\"tool_use\"}}\n\n",
    ].concat();
    let (blocks, _, _) = decode_one(&data).0.unwrap();
    assert_eq!(blocks.len(), 2);
    match &blocks[0] {
        ContentBlock::ToolUse { input, .. } => assert_eq!(input["command"], "ls"),
        _ => panic!("expected ToolUse block"),
    }
    match &blocks[1] {
        ContentBlock::ToolUse { input, .. } => assert!(input.is_null()),
        _ => panic!("expected ToolUse block"),
    }
    assert!(blocks[0].is_valid_tool_use());
    assert!(!blocks[1].is_valid_tool_use());
}

#[test]
fn nothing_is_decoded_after_a_fault() {
    let mut decoder = SseDecoder::new();
    let handed = decoder.feed(
        [
            "data: {\"type\":\"content_block_start\",\"content_block\":{\"type\":\"text\"}}\n\n",
            "data: {\"type\":\"content_block_delta\",\"index\":0,\"delta\":{\"type\":\"text_delta\",\"text\":\"a\"}}\n\n",
            "data: {\"type\":\"error\",\"error\":{\"type\":\"api_error\",\"message\":\"boom\"}}\n\n",
            "data: {\"type\":\"content_block_delta\",\"index\":0,\"delta\":{\"type\":\"text_delta\",\"text\":\"b\"}}\n\n",
        ].concat()
        .as_bytes(),
    );
    assert_eq!(handed, vec!["a".to_string()]);
    assert!(decoder.has_failed());
    let later = decoder.feed(
        b"data: {\"type\":\"message_delta\",\"delta\":{\"stop_reason\":\"end_turn\"}}\n\n",
    );
    assert!(later.is_empty());
    match decoder.finish() {
        Err(AgentError::StreamTransient(message)) => assert_eq!(message, "api_error: boom"),
        _ => panic!("expected the fault of the stream"),
    }
}

#[test]
fn unknown_stop_reason_clears_the_stop_reason() {
    let data = [
        "data: {\"type\":\"message_delta\",\"delta\":{\"stop_reason\":\"end_turn\"}}\n\n",
        "data: {\"type\":\"message_delta\",\"delta\":{\"stop_reason\":\"pause_turn\"}}\n\n",
    ].concat();
    assert!(matches!(
        decode_one(&data).0,
        Err(AgentError::StreamTransient(_))
    ));
}
