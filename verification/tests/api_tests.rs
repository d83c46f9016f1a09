use forgeflare::api::{
    classify_error, AgentError, ContentBlock, ErrorClass, Message, StopReason, TransportFault,
    Usage,
};

fn http(status: u16, retry_after: Option<u64>, body: &str) -> AgentError {
    AgentError::HttpError {
        status,
        retry_after,
        body: body.to_string(),
    }
}

#[test]
fn classify_http_429_transient() {
    let e = http(429, Some(5), "rate limited");
    assert_eq!(classify_error(&e), ErrorClass::Transient);
}

#[test]
fn classify_http_503_transient() {
    let e = http(503, None, "overloaded");
    assert_eq!(classify_error(&e), ErrorClass::Transient);
}

#[test]
fn classify_http_529_transient() {
    let e = http(529, None, "overloaded");
    assert_eq!(classify_error(&e), ErrorClass::Transient);
}

#[test]
fn classify_http_500_transient() {
    let e = http(500, None, "internal error");
    assert_eq!(classify_error(&e), ErrorClass::Transient);
}

#[test]
fn classify_http_400_permanent() {
    let e = http(400, None, "bad request");
    assert_eq!(classify_error(&e), ErrorClass::Permanent);
}

#[test]
fn classify_http_401_permanent() {
    let e = http(401, None, "unauthorized");
    assert_eq!(classify_error(&e), ErrorClass::Permanent);
}

#[test]
fn classify_http_403_permanent() {
    let e = http(403, None, "forbidden");
    assert_eq!(classify_error(&e), ErrorClass::Permanent);
}

#[test]
fn classify_stream_transient() {
    let e = AgentError::StreamTransient("overloaded_error: Overloaded".to_string());
    assert_eq!(classify_error(&e), ErrorClass::Transient);
}

#[test]
fn classify_stream_parse_permanent() {
    let e = AgentError::StreamParse("invalid_request_error: Bad request".to_string());
    assert_eq!(classify_error(&e), ErrorClass::Permanent);
}

#[test]
fn classify_json_permanent() {
    let e: AgentError = serde_json::from_str::<serde_json::Value>("not json")
        .unwrap_err()
        .into();
    assert_eq!(classify_error(&e), ErrorClass::Permanent);
}

#[test]
fn classify_transport_faults() {
    let fault = |timeout: bool, connect: bool| {
        AgentError::Api(TransportFault {
            timeout,
            connect,
            message: "transport".to_string(),
        })
    };
    assert_eq!(classify_error(&fault(true, false)), ErrorClass::Transient);
    assert_eq!(classify_error(&fault(false, true)), ErrorClass::Transient);
    assert_eq!(classify_error(&fault(false, false)), ErrorClass::Permanent);
}

#[test]
fn classify_status_boundaries() {
    assert_eq!(classify_error(&http(499, None, "")), ErrorClass::Permanent);
    assert_eq!(classify_error(&http(599, None, "")), ErrorClass::Transient);
    assert_eq!(classify_error(&http(200, None, "")), ErrorClass::Permanent);
        assert_eq!(classify_error(&http(500, None, "")), ErrorClass::Transient);
    assert_eq!(classify_error(&http(600, None, "")), ErrorClass::Permanent);
    assert_eq!(classify_error(&http(404, Some(3), "")), ErrorClass::Permanent);
    assert_eq!(classify_error(&http(u16::MAX, None, "")), ErrorClass::Permanent);
}

#[test]
fn usage_default_is_zeros() {
    let u = Usage::default();
    assert_eq!(u.input_tokens, 0);
    assert_eq!(u.output_tokens, 0);
    assert_eq!(u.cache_creation_input_tokens, 0);
    assert_eq!(u.cache_read_input_tokens, 0);
}

#[test]
fn stop_reason_serialization() {
    assert_eq!(StopReason::EndTurn.as_str(), "end_turn");
    assert_eq!(StopReason::ToolUse.as_str(), "tool_use");
    assert_eq!(StopReason::MaxTokens.as_str(), "max_tokens");
    assert_eq!(StopReason::from_name("end_turn"), Some(StopReason::EndTurn));
    assert_eq!(StopReason::from_name("tool_use"), Some(StopReason::ToolUse));
    assert_eq!(StopReason::from_name("max_tokens"), Some(StopReason::MaxTokens));
    assert_eq!(StopReason::from_name("stop_sequence"), None);
}

#[test]
fn content_block_text_roundtrip() {
    let block = ContentBlock::Text {
        text: "hello".to_string(),
    };
    let json = block.to_json().to_string();
    assert!(json.contains("\"type\":\"text\""));
    assert!(json.contains("\"text\":\"hello\""));
}

#[test]
fn content_block_tool_use_roundtrip() {
    let input: serde_json::Value = serde_json::from_str("{\"command\": \"ls\"}").unwrap();
    let block = ContentBlock::ToolUse {
        id: "id123".to_string(),
        name: "Bash".to_string(),
        input,
    };
    let json = block.to_json().to_string();
    assert!(json.contains("\"type\":\"tool_use\""));
    assert!(json.contains("\"name\":\"Bash\""));
    assert!(json.contains("\"input\":{\"command\":\"ls\"}"));
}

#[test]
fn content_block_tool_result_roundtrip() {
    let block = ContentBlock::ToolResult {
        tool_use_id: "id123".to_string(),
        content: "output".to_string(),
        is_error: None,
    };
    let json = block.to_json().to_string();
    assert!(json.contains("\"type\":\"tool_result\""));
    assert!(!json.contains("is_error"));

    let failed = ContentBlock::ToolResult {
        tool_use_id: "id123".to_string(),
        content: "output".to_string(),
        is_error: Some(true),
    };
    assert!(failed.to_json().to_string().contains("\"is_error\":true"));
}

#[test]
fn message_roundtrip() {
    let msg = Message {
        role: "user".to_string(),
        content: vec![ContentBlock::Text {
            text: "hi".to_string(),
        }],
    };
    let json = msg.to_json().to_string();
    let parsed: serde_json::Value = serde_json::from_str(&json).unwrap();
    assert_eq!(parsed["role"], "user");
    assert_eq!(parsed["content"][0]["type"], "text");
    assert_eq!(parsed["content"][0]["text"], "hi");
    assert_eq!(msg.json_size(), json.len());
    assert_eq!(
        json.len(),
        "{\"role\":\"user\",\"content\":[{\"type\":\"text\",\"text\":\"hi\"}]}".len()
    );
}

#[test]
fn usage_json_has_four_counters() {
    let usage = Usage {
        input_tokens: 1200,
        output_tokens: 350,
        cache_creation_input_tokens: 7,
        cache_read_input_tokens: 800,
    };
    let v = usage.to_json();
    assert_eq!(v["input_tokens"], 1200);
    assert_eq!(v["output_tokens"], 350);
    assert_eq!(v["cache_creation_input_tokens"], 7);
    assert_eq!(v["cache_read_input_tokens"], 800);
}

#[test]
fn faults_in_words() {
    assert_eq!(
        AgentError::HttpError {
            status: 429,
            retry_after: Some(3),
            body: "slow down".to_string(),
        }
        .message(),
        "HTTP 429: slow down"
    );
    assert_eq!(
        AgentError::StreamTransient("cut".to_string()).message(),
        "Stream error (transient): cut"
    );
    assert_eq!(
        AgentError::StreamParse("bad".to_string()).message(),
        "Stream parse error: bad"
    );
    let fault = serde_json::from_str::<serde_json::Value>("{").unwrap_err();
    let detail = fault.to_string();
    assert!(!detail.is_empty());
    assert_eq!(AgentError::Json(fault).message(), format!("JSON error: {detail}"));
}
