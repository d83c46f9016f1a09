use forgeflare::api::{ContentBlock, Message, Usage};
use forgeflare::session::{extract_first_arg, SessionWriter, VERSION};

fn json(text: &str) -> serde_json::Value {
    serde_json::from_str(text).unwrap()
}

fn text_message(role: &str, text: &str) -> Message {
    Message {
        role: role.to_string(),
        content: vec![ContentBlock::Text {
            text: text.to_string(),
        }],
    }
}

fn regex_lite(id: &str) -> bool {
    let parts: Vec<&str> = id.splitn(4, '-').collect();
    if parts.len() < 4 {
        return false;
    }
    if parts[0].len() != 4 || parts[0].parse::<u32>().is_err() {
        return false;
    }
    if parts[1].len() != 2 || parts[1].parse::<u32>().is_err() {
        return false;
    }
    if parts[2].len() != 2 || parts[2].parse::<u32>().is_err() {
        return false;
    }
    let uuid_part = &id[11..];
    uuid::Uuid::parse_str(uuid_part).is_ok()
}

#[test]
fn session_id_format() {
    let writer = SessionWriter::new("/tmp", "opus-model");
    let id = writer.session_id();
    let re = regex_lite(id);
    assert!(re, "session ID should match date-uuid format: {id}");
}

#[test]
fn session_id_is_date_and_identifier() {
    let writer = SessionWriter::begin("2026-01-02", "abc", "start".to_string(), "/tmp", "m");
    assert_eq!(writer.session_id(), "2026-01-02-abc");
}

#[test]
fn extract_first_arg_from_object() {
    let input = json(r#"{"file_path": "/src/main.rs", "other": "val"}"#);
    let result = extract_first_arg(&input);
    assert_eq!(result, "/src/main.rs");
}

#[test]
fn extract_first_arg_truncates_long_values() {
    let long_val = "x".repeat(200);
    let input = json(&format!(r#"{{"content": "{long_val}"}}"#));
    let result = extract_first_arg(&input);
    assert!(result.len() < 100);
    assert!(result.ends_with("..."));
    assert_eq!(result, format!("{}...", "x".repeat(80)));
}

#[test]
fn extract_first_arg_of_other_values() {
    assert_eq!(extract_first_arg(&json("{}")), "{}");
    assert_eq!(extract_first_arg(&json(r#"{"count": 3}"#)), "3");
    assert_eq!(extract_first_arg(&json(r#"{"flag": true, "z": 1}"#)), "true");
    assert_eq!(extract_first_arg(&json(r#"{"list": [1,2]}"#)), "[1,2]");
    assert_eq!(extract_first_arg(&json(r#"[1,2]"#)), "[1,2]");
    assert_eq!(extract_first_arg(&json(r#""text""#)), "\"text\"");
    assert_eq!(extract_first_arg(&json("null")), "null");
    let exact = "y".repeat(80);
    assert_eq!(
        extract_first_arg(&json(&format!(r#"{{"a": "{exact}"}}"#))),
        exact
    );
}

#[test]
fn a_line_names_session_turn_and_message() {
    let mut writer = SessionWriter::begin("2026-01-02", "abc", "start".to_string(), "/work", "m");
    let line = writer.line(
        "user",
        &text_message("user", "hello"),
        None,
        "id-1".to_string(),
        "2026-01-02T00:00:00+00:00".to_string(),
    );
    assert!(!line.contains('\n'));
    assert_eq!(
        json(&line),
        json(
            r#"{"type":"user","sessionId":"2026-01-02-abc","uuid":"id-1","parentUuid":null,
                "timestamp":"2026-01-02T00:00:00+00:00","cwd":"/work","version":"0.1.0",
                "message":{"role":"user","content":[{"type":"text","text":"hello"}]}}"#
        )
    );
    assert_eq!(VERSION, "0.1.0");
}

#[test]
fn each_line_names_the_line_before_it() {
    let mut writer = SessionWriter::begin("2026-01-02", "abc", "start".to_string(), "/work", "m");
    let first = writer.line(
        "user",
        &text_message("user", "hello"),
        None,
        "id-1".to_string(),
        "t1".to_string(),
    );
    let usage = Usage {
        input_tokens: 1200,
        output_tokens: 350,
        cache_creation_input_tokens: 0,
        cache_read_input_tokens: 800,
    };
    let second = writer.line(
        "assistant",
        &text_message("assistant", "hi"),
        Some(usage),
        "id-2".to_string(),
        "t2".to_string(),
    );
    let first = json(&first);
    let second = json(&second);
    assert!(first["parentUuid"].is_null());
    assert_eq!(second["parentUuid"], first["uuid"]);
    assert_eq!(second["type"], "assistant");
    assert_eq!(second["message"]["usage"]["input_tokens"], 1200);
    assert_eq!(second["message"]["usage"]["output_tokens"], 350);
    assert_eq!(second["message"]["usage"]["cache_read_input_tokens"], 800);
    assert!(first["message"].get("usage").is_none());
}

#[test]
fn appended_turns_chain_and_carry_a_time() {
    let mut writer = SessionWriter::new("/work", "m");
    let first = json(&writer.append_user_turn(&text_message("user", "hello")));
    let second = json(&writer.append_assistant_turn(
        &text_message("assistant", "hi"),
        &Usage::default(),
    ));
    assert_eq!(first["type"], "user");
    assert_eq!(first["message"]["role"], "user");
    assert!(first["parentUuid"].is_null());
    assert_eq!(second["parentUuid"], first["uuid"]);
    assert_ne!(first["uuid"], second["uuid"]);
    assert!(uuid::Uuid::parse_str(first["uuid"].as_str().unwrap()).is_ok());
    assert!(chrono::DateTime::parse_from_rfc3339(first["timestamp"].as_str().unwrap()).is_ok());
    assert_eq!(first["sessionId"], writer.session_id());
    assert!(first["message"].get("usage").is_none());
    assert_eq!(second["message"]["usage"]["input_tokens"], 0);
}

#[test]
fn the_prompt_is_written_once() {
    let mut writer = SessionWriter::new("/work", "m");
    assert_eq!(writer.write_prompt("first prompt"), Some("first prompt".to_string()));
    assert_eq!(writer.write_prompt("second prompt"), None);
    assert_eq!(writer.write_prompt("first prompt"), None);
}

#[test]
fn the_context_lists_session_and_actions() {
    let mut writer = SessionWriter::begin(
        "2026-01-02",
        "abc",
        "2026-01-02T00:00:00+00:00".to_string(),
        "/work",
        "opus-model",
    );
    assert_eq!(
        writer.write_context(),
        "# Session Context\n\n- Session ID: 2026-01-02-abc\n- Model: opus-model\n- Start: 2026-01-02T00:00:00+00:00\n- CWD: /work\n"
    );
    let message = Message {
        role: "assistant".to_string(),
        content: vec![
            ContentBlock::Text {
                text: "reading".to_string(),
            },
            ContentBlock::ToolUse {
                id: "tu_1".to_string(),
                name: "Read".to_string(),
                input: json(r#"{"file_path":"/src/main.rs"}"#),
            },
            ContentBlock::ToolUse {
                id: "tu_2".to_string(),
                name: "Bash".to_string(),
                input: json(r#"{"command":"ls"}"#),
            },
        ],
    };
    writer.collect_tool_actions(&message);
    let content = writer.write_context();
    assert!(content.contains("Session ID:"));
    assert!(content.contains("opus-model"));
    assert!(content.contains("Key Actions"));
    assert!(content.contains("**Read**: /src/main.rs"));
    assert_eq!(
        content,
        "# Session Context\n\n- Session ID: 2026-01-02-abc\n- Model: opus-model\n- Start: 2026-01-02T00:00:00+00:00\n- CWD: /work\n\n## Key Actions\n\n- **Read**: /src/main.rs\n- **Bash**: ls\n"
    );
}
