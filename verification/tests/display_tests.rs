use forgeflare::display::{format_tool_result_display, preview_of, truncate_json};

fn json(text: &str) -> serde_json::Value {
    serde_json::from_str(text).unwrap()
}

#[test]
fn tool_result_display_error_preview() {
    let long_error = "x".repeat(300);
    let display = format_tool_result_display(&long_error, true, false);
    assert!(display.contains("Error:"));
    assert!(display.contains("..."));
    assert!(display.len() < 250);
    assert_eq!(display, format!("  Error: {}...", "x".repeat(200)));
}

#[test]
fn tool_result_display_size_non_verbose() {
    let result = "hello world";
    let display = format_tool_result_display(result, false, false);
    assert!(display.contains("11 chars"));
    assert_eq!(display, "  (11 chars)");
}

#[test]
fn tool_result_display_verbose_is_the_result() {
    let display = format_tool_result_display("line one\nline two", false, true);
    assert_eq!(display, "line one\nline two");
}

#[test]
fn tool_result_display_short_error_in_full() {
    let display = format_tool_result_display("boom", true, true);
    assert_eq!(display, "  Error: boom");
}

#[test]
fn truncate_json_short() {
    let val = json(r#"{"key": "val"}"#);
    let s = truncate_json(&val, 100);
    assert!(!s.contains("..."));
    assert_eq!(s, r#"{"key":"val"}"#);
}

#[test]
fn truncate_json_long() {
    let val = json(r#"{"key": "a very long value that exceeds the truncation limit"}"#);
    let s = truncate_json(&val, 20);
    assert!(s.contains("..."));
    assert_eq!(s, r#"{"key":"a very long ..."#);
}

#[test]
fn preview_cuts_at_a_character_boundary() {
    // Each of these letters takes two bytes, so a cut after five bytes
    // falls inside the third letter and moves back to four.
    let s = preview_of("ééééé", 5);
    assert_eq!(s, "éé...");
    assert_eq!(preview_of("abc", 3), "abc");
    assert_eq!(preview_of("abcd", 3), "abc...");
}

#[test]
fn system_prompt_contains_environment_info() {
    let prompt = forgeflare::display::build_system_prompt("/work/project", "linux");
    assert!(prompt.contains("Working directory:"));
    assert!(prompt.contains("Platform:"));
    assert!(prompt.contains("Read:"));
    assert!(prompt.contains("Glob:"));
    assert!(prompt.contains("Bash:"));
    assert!(prompt.contains("Edit:"));
    assert!(prompt.contains("Grep:"));
    assert!(prompt.contains("- Working directory: /work/project\n- Platform: linux\n\n"));
    assert!(prompt.starts_with("You are a coding assistant"));
    assert!(prompt.ends_with("- Explain what you're doing and why"));
}
