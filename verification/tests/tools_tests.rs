use forgeflare::tools::{
    all_tool_schemas, bash_result, denied_command_message, is_denied_command, normalize_command,
    tool_effect, tool_kind, BashEnd, ToolEffect, ToolKind, BASH_TIMEOUT_SECS,
};

#[test]
fn tool_effect_pure_tools() {
    assert_eq!(tool_effect("Read"), ToolEffect::Pure);
    assert_eq!(tool_effect("Glob"), ToolEffect::Pure);
    assert_eq!(tool_effect("Grep"), ToolEffect::Pure);
}

#[test]
fn tool_effect_mutating_tools() {
    assert_eq!(tool_effect("Bash"), ToolEffect::Mutating);
    assert_eq!(tool_effect("Edit"), ToolEffect::Mutating);
}

#[test]
fn tool_effect_unknown_defaults_to_mutating() {
    assert_eq!(tool_effect("Unknown"), ToolEffect::Mutating);
    assert_eq!(tool_effect("FutureTool"), ToolEffect::Mutating);
    assert_eq!(tool_effect(""), ToolEffect::Mutating);
}

#[test]
fn batch_classification_all_pure() {
    let tool_uses = vec![("id1", "Read"), ("id2", "Glob"), ("id3", "Grep")];
    let all_pure = tool_uses
        .iter()
        .all(|(_, name)| tool_effect(name) == ToolEffect::Pure);
    assert!(all_pure, "all Read/Glob/Grep should be pure");
}

#[test]
fn batch_classification_mixed_is_sequential() {
    let tool_uses = vec![("id1", "Read"), ("id2", "Edit")];
    let all_pure = tool_uses
        .iter()
        .all(|(_, name)| tool_effect(name) == ToolEffect::Pure);
    assert!(!all_pure, "mixed batch with Edit should not be all-pure");
}

#[test]
fn batch_classification_single_pure() {
    let tool_uses = vec![("id1", "Read")];
    let all_pure = tool_uses
        .iter()
        .all(|(_, name)| tool_effect(name) == ToolEffect::Pure);
    assert!(all_pure, "single Read tool should be all-pure");
}

#[test]
fn schemas_returns_five_pascal_case() {
    let schemas = all_tool_schemas();
    assert_eq!(schemas.len(), 5);

    let names: Vec<&str> = schemas
        .iter()
        .map(|s| s["name"].as_str().unwrap())
        .collect();
    assert_eq!(names, vec!["Read", "Glob", "Bash", "Edit", "Grep"]);
}

#[test]
fn schemas_name_their_required_parameters() {
    let schemas = all_tool_schemas();
    for schema in &schemas {
        assert!(schema["description"].as_str().unwrap().len() > 0);
        assert_eq!(schema["input_schema"]["type"], "object");
    }
    assert_eq!(schemas[0]["input_schema"]["required"][0], "file_path");
    assert_eq!(schemas[2]["input_schema"]["required"][0], "command");
}

#[test]
fn dispatch_unknown_tool() {
    let result = tool_kind("Unknown");
    assert!(result.is_err());
    assert!(result.unwrap_err().contains("Unknown tool"));
    assert_eq!(tool_kind("read").unwrap_err(), "Unknown tool: read");
}

#[test]
fn dispatch_known_tools_by_name() {
    assert_eq!(tool_kind("Read"), Ok(ToolKind::Read));
    assert_eq!(tool_kind("Glob"), Ok(ToolKind::Glob));
    assert_eq!(tool_kind("Bash"), Ok(ToolKind::Bash));
    assert_eq!(tool_kind("Edit"), Ok(ToolKind::Edit));
    assert_eq!(tool_kind("Grep"), Ok(ToolKind::Grep));
}

#[test]
fn bash_deny_list_blocks_dangerous() {
    let cases = vec![
        "rm -rf /",
        "rm  -rf   /",
        "RM -RF /",
        "rm -fr /",
        "git push --force",
        "git push -f origin main",
        "git  push  --force",
    ];
    for cmd in cases {
        assert!(is_denied_command(cmd), "Expected deny for: {cmd}");
    }
}

#[test]
fn bash_deny_list_allows_safe() {
    let cases = vec!["ls -la", "git push", "rm file.txt", "echo hello"];
    for cmd in cases {
        assert!(!is_denied_command(cmd), "Expected allow for: {cmd}");
    }
}

#[test]
fn normalize_command_lowers_and_collapses() {
    assert_eq!(normalize_command("RM  -RF\t\t/"), "rm -rf /");
    assert_eq!(normalize_command("  Git   Push  "), "git push");
    assert_eq!(normalize_command(""), "");
}

#[test]
fn denied_command_is_refused_in_words() {
    assert_eq!(
        denied_command_message("rm -rf /"),
        "Command blocked by safety guard: rm -rf /"
    );
}

#[test]
fn bash_result_by_end_and_output() {
    assert_eq!(
        bash_result("ls", BashEnd::Succeeded, "a\nb\n".to_string()),
        Ok("a\nb\n".to_string())
    );
    assert_eq!(
        bash_result("ls", BashEnd::Succeeded, String::new()),
        Ok(String::new())
    );
    assert_eq!(
        bash_result("sleep 200", BashEnd::TimedOut, String::new()),
        Err("Command timed out after 120s: sleep 200".to_string())
    );
    assert_eq!(
        bash_result("yes", BashEnd::TimedOut, "y\ny\n".to_string()),
        Err("Command timed out after 120s (partial output):\ny\ny\n".to_string())
    );
    assert_eq!(
        bash_result("false", BashEnd::Failed(Some(1)), String::new()),
        Err("Command failed with exit code 1".to_string())
    );
    assert_eq!(
        bash_result("x", BashEnd::Failed(Some(127)), "not found\n".to_string()),
        Err("Command failed with exit code 127:\nnot found\n".to_string())
    );
    assert_eq!(
        bash_result("x", BashEnd::Failed(None), String::new()),
        Err("Command failed with exit code -1".to_string())
    );
    assert_eq!(BASH_TIMEOUT_SECS, 120);
}

#[test]
fn tool_effect_exhaustive_for_all_tools() {
    let schemas = all_tool_schemas();
    for schema in &schemas {
        let name = schema["name"].as_str().unwrap();
        let effect = tool_effect(name);
        match name {
            "Read" | "Glob" | "Grep" => {
                assert_eq!(effect, ToolEffect::Pure, "{name} should be Pure")
            }
            "Bash" | "Edit" => {
                assert_eq!(effect, ToolEffect::Mutating, "{name} should be Mutating")
            }
            _ => panic!("New tool {name} needs explicit ToolEffect classification"),
        }
    }
}
