use forgeflare::hooks::{
    hook_is, hook_timeout, matches_tool, parse_guard_output, parse_post_output, truncate_result,
    GuardOutput, HookConfig, HookError, HookKind, HookRunner, PostOutput, PostToolResult,
    PreToolResult, DEFAULT_STOP_TIMEOUT_MS, DEFAULT_TIMEOUT_MS, RESULT_HALF,
    RESULT_TRUNCATION_LIMIT,
};

fn json(text: &str) -> serde_json::Value {
    serde_json::from_str(text).unwrap()
}

fn hook(event: &str, phase: Option<&str>, command: &str, tool: Option<&str>) -> HookConfig {
    HookConfig {
        event: event.to_string(),
        command: command.to_string(),
        match_tool: tool.map(|t| t.to_string()),
        phase: phase.map(|p| p.to_string()),
        timeout_ms: None,
    }
}

fn guard_says(stdout: &str) -> Result<Option<GuardOutput>, HookError> {
    Ok(parse_guard_output(stdout))
}

fn post_says(stdout: &str) -> Result<Option<PostOutput>, HookError> {
    Ok(parse_post_output(stdout))
}

#[test]
fn matches_tool_exact() {
    let hook = HookConfig {
        event: "PreToolUse".to_string(),
        command: "test".to_string(),
        match_tool: Some("Bash".to_string()),
        phase: None,
        timeout_ms: None,
    };
    assert!(matches_tool(&hook, "Bash"));
    assert!(!matches_tool(&hook, "Read"));
    assert!(!matches_tool(&hook, "BashScript"));
}

#[test]
fn matches_tool_none_matches_all() {
    let hook = HookConfig {
        event: "PreToolUse".to_string(),
        command: "test".to_string(),
        match_tool: None,
        phase: None,
        timeout_ms: None,
    };
    assert!(matches_tool(&hook, "Bash"));
    assert!(matches_tool(&hook, "Read"));
    assert!(matches_tool(&hook, "Edit"));
}

#[test]
fn truncate_result_under_limit() {
    let short = "hello world";
    assert_eq!(truncate_result(short), short);
}

#[test]
fn truncate_result_at_limit() {
    let exact = "x".repeat(RESULT_TRUNCATION_LIMIT);
    assert_eq!(truncate_result(&exact), exact);
}

#[test]
fn truncate_result_over_limit() {
    let long = "x".repeat(10000);
    let truncated = truncate_result(&long);
    assert!(truncated.len() < long.len());
    assert!(truncated.contains("truncated for hook, full result: 10000 bytes"));
    assert!(truncated.starts_with(&"x".repeat(RESULT_HALF)));
    assert!(truncated.ends_with(&"x".repeat(RESULT_HALF)));
    assert_eq!(
        truncated,
        format!(
            "{}\n... (truncated for hook, full result: 10000 bytes)\n{}",
            "x".repeat(RESULT_HALF),
            "x".repeat(RESULT_HALF)
        )
    );
}

#[test]
fn truncate_result_cuts_at_character_boundaries() {
    // 'a' and then letters of two bytes each: both cuts fall inside a
    // letter and move back by one byte.
    let long = format!("a{}", "é".repeat(4000));
    let truncated = truncate_result(&long);
    let head = format!("a{}", "é".repeat(1279));
    let tail = "é".repeat(1280);
    assert_eq!(
        truncated,
        format!("{head}\n... (truncated for hook, full result: 8001 bytes)\n{tail}")
    );
}

#[test]
fn phase_none_defaults_to_guard() {
    let hook = HookConfig {
        event: "PreToolUse".to_string(),
        command: "test".to_string(),
        match_tool: None,
        phase: None,
        timeout_ms: None,
    };
    let phase = hook.phase.as_deref().unwrap_or("guard");
    assert_eq!(phase, "guard");
    assert!(hook_is(&hook, HookKind::Guard));
    assert!(!hook_is(&hook, HookKind::Observer));
    assert!(!hook_is(&hook, HookKind::Post));
    assert!(!hook_is(&hook, HookKind::Stop));
}

#[test]
fn hooks_are_told_apart_by_event_and_phase() {
    assert!(hook_is(&hook("PreToolUse", Some("guard"), "g", None), HookKind::Guard));
    assert!(hook_is(&hook("PreToolUse", Some("observe"), "o", None), HookKind::Observer));
    assert!(!hook_is(&hook("PreToolUse", Some("observe"), "o", None), HookKind::Guard));
    assert!(hook_is(&hook("PostToolUse", None, "p", None), HookKind::Post));
    assert!(hook_is(&hook("Stop", None, "s", None), HookKind::Stop));
    assert!(!hook_is(&hook("PreToolUse", Some("other"), "x", None), HookKind::Guard));
    assert!(!hook_is(&hook("Unknown", None, "x", None), HookKind::Guard));
}

#[test]
fn hook_timeouts_default_by_event() {
    assert_eq!(DEFAULT_TIMEOUT_MS, 5000);
    assert_eq!(DEFAULT_STOP_TIMEOUT_MS, 3000);
    assert_eq!(hook_timeout(&hook("PreToolUse", None, "g", None)), 5000);
    assert_eq!(hook_timeout(&hook("PostToolUse", None, "p", None)), 5000);
    assert_eq!(hook_timeout(&hook("Stop", None, "s", None)), 3000);
    let mut own = hook("Stop", None, "s", None);
    own.timeout_ms = Some(250);
    assert_eq!(hook_timeout(&own), 250);
}

#[test]
fn hook_failures_in_words() {
    assert_eq!(HookError::Timeout(5000).message(), "timed out after 5000ms");
    assert_eq!(HookError::NonZeroExit(2).message(), "exited with code 2");
    assert_eq!(HookError::NonZeroExit(-1).message(), "exited with code -1");
    assert_eq!(
        HookError::Spawn("no such file".to_string()).message(),
        "spawn error: no such file"
    );
}

#[test]
fn guard_reply_is_read_from_json() {
    let out = parse_guard_output(r#"{"action":"block","reason":"no"}"#).unwrap();
    assert_eq!(out.action, "block");
    assert_eq!(out.reason.as_deref(), Some("no"));
    let out = parse_guard_output(r#"{"action":"allow"}"#).unwrap();
    assert_eq!(out.action, "allow");
    assert_eq!(out.reason, None);
    let out = parse_guard_output(r#"{"action":"allow","reason":null,"more":1}"#).unwrap();
    assert_eq!(out.reason, None);
    assert!(parse_guard_output("not json").is_none());
    assert!(parse_guard_output("").is_none());
    assert!(parse_guard_output(r#"{"reason":"no"}"#).is_none());
    assert!(parse_guard_output(r#"{"action":1}"#).is_none());
    assert!(parse_guard_output(r#"{"action":"block","reason":7}"#).is_none());
    assert!(parse_guard_output(r#""block""#).is_none());
}

#[test]
fn post_reply_is_read_from_json() {
    let out =
        parse_post_output(r#"{"action":"signal","signal":"converged","reason":"3 clean"}"#)
            .unwrap();
    assert_eq!(out.action, "signal");
    assert_eq!(out.signal.as_deref(), Some("converged"));
    assert_eq!(out.reason.as_deref(), Some("3 clean"));
    let out = parse_post_output(r#"{"action":"continue"}"#).unwrap();
    assert_eq!(out.action, "continue");
    assert_eq!(out.signal, None);
    assert!(parse_post_output("{").is_none());
    assert!(parse_post_output(r#"{"action":"signal","signal":3}"#).is_none());
}

#[test]
fn guard_block_gives_reason_and_guard() {
    let runner = HookRunner::new(
        vec![hook("PreToolUse", Some("guard"), "/hooks/guard.sh", Some("Bash"))],
        "/work",
    );
    let mut run = runner.run_pre_tool_use("Bash");
    assert_eq!(run.next_guard().unwrap().command, "/hooks/guard.sh");
    run.guard_finished(guard_says(
        r#"{"action":"block","reason":"destructive command detected"}"#,
    ));
    assert!(run.is_finished());
    match run.result() {
        PreToolResult::Block { reason, blocked_by } => {
            assert!(reason.contains("destructive command detected"));
            assert!(blocked_by.contains("guard.sh"));
            assert_eq!(
                reason,
                "blocked by /hooks/guard.sh: destructive command detected"
            );
            assert_eq!(blocked_by, "/hooks/guard.sh");
        }
        PreToolResult::Allow => panic!("expected block"),
    }
}

#[test]
fn guard_allow_lets_the_tool_run() {
    let runner = HookRunner::new(vec![hook("PreToolUse", Some("guard"), "allow.sh", None)], "/w");
    let mut run = runner.run_pre_tool_use("Bash");
    run.guard_finished(guard_says(r#"{"action":"allow"}"#));
    assert!(run.is_finished());
    assert_eq!(run.result(), PreToolResult::Allow);
}

#[test]
fn guard_block_without_reason_says_so() {
    let runner = HookRunner::new(vec![hook("PreToolUse", None, "g.sh", None)], "/w");
    let mut run = runner.run_pre_tool_use("Edit");
    run.guard_finished(guard_says(r#"{"action":"block"}"#));
    assert_eq!(
        run.result(),
        PreToolResult::Block {
            reason: "blocked by g.sh: no reason provided".to_string(),
            blocked_by: "g.sh".to_string(),
        }
    );
}

#[test]
fn guard_invalid_json_refuses_the_tool() {
    let runner = HookRunner::new(vec![hook("PreToolUse", Some("guard"), "bad_json.sh", None)], "/w");
    let mut run = runner.run_pre_tool_use("Bash");
    run.guard_finished(guard_says("not json"));
    match run.result() {
        PreToolResult::Block { reason, blocked_by } => {
            assert!(reason.contains("invalid JSON"));
            assert_eq!(reason, "hook failed: bad_json.sh returned invalid JSON");
            assert_eq!(blocked_by, "bad_json.sh");
        }
        PreToolResult::Allow => panic!("expected block on invalid JSON"),
    }
}

#[test]
fn guard_timeout_refuses_the_tool() {
    let runner = HookRunner::new(vec![hook("PreToolUse", Some("guard"), "slow.sh", None)], "/w");
    let mut run = runner.run_pre_tool_use("Bash");
    run.guard_finished(Err(HookError::Timeout(100)));
    assert_eq!(
        run.result(),
        PreToolResult::Block {
                        reason: "hook failed: slow.sh timed out after 100ms (tool blocked by default)"
                .to_string(),
            blocked_by: "slow.sh".to_string(),
        }
    );
}

#[test]
fn guard_crash_refuses_the_tool() {
    let runner = HookRunner::new(vec![hook("PreToolUse", Some("guard"), "crash.sh", None)], "/w");
    let mut run = runner.run_pre_tool_use("Bash");
    run.guard_finished(Err(HookError::NonZeroExit(1)));
    assert_eq!(
        run.result(),
        PreToolResult::Block {
                        reason: "hook failed: crash.sh exited with code 1 (tool blocked by default)"
                .to_string(),
            blocked_by: "crash.sh".to_string(),
        }
    );
}

#[test]
fn guard_that_does_not_start_refuses_the_tool() {
    let runner = HookRunner::new(vec![hook("PreToolUse", Some("guard"), "gone.sh", None)], "/w");
    let mut run = runner.run_pre_tool_use("Bash");
    run.guard_finished(Err(HookError::Spawn("no such file".to_string())));
    assert_eq!(
        run.result(),
        PreToolResult::Block {
            reason: "hook failed: gone.sh spawn error: no such file (tool blocked by default)"
                .to_string(),
            blocked_by: "gone.sh".to_string(),
        }
    );
}

#[test]
fn first_refusing_guard_ends_the_guards() {
    let runner = HookRunner::new(
        vec![
            hook("PreToolUse", Some("guard"), "first.sh", None),
            hook("PreToolUse", Some("guard"), "second.sh", None),
            hook("PreToolUse", Some("guard"), "third.sh", None),
            hook("PreToolUse", Some("observe"), "watch.sh", None),
        ],
        "/w",
    );
    let mut run = runner.run_pre_tool_use("Bash");
    assert_eq!(run.next_guard().unwrap().command, "first.sh");
    run.guard_finished(guard_says(r#"{"action":"allow"}"#));
    assert_eq!(run.next_guard().unwrap().command, "second.sh");
    run.guard_finished(guard_says(r#"{"action":"block","reason":"second says no"}"#));
    assert!(run.next_guard().is_none());
    assert_eq!(run.next_observer().unwrap().command, "watch.sh");
    assert_eq!(run.block().as_ref().unwrap().blocked_by, "second.sh");
    run.observe_finished();
    assert!(run.is_finished());
    assert_eq!(
        run.result(),
        PreToolResult::Block {
            reason: "blocked by second.sh: second says no".to_string(),
            blocked_by: "second.sh".to_string(),
        }
    );
}

#[test]
fn observers_run_after_an_allow_and_change_nothing() {
    let runner = HookRunner::new(
        vec![
            hook("PreToolUse", Some("observe"), "watch_one.sh", None),
            hook("PreToolUse", Some("guard"), "guard.sh", None),
            hook("PreToolUse", Some("observe"), "watch_two.sh", Some("Bash")),
            hook("PreToolUse", Some("observe"), "watch_read.sh", Some("Read")),
        ],
        "/w",
    );
    let mut run = runner.run_pre_tool_use("Bash");
    assert!(run.next_observer().is_none());
    run.guard_finished(guard_says(r#"{"action":"allow"}"#));
    assert_eq!(run.next_observer().unwrap().command, "watch_one.sh");
    run.observe_finished();
    assert_eq!(run.next_observer().unwrap().command, "watch_two.sh");
    run.observe_finished();
    assert!(run.is_finished());
    assert_eq!(run.result(), PreToolResult::Allow);
}

#[test]
fn hooks_for_another_tool_do_not_run() {
    let runner = HookRunner::new(
        vec![hook("PreToolUse", Some("guard"), "bash_only.sh", Some("Bash"))],
        "/w",
    );
    let run = runner.run_pre_tool_use("Read");
    assert!(run.is_finished());
    assert_eq!(run.result(), PreToolResult::Allow);
}

#[test]
fn no_hooks_allow_every_tool() {
    let runner = HookRunner::new(Vec::new(), "/w");
    assert!(!runner.has_hooks());
    let run = runner.run_pre_tool_use("Bash");
    assert!(run.is_finished());
    assert_eq!(run.result(), PreToolResult::Allow);
    let post = runner.run_post_tool_use("Bash", 0);
    assert!(post.next_hook().is_none());
    let (verdict, observations) = post.finish();
    assert_eq!(verdict, PostToolResult::Continue);
    assert!(observations.is_empty());
    assert!(runner.run_stop().is_empty());
}

#[test]
fn post_signal_is_recorded_and_returned() {
    let runner = HookRunner::new(vec![hook("PostToolUse", None, "post.sh", None)], "/w");
    assert!(runner.has_hooks());
    let mut run = runner.run_post_tool_use("Bash", 4);
    assert_eq!(run.next_hook().unwrap().command, "post.sh");
    run.hook_finished(post_says(
        r#"{"action":"signal","signal":"converged","reason":"3 clean"}"#,
    ));
    assert!(run.next_hook().is_none());
    let (verdict, observations) = run.finish();
    assert_eq!(
        verdict,
        PostToolResult::Signal {
            signal: "converged".to_string(),
            reason: "3 clean".to_string(),
        }
    );
    assert_eq!(observations.len(), 1);
    assert_eq!(observations[0].signal, "converged");
    assert_eq!(observations[0].reason, "3 clean");
    assert_eq!(observations[0].tool_iterations, 4);
}

#[test]
fn post_continue_and_failure_signal_nothing() {
    let runner = HookRunner::new(
        vec![
            hook("PostToolUse", None, "one.sh", None),
            hook("PostToolUse", None, "two.sh", None),
            hook("PostToolUse", None, "three.sh", None),
        ],
        "/w",
    );
    let mut run = runner.run_post_tool_use("Bash", 0);
    run.hook_finished(post_says(r#"{"action":"continue"}"#));
    run.hook_finished(Err(HookError::NonZeroExit(3)));
    run.hook_finished(post_says("garbage"));
    let (verdict, observations) = run.finish();
    assert_eq!(verdict, PostToolResult::Continue);
    assert!(observations.is_empty());
}

#[test]
fn first_post_signal_wins_and_all_are_recorded() {
    let runner = HookRunner::new(
        vec![
            hook("PostToolUse", None, "one.sh", None),
            hook("PostToolUse", None, "two.sh", None),
        ],
        "/w",
    );
    let mut run = runner.run_post_tool_use("Edit", 2);
    run.hook_finished(post_says(r#"{"action":"signal","signal":"first","reason":"a"}"#));
    run.hook_finished(post_says(r#"{"action":"signal"}"#));
    let (verdict, observations) = run.finish();
    assert_eq!(
        verdict,
        PostToolResult::Signal {
            signal: "first".to_string(),
            reason: "a".to_string(),
        }
    );
    assert_eq!(observations.len(), 2);
    assert_eq!(observations[1].signal, "unknown");
    assert_eq!(observations[1].reason, "no reason");
}

#[test]
fn stop_hooks_are_those_of_the_stop_event() {
    let runner = HookRunner::new(
        vec![
            hook("PreToolUse", None, "g.sh", None),
            hook("Stop", None, "bye.sh", None),
            hook("Stop", None, "bye_bash.sh", Some("Bash")),
            hook("PostToolUse", None, "p.sh", None),
        ],
        "/w",
    );
    let stops = runner.run_stop();
    let commands: Vec<&str> = stops.iter().map(|h| h.command.as_str()).collect();
    assert_eq!(commands, vec!["bye.sh", "bye_bash.sh"]);
}

#[test]
fn hook_inputs_name_event_tool_and_directory() {
    let runner = HookRunner::new(Vec::new(), "/work");
    assert_eq!(runner.cwd(), "/work");
    let input = json(r#"{"command":"ls"}"#);
    let guard = runner.guard_input("Bash", &input, 3);
    assert_eq!(
        guard,
        json(
            r#"{"event":"PreToolUse","phase":"guard","tool":"Bash","input":{"command":"ls"},"tool_iterations":3,"cwd":"/work"}"#
        )
    );
    let stop = runner.stop_input("end_turn", 2, 15);
    assert_eq!(
        stop,
        json(r#"{"event":"Stop","reason":"end_turn","tool_iterations":2,"total_tokens":15,"cwd":"/work"}"#)
    );
    let post = runner.post_input("Bash", &input, "out", false, 1);
    assert_eq!(
        post,
        json(
            r#"{"event":"PostToolUse","tool":"Bash","input":{"command":"ls"},"result":"out","is_error":false,"tool_iterations":1,"cwd":"/work"}"#
        )
    );
}

#[test]
fn observers_are_told_of_a_refusal() {
    let runner = HookRunner::new(vec![hook("PreToolUse", Some("guard"), "g.sh", None)], "/work");
    let input = json(r#"{"command":"ls"}"#);
    let mut run = runner.run_pre_tool_use("Bash");
    let allowed = runner.observe_input("Bash", &input, run.block(), 0);
    assert_eq!(
        allowed,
        json(
            r#"{"event":"PreToolUse","phase":"observe","tool":"Bash","input":{"command":"ls"},"blocked":false,"tool_iterations":0,"cwd":"/work"}"#
        )
    );
    run.guard_finished(guard_says(r#"{"action":"block","reason":"no"}"#));
    let refused = runner.observe_input("Bash", &input, run.block(), 0);
    assert_eq!(
        refused,
        json(
            r#"{"event":"PreToolUse","phase":"observe","tool":"Bash","input":{"command":"ls"},"blocked":true,"blocked_by":"g.sh","block_reason":"no","tool_iterations":0,"cwd":"/work"}"#
        )
    );
}

#[test]
fn a_run_with_hooks_left_is_not_finished() {
    let runner = HookRunner::new(
        vec![
            hook("PreToolUse", Some("guard"), "g.sh", None),
            hook("PreToolUse", Some("observe"), "o.sh", None),
            hook("PostToolUse", None, "p.sh", None),
        ],
        "/w",
    );
    let mut run = runner.run_pre_tool_use("Bash");
    assert!(!run.is_finished());
    run.guard_finished(guard_says(r#"{"action":"allow"}"#));
    assert!(!run.is_finished());
    run.observe_finished();
    assert!(run.is_finished());
    assert_eq!(run.result(), PreToolResult::Allow);

    let mut post = runner.run_post_tool_use("Bash", 0);
    assert!(!post.is_finished());
    post.hook_finished(post_says(r#"{"action":"continue"}"#));
    assert!(post.is_finished());
    assert_eq!(post.finish().0, PostToolResult::Continue);
}
