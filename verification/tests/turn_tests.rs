use forgeflare::api::{AgentError, ContentBlock, Message, StopReason, Usage};
use forgeflare::hooks::{PostToolResult, PreToolResult};
use forgeflare::limits::StopTag;
use forgeflare::sse::parse_sse_stream;
use forgeflare::turn::{Action, ApiReply, Event, Phase, TurnController, WorkerOutcome};

fn json(text: &str) -> serde_json::Value {
    serde_json::from_str(text).unwrap()
}

fn usage(input: u64, output: u64) -> Usage {
    Usage {
        input_tokens: input,
        output_tokens: output,
        cache_creation_input_tokens: 0,
        cache_read_input_tokens: 0,
    }
}

fn text(text: &str) -> ContentBlock {
    ContentBlock::Text {
        text: text.to_string(),
    }
}

fn tool_use(id: &str, name: &str, input: &str) -> ContentBlock {
    ContentBlock::ToolUse {
        id: id.to_string(),
        name: name.to_string(),
        input: json(input),
    }
}

fn replied(blocks: Vec<ContentBlock>, stop_reason: StopReason) -> Event {
    Event::ApiReplied(ApiReply {
        blocks,
        stop_reason,
        usage: usage(10, 5),
    })
}

fn block(reason: &str) -> Event {
    Event::PreTool(PreToolResult::Block {
        reason: reason.to_string(),
        blocked_by: "guard.sh".to_string(),
    })
}

fn allow() -> Event {
    Event::PreTool(PreToolResult::Allow)
}

fn finished(content: &str, is_error: bool) -> Event {
    Event::ToolFinished {
        content: content.to_string(),
        is_error,
    }
}

fn go_on() -> Event {
    Event::PostTool(PostToolResult::Continue)
}

fn roles(controller: &TurnController) -> Vec<String> {
    controller
        .conversation()
        .iter()
        .map(|m| m.role.clone())
        .collect()
}

fn result_of(block: &ContentBlock) -> (String, String, Option<bool>) {
    match block {
        ContentBlock::ToolResult {
            tool_use_id,
            content,
            is_error,
        } => (tool_use_id.clone(), content.clone(), *is_error),
        other => panic!("expected a tool result, found {other:?}"),
    }
}

fn last_results(controller: &TurnController) -> Vec<(String, String, Option<bool>)> {
    let last: &Message = controller.conversation().last().unwrap();
    assert_eq!(last.role, "user");
    last.content.iter().map(result_of).collect()
}

#[test]
fn happy_text_turn() {
    let stream = [
        "event: message_start\ndata: {\"type\":\"message_start\",\"message\":{\"usage\":{\"input_tokens\":10}}}\n\n",
        "event: content_block_start\ndata: {\"type\":\"content_block_start\",\"index\":0,\"content_block\":{\"type\":\"text\",\"text\":\"\"}}\n\n",
        "event: content_block_delta\ndata: {\"type\":\"content_block_delta\",\"index\":0,\"delta\":{\"type\":\"text_delta\",\"text\":\"hello\"}}\n\n",
        "event: content_block_stop\ndata: {\"type\":\"content_block_stop\",\"index\":0}\n\n",
        "event: message_delta\ndata: {\"type\":\"message_delta\",\"delta\":{\"stop_reason\":\"end_turn\"},\"usage\":{\"output_tokens\":5}}\n\n",
    ]
    .concat();
    let (reply, handed) = parse_sse_stream(&vec![stream.into_bytes()]);
    let (blocks, stop_reason, usage) = reply.unwrap();
    assert_eq!(handed.concat(), "hello");

    let mut controller = TurnController::new();
    assert_eq!(controller.begin_turn("hi"), Action::CallApi);
    assert_eq!(controller.phase(), Phase::AwaitApi);
    let action = controller.step(Event::ApiReplied(ApiReply {
        blocks,
        stop_reason,
        usage,
    }));
    assert_eq!(
        action,
        Action::RunStop {
            tag: StopTag::EndTurn
        }
    );
    assert_eq!(controller.conversation().len(), 2);
    assert_eq!(roles(&controller), vec!["user", "assistant"]);
    assert_eq!(controller.total_tokens(), 15);
    assert_eq!(controller.stop_tag(), StopTag::EndTurn);
    assert_eq!(controller.stop_tag().as_str(), "end_turn");
    assert_eq!(controller.tool_iterations(), 0);
    assert_eq!(controller.step(Event::StopHookDone), Action::Finished);
    assert_eq!(controller.phase(), Phase::Idle);

    let journal = controller.take_journal();
    assert_eq!(journal.len(), 2);
    assert_eq!(journal[0].message.role, "user");
    assert!(journal[0].usage.is_none());
    assert_eq!(journal[1].usage.unwrap().input_tokens, 10);
    assert!(controller.take_journal().is_empty());
}

#[test]
fn truncated_tool_use() {
    let mut controller = TurnController::new();
    controller.begin_turn("do it");
    let action = controller.step(replied(
        vec![ContentBlock::ToolUse {
            id: "tu_1".to_string(),
            name: "Bash".to_string(),
            input: serde_json::Value::Null,
        }],
        StopReason::MaxTokens,
    ));
    assert_eq!(
        action,
        Action::RunStop {
            tag: StopTag::ContinuationCap
        }
    );
    assert_eq!(controller.stop_tag().as_str(), "continuation_cap");
    assert_eq!(controller.batch_len(), 0);
    let last = controller.conversation().last().unwrap();
    assert_eq!(last.role, "assistant");
    assert_eq!(last.content.len(), 1);
    match &last.content[0] {
        ContentBlock::Text { text } => assert_eq!(text, "[Response truncated]"),
        other => panic!("expected the placeholder, found {other:?}"),
    }
    assert_eq!(controller.step(Event::StopHookDone), Action::Finished);
    assert_eq!(controller.step(Event::StopHookDone), Action::Rejected);
}

#[test]
fn guard_block_triples() {
    let mut controller = TurnController::new();
    controller.begin_turn("clean up");
    let action = controller.step(replied(
        vec![
            tool_use("t1", "Bash", r#"{"command":"rm -rf a"}"#),
            tool_use("t2", "Bash", r#"{"command":"rm -rf b"}"#),
            tool_use("t3", "Bash", r#"{"command":"rm -rf c"}"#),
        ],
        StopReason::ToolUse,
    ));
    assert_eq!(action, Action::RunPreToolUse { index: 0 });
    assert!(!controller.is_parallel());
    assert_eq!(controller.batch_len(), 3);
    assert_eq!(controller.conversation().len(), 2);

    assert_eq!(controller.step(block("no")), Action::RunPreToolUse { index: 1 });
    assert_eq!(controller.consecutive_block_count(), 1);
    assert_eq!(controller.step(block("no")), Action::RunPreToolUse { index: 2 });
    assert_eq!(controller.consecutive_block_count(), 2);
    assert_eq!(
        controller.step(block("no")),
        Action::RunStop {
            tag: StopTag::BlockLimitConsecutive
        }
    );
    assert_eq!(controller.consecutive_block_count(), 3);
    assert_eq!(controller.total_block_count(), 3);
    assert_eq!(controller.stop_tag().as_str(), "block_limit_consecutive");
    assert_eq!(controller.conversation().len(), 1);
    assert_eq!(roles(&controller), vec!["user"]);
    assert_eq!(controller.step(Event::StopHookDone), Action::Finished);
}

#[test]
fn rate_limit_retry_with_header() {
    let mut controller = TurnController::new();
    assert_eq!(controller.begin_turn("hi"), Action::CallApi);
    let action = controller.step(Event::ApiFailed(AgentError::HttpError {
        status: 429,
        retry_after: Some(120),
        body: "slow down".to_string(),
    }));
    assert_eq!(action, Action::Sleep { seconds: 60 });
    assert_eq!(controller.phase(), Phase::AwaitDelay);
    assert_eq!(controller.step(Event::DelayElapsed), Action::CallApi);
    let action = controller.step(replied(vec![text("hello")], StopReason::EndTurn));
    assert_eq!(
        action,
        Action::RunStop {
            tag: StopTag::EndTurn
        }
    );
    assert_eq!(controller.conversation().len(), 2);
}

#[test]
fn retries_follow_the_schedule_and_then_give_up() {
    let mut controller = TurnController::new();
    controller.begin_turn("hi");
    for seconds in [2, 4, 8, 16] {
        let action = controller.step(Event::ApiFailed(AgentError::StreamTransient(
            "stream ended without stop_reason".to_string(),
        )));
        assert_eq!(action, Action::Sleep { seconds });
        assert_eq!(controller.step(Event::DelayElapsed), Action::CallApi);
    }
    let action = controller.step(Event::ApiFailed(AgentError::HttpError {
        status: 503,
        retry_after: None,
        body: String::new(),
    }));
    assert_eq!(
        action,
        Action::RunStop {
            tag: StopTag::ApiError
        }
    );
    // The prompt that was never answered leaves the conversation.
    assert!(controller.conversation().is_empty());
}

#[test]
fn a_permanent_fault_is_not_retried() {
    let mut controller = TurnController::new();
    controller.begin_turn("hi");
    let action = controller.step(Event::ApiFailed(AgentError::HttpError {
        status: 400,
        retry_after: Some(1),
        body: "bad".to_string(),
    }));
    assert_eq!(
        action,
        Action::RunStop {
            tag: StopTag::ApiError
        }
    );
    assert_eq!(controller.stop_tag().as_str(), "api_error");
}

#[test]
fn a_stream_without_stop_reason_is_retried() {
    let stream = "event: content_block_start\ndata: {\"type\":\"content_block_start\",\"index\":0,\"content_block\":{\"type\":\"text\",\"text\":\"\"}}\n\n";
    let (reply, _) = parse_sse_stream(&vec![stream.as_bytes().to_vec()]);
    let fault = reply.unwrap_err();
    assert!(matches!(fault, AgentError::StreamTransient(_)));
    let mut controller = TurnController::new();
    controller.begin_turn("hi");
    assert_eq!(
        controller.step(Event::ApiFailed(fault)),
        Action::Sleep { seconds: 2 }
    );
}

#[test]
fn parallel_reads_preserve_order() {
    let mut controller = TurnController::new();
    controller.begin_turn("read them");
    let action = controller.step(replied(
        vec![
            tool_use("a", "Read", r#"{"file_path":"/a"}"#),
            tool_use("b", "Read", r#"{"file_path":"/b"}"#),
            tool_use("c", "Read", r#"{"file_path":"/c"}"#),
        ],
        StopReason::ToolUse,
    ));
    assert_eq!(action, Action::RunPreToolUse { index: 0 });
    assert!(controller.is_parallel());
    assert_eq!(controller.tool_call(1).unwrap().id, "b");
    assert_eq!(controller.tool_call(1).unwrap().name, "Read");
    assert!(controller.tool_call(3).is_none());

    assert_eq!(controller.step(allow()), Action::SpawnWorker { index: 0 });
    assert_eq!(
        controller.step(Event::WorkerSpawned),
        Action::RunPreToolUse { index: 1 }
    );
    assert_eq!(controller.step(allow()), Action::SpawnWorker { index: 1 });
    assert_eq!(
        controller.step(Event::WorkerSpawned),
        Action::RunPreToolUse { index: 2 }
    );
    assert_eq!(controller.step(allow()), Action::SpawnWorker { index: 2 });
    assert_eq!(controller.step(Event::WorkerSpawned), Action::JoinWorkers);

    let action = controller.step(Event::WorkersJoined(vec![
        WorkerOutcome::Finished {
            content: "content_a".to_string(),
            is_error: false,
        },
        WorkerOutcome::Finished {
            content: "content_b".to_string(),
            is_error: true,
        },
        WorkerOutcome::Finished {
            content: "content_c".to_string(),
            is_error: false,
        },
    ]));
    assert_eq!(action, Action::RunPostToolUse { index: 0 });
    assert_eq!(
        controller.tool_outcome(1),
        Some(("content_b".to_string(), true))
    );
    assert_eq!(controller.step(go_on()), Action::RunPostToolUse { index: 1 });
    assert_eq!(controller.step(go_on()), Action::RunPostToolUse { index: 2 });
    assert_eq!(controller.step(go_on()), Action::CallApi);

    assert_eq!(
        last_results(&controller),
        vec![
            ("a".to_string(), "content_a".to_string(), None),
            ("b".to_string(), "content_b".to_string(), Some(true)),
            ("c".to_string(), "content_c".to_string(), None),
        ]
    );
    assert_eq!(controller.tool_iterations(), 1);
    assert_eq!(roles(&controller), vec!["user", "assistant", "user"]);
}

#[test]
fn a_worker_that_panics_leaves_an_error_and_the_batch_completes() {
    let mut controller = TurnController::new();
    controller.begin_turn("read them");
    controller.step(replied(
        vec![
            tool_use("a", "Read", r#"{"file_path":"/a"}"#),
            tool_use("b", "Glob", r#"{"pattern":"*"}"#),
        ],
        StopReason::ToolUse,
    ));
    controller.step(allow());
    controller.step(Event::WorkerSpawned);
    controller.step(allow());
    assert_eq!(controller.step(Event::WorkerSpawned), Action::JoinWorkers);
    let action = controller.step(Event::WorkersJoined(vec![
        WorkerOutcome::Panicked,
        WorkerOutcome::Finished {
            content: "b.txt".to_string(),
            is_error: false,
        },
    ]));
    assert_eq!(action, Action::RunPostToolUse { index: 0 });
    controller.step(go_on());
    assert_eq!(controller.step(go_on()), Action::CallApi);
    assert_eq!(
        last_results(&controller),
        vec![
            ("a".to_string(), "tool panicked".to_string(), Some(true)),
            ("b".to_string(), "b.txt".to_string(), None),
        ]
    );
}

#[test]
fn a_blocked_tool_in_a_parallel_batch_gets_no_worker_and_no_post_hook() {
    let mut controller = TurnController::new();
    controller.begin_turn("read them");
    controller.step(replied(
        vec![
            tool_use("a", "Read", r#"{"file_path":"/a"}"#),
            tool_use("b", "Read", r#"{"file_path":"/b"}"#),
        ],
        StopReason::ToolUse,
    ));
    assert_eq!(
        controller.step(block("hook failed: g returned invalid JSON")),
        Action::RunPreToolUse { index: 1 }
    );
    assert_eq!(controller.step(allow()), Action::SpawnWorker { index: 1 });
    assert_eq!(controller.consecutive_block_count(), 0);
    assert_eq!(controller.total_block_count(), 1);
    assert_eq!(controller.step(Event::WorkerSpawned), Action::JoinWorkers);
    let action = controller.step(Event::WorkersJoined(vec![WorkerOutcome::Finished {
        content: "content_b".to_string(),
        is_error: false,
    }]));
    assert_eq!(action, Action::RunPostToolUse { index: 1 });
    assert_eq!(controller.step(go_on()), Action::CallApi);
    assert_eq!(
        last_results(&controller),
        vec![
            (
                "a".to_string(),
                "hook failed: g returned invalid JSON".to_string(),
                Some(true)
            ),
            ("b".to_string(), "content_b".to_string(), None),
        ]
    );
}

#[test]
fn convergence_signal_ends_the_turn() {
    let mut controller = TurnController::new();
    controller.begin_turn("fix it");
    let action = controller.step(replied(
        vec![
            text("editing"),
            tool_use("e1", "Edit", r#"{"file_path":"/a","old_str":"x","new_str":"y"}"#),
        ],
        StopReason::ToolUse,
    ));
    assert_eq!(action, Action::RunPreToolUse { index: 0 });
    assert!(!controller.is_parallel());
    assert_eq!(controller.step(allow()), Action::InvokeTool { index: 0 });
    assert_eq!(
        controller.step(finished("Edited /a", false)),
        Action::RunPostToolUse { index: 0 }
    );
    let action = controller.step(Event::PostTool(PostToolResult::Signal {
        signal: "converged".to_string(),
        reason: "3 clean".to_string(),
    }));
    assert_eq!(
        action,
        Action::RunStop {
            tag: StopTag::ConvergenceSignal
        }
    );
    assert_eq!(controller.stop_tag().as_str(), "convergence_signal");
    assert_eq!(controller.tool_iterations(), 1);
    assert_eq!(
        last_results(&controller),
        vec![("e1".to_string(), "Edited /a".to_string(), None)]
    );
    assert_eq!(controller.step(Event::StopHookDone), Action::Finished);
}

#[test]
fn an_allow_resets_the_blocks_in_a_row_but_not_the_total() {
    let mut controller = TurnController::new();
    controller.begin_turn("go");
    controller.step(replied(
        vec![
            tool_use("t1", "Bash", r#"{"command":"a"}"#),
            tool_use("t2", "Bash", r#"{"command":"b"}"#),
            tool_use("t3", "Bash", r#"{"command":"c"}"#),
            tool_use("t4", "Bash", r#"{"command":"d"}"#),
        ],
        StopReason::ToolUse,
    ));
    controller.step(block("no"));
    controller.step(block("no"));
    assert_eq!(controller.consecutive_block_count(), 2);
    assert_eq!(controller.step(allow()), Action::InvokeTool { index: 2 });
    assert_eq!(controller.consecutive_block_count(), 0);
    assert_eq!(controller.total_block_count(), 2);
    controller.step(finished("ok", false));
    assert_eq!(controller.step(go_on()), Action::RunPreToolUse { index: 3 });
    assert_eq!(controller.step(block("no")), Action::CallApi);
    assert_eq!(controller.consecutive_block_count(), 1);
    assert_eq!(controller.total_block_count(), 3);
    assert_eq!(
        last_results(&controller),
        vec![
            ("t1".to_string(), "no".to_string(), Some(true)),
            ("t2".to_string(), "no".to_string(), Some(true)),
            ("t3".to_string(), "ok".to_string(), None),
            ("t4".to_string(), "no".to_string(), Some(true)),
        ]
    );
}

#[test]
fn the_total_of_blocks_ends_the_turn_at_ten() {
    let mut controller = TurnController::new();
    controller.begin_turn("go");
    let mut total = 0;
    // Two blocks and an allow, over and over: never three in a row.
    loop {
        let action = controller.step(replied(
            vec![
                tool_use("t1", "Bash", r#"{"command":"a"}"#),
                tool_use("t2", "Bash", r#"{"command":"b"}"#),
                tool_use("t3", "Bash", r#"{"command":"c"}"#),
            ],
            StopReason::ToolUse,
        ));
        assert_eq!(action, Action::RunPreToolUse { index: 0 });
        let first = controller.step(block("no"));
        total += 1;
        if total == 10 {
            assert_eq!(
                first,
                Action::RunStop {
                    tag: StopTag::BlockLimitTotal
                }
            );
            break;
        }
        let second = controller.step(block("no"));
        total += 1;
        if total == 10 {
            assert_eq!(
                second,
                Action::RunStop {
                    tag: StopTag::BlockLimitTotal
                }
            );
            break;
        }
        assert_eq!(controller.step(allow()), Action::InvokeTool { index: 2 });
        controller.step(finished("ok", false));
        assert_eq!(controller.step(go_on()), Action::CallApi);
    }
    assert_eq!(controller.total_block_count(), 10);
    assert_eq!(controller.stop_tag().as_str(), "block_limit_total");
}

#[test]
fn a_block_limit_in_a_parallel_batch_waits_for_the_workers() {
    let mut controller = TurnController::new();
    controller.begin_turn("go");
    controller.step(replied(
        vec![
            tool_use("a", "Read", r#"{"file_path":"/a"}"#),
            tool_use("b", "Read", r#"{"file_path":"/b"}"#),
            tool_use("c", "Read", r#"{"file_path":"/c"}"#),
            tool_use("d", "Read", r#"{"file_path":"/d"}"#),
        ],
        StopReason::ToolUse,
    ));
    assert_eq!(controller.step(allow()), Action::SpawnWorker { index: 0 });
    controller.step(Event::WorkerSpawned);
    controller.step(block("no"));
    controller.step(block("no"));
    assert_eq!(controller.step(block("no")), Action::JoinWorkers);
    let action = controller.step(Event::WorkersJoined(vec![WorkerOutcome::Finished {
        content: "a".to_string(),
        is_error: false,
    }]));
    assert_eq!(
        action,
        Action::RunStop {
            tag: StopTag::BlockLimitConsecutive
        }
    );
    assert_eq!(roles(&controller), vec!["user"]);
}

#[test]
fn a_cut_off_text_is_continued_three_times() {
    let mut controller = TurnController::new();
    controller.begin_turn("write");
    for count in 1..=3 {
        let action = controller.step(replied(vec![text("part")], StopReason::MaxTokens));
        assert_eq!(action, Action::CallApi);
        assert_eq!(controller.continuation_count(), count);
        let last = controller.conversation().last().unwrap();
        assert_eq!(last.role, "user");
        match &last.content[0] {
            ContentBlock::Text { text } => assert_eq!(text, "Continue from where you left off."),
            other => panic!("unexpected {other:?}"),
        }
    }
    let action = controller.step(replied(vec![text("part")], StopReason::MaxTokens));
    assert_eq!(
        action,
        Action::RunStop {
            tag: StopTag::ContinuationCap
        }
    );
    assert_eq!(controller.conversation().len(), 8);
    assert_eq!(controller.total_tokens(), 60);
}

#[test]
fn a_cut_off_reply_with_a_valid_request_dispatches_it() {
    let mut controller = TurnController::new();
    controller.begin_turn("go");
    let action = controller.step(replied(
        vec![
            tool_use("t1", "Read", r#"{"file_path":"/a"}"#),
            ContentBlock::ToolUse {
                id: "t2".to_string(),
                name: "Read".to_string(),
                input: serde_json::Value::Null,
            },
        ],
        StopReason::MaxTokens,
    ));
    assert_eq!(action, Action::RunPreToolUse { index: 0 });
    assert_eq!(controller.batch_len(), 1);
    assert_eq!(controller.conversation().last().unwrap().content.len(), 1);
}

#[test]
fn the_iteration_limit_ends_the_turn() {
    let mut controller = TurnController::new();
    controller.begin_turn("loop");
    let mut last = Action::CallApi;
    for _ in 0..50 {
        assert_eq!(last, Action::CallApi);
        controller.step(replied(
            vec![text("working"), tool_use("t", "Bash", r#"{"command":"ls"}"#)],
            StopReason::ToolUse,
        ));
        controller.step(allow());
        controller.step(finished("ok", false));
        last = controller.step(go_on());
    }
    assert_eq!(
        last,
        Action::RunStop {
            tag: StopTag::IterationLimit
        }
    );
    assert_eq!(controller.tool_iterations(), 50);
    assert_eq!(controller.stop_tag().as_str(), "iteration_limit");
    // The last results leave the conversation; the message that asked for
    // them holds text too and stays.
    assert_eq!(controller.conversation().last().unwrap().role, "assistant");
    assert_eq!(controller.conversation().len(), 100);
}

#[test]
fn an_event_that_is_not_awaited_changes_nothing() {
    let mut controller = TurnController::new();
    assert_eq!(controller.step(Event::DelayElapsed), Action::Rejected);
    assert_eq!(controller.step(Event::StopHookDone), Action::Rejected);
    assert_eq!(controller.begin_turn("hi"), Action::CallApi);
    assert_eq!(controller.begin_turn("again"), Action::Rejected);
    assert_eq!(controller.step(allow()), Action::Rejected);
    assert_eq!(controller.step(Event::WorkerSpawned), Action::Rejected);
    assert_eq!(controller.conversation().len(), 1);
    assert_eq!(controller.phase(), Phase::AwaitApi);
}

#[test]
fn counters_start_over_with_each_turn() {
    let mut controller = TurnController::new();
    controller.begin_turn("one");
    controller.step(replied(
        vec![tool_use("t1", "Bash", r#"{"command":"a"}"#)],
        StopReason::ToolUse,
    ));
    controller.step(block("no"));
    controller.step(replied(vec![text("done")], StopReason::EndTurn));
    controller.step(Event::StopHookDone);
    assert_eq!(controller.total_block_count(), 1);
    assert_eq!(controller.total_tokens(), 30);
    assert_eq!(controller.last_input_tokens(), 10);

    assert_eq!(controller.begin_turn("two"), Action::CallApi);
    assert_eq!(controller.total_block_count(), 0);
    assert_eq!(controller.consecutive_block_count(), 0);
    assert_eq!(controller.total_tokens(), 0);
    assert_eq!(controller.tool_iterations(), 0);
    assert_eq!(controller.last_input_tokens(), 0);
    assert_eq!(controller.conversation().len(), 5);
    assert_eq!(
        roles(&controller),
        vec!["user", "assistant", "user", "assistant", "user"]
    );
}

#[test]
fn a_turn_goes_on_from_a_given_conversation() {
    let earlier = vec![
        Message {
            role: "user".to_string(),
            content: vec![text("hello")],
        },
        Message {
            role: "assistant".to_string(),
            content: vec![text("hi")],
        },
    ];
    let mut controller = TurnController::with_conversation(earlier);
    assert_eq!(controller.begin_turn("more"), Action::CallApi);
    assert_eq!(controller.conversation().len(), 3);
}

#[test]
fn token_sums_stop_at_the_largest_number() {
    let mut controller = TurnController::new();
    controller.begin_turn("hi");
    let action = controller.step(Event::ApiReplied(ApiReply {
        blocks: vec![text("x")],
        stop_reason: StopReason::EndTurn,
        usage: usage(u64::MAX, 5),
    }));
    assert_eq!(
        action,
        Action::RunStop {
            tag: StopTag::EndTurn
        }
    );
    assert_eq!(controller.total_tokens(), u64::MAX);
}
