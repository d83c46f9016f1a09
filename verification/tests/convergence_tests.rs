use forgeflare::convergence::{
    final_state_text, write_final_state, write_observations, ConvergenceState, FinalState,
    Observation,
};

fn json(text: &str) -> serde_json::Value {
    serde_json::from_str(text).unwrap()
}

fn observation(signal: &str, reason: &str, tool_iterations: usize) -> Observation {
    Observation {
        signal: signal.to_string(),
        reason: reason.to_string(),
        tool_iterations,
    }
}

#[test]
fn convergence_atomic_write() {
    let observations = vec![Observation {
        signal: "test".to_string(),
        reason: "test reason".to_string(),
        tool_iterations: 5,
    }];
    let content = write_observations(None, &observations);
    let state = ConvergenceState::load(Some(&content));
    assert_eq!(state.observations.len(), 1);
    assert_eq!(state.observations[0].signal, "test");
    assert_eq!(state.observations[0].reason, "test reason");
    assert_eq!(state.observations[0].tool_iterations, 5);
    assert!(state.final_state.is_none());
}

#[test]
fn convergence_observations_append() {
    let obs1 = vec![Observation {
        signal: "first".to_string(),
        reason: "reason1".to_string(),
        tool_iterations: 1,
    }];
    let first = write_observations(None, &obs1);

    let obs2 = vec![Observation {
        signal: "second".to_string(),
        reason: "reason2".to_string(),
        tool_iterations: 2,
    }];
    let content = write_observations(Some(&first), &obs2);

    let state = ConvergenceState::load(Some(&content));
    assert_eq!(state.observations.len(), 2);
    assert_eq!(state.observations[0].signal, "first");
    assert_eq!(state.observations[1].signal, "second");
}

#[test]
fn convergence_final_state_written() {
    let content = write_final_state(None, "convergence_signal", 22, 45000);

    assert!(
        content.contains("\"final\""),
        "convergence JSON must use \"final\" key"
    );
    assert!(
        !content.contains("\"final_state\""),
        "convergence JSON must not use \"final_state\" key"
    );

    let state = ConvergenceState::load(Some(&content));
    assert!(state.final_state.is_some());
    let final_s = state.final_state.unwrap();
    assert_eq!(final_s.reason, "convergence_signal");
    assert_eq!(final_s.tool_iterations, 22);
    assert_eq!(final_s.total_tokens, 45000);
    assert!(!final_s.timestamp.is_empty());
    assert!(chrono::DateTime::parse_from_rfc3339(&final_s.timestamp).is_ok());
}

#[test]
fn final_state_keeps_the_observations() {
    let first = write_observations(None, &vec![observation("a", "b", 1)]);
    let content = final_state_text(
        Some(&first),
        "end_turn",
        3,
        15,
        "2026-01-02T03:04:05+00:00".to_string(),
    );
    assert_eq!(
        json(&content),
        json(
            r#"{"observations":[{"signal":"a","reason":"b","tool_iterations":1}],
                "final":{"reason":"end_turn","tool_iterations":3,"total_tokens":15,
                         "timestamp":"2026-01-02T03:04:05+00:00"}}"#
        )
    );
}

#[test]
fn observations_after_a_final_state_keep_it() {
    let done = final_state_text(None, "api_error", 0, 0, "t".to_string());
    let content = write_observations(Some(&done), &vec![observation("s", "r", 9)]);
    let state = ConvergenceState::load(Some(&content));
    assert_eq!(state.observations.len(), 1);
    assert_eq!(state.final_state.unwrap().reason, "api_error");
}

#[test]
fn ledger_text_is_pretty_json() {
    let content = write_observations(None, &Vec::new());
    assert_eq!(content, "{\n  \"observations\": []\n}");
}

#[test]
fn a_missing_or_broken_ledger_is_empty() {
    for text in [
        None,
        Some(""),
        Some("not json"),
        Some("[]"),
        Some("7"),
        Some(r#"{"observations":7}"#),
        Some(r#"{"observations":[{"signal":"a"}]}"#),
        Some(r#"{"observations":[],"final":{"reason":"x"}}"#),
    ] {
        let state = ConvergenceState::load(text);
        assert!(state.observations.is_empty(), "for {text:?}");
        assert!(state.final_state.is_none(), "for {text:?}");
    }
}

#[test]
fn a_ledger_without_members_is_empty_and_null_final_is_none() {
    let state = ConvergenceState::load(Some("{}"));
    assert!(state.observations.is_empty());
    assert!(state.final_state.is_none());
    let state = ConvergenceState::load(Some(
        r#"{"observations":[{"signal":"a","reason":"b","tool_iterations":2}],"final":null}"#,
    ));
    assert_eq!(state.observations.len(), 1);
    assert!(state.final_state.is_none());
}

#[test]
fn ledger_round_trips_through_json() {
    let mut ledger = ConvergenceState::new();
    ledger.append_observations(&vec![observation("a", "b", 1), observation("c", "d", 2)]);
    ledger.set_final("iteration_limit", 50, 1234, "now".to_string());
    let value = ledger.to_json();
    let back = ConvergenceState::from_json(&value).unwrap();
    assert_eq!(back.observations.len(), 2);
    assert_eq!(back.observations[1].signal, "c");
    assert_eq!(back.observations[1].tool_iterations, 2);
    let last = back.final_state.unwrap();
    assert_eq!(last.reason, "iteration_limit");
    assert_eq!(last.tool_iterations, 50);
    assert_eq!(last.total_tokens, 1234);
    assert_eq!(last.timestamp, "now");
}

#[test]
fn observation_and_final_state_json() {
    let o = observation("converged", "3 clean", 7);
    assert_eq!(
        o.to_json(),
        json(r#"{"signal":"converged","reason":"3 clean","tool_iterations":7}"#)
    );
    let back = Observation::from_json(&o.to_json()).unwrap();
    assert_eq!(back.signal, "converged");
    assert!(Observation::from_json(&json(r#"{"signal":"a","reason":"b"}"#)).is_none());
    assert!(
        Observation::from_json(&json(r#"{"signal":"a","reason":"b","tool_iterations":-1}"#))
            .is_none()
    );
    let f = FinalState {
        reason: "end_turn".to_string(),
        tool_iterations: 1,
        total_tokens: 2,
        timestamp: "t".to_string(),
    };
    assert_eq!(
        f.to_json(),
        json(r#"{"reason":"end_turn","tool_iterations":1,"total_tokens":2,"timestamp":"t"}"#)
    );
    assert!(FinalState::from_json(&json(r#"{"reason":"end_turn"}"#)).is_none());
}
