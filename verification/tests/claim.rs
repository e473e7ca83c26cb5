use agent_witness::claim::{build_claim_vs_reality, ClaimVsReality};
use agent_witness::event::{AgentEvent, Attribution, EventKind, Source, CONFIDENCE_CERTAIN};
use agent_witness::json::{set_member, Json};
use agent_witness::timeline::build_timeline;

/// An object with these members.
fn obj(members: Vec<(&str, Json)>) -> Json {
    let mut all = Vec::new();
    for (name, value) in members {
        set_member(&mut all, name, value);
    }
    Json::Object(all)
}

fn text(value: &str) -> Json {
    Json::Str(value.to_string())
}

fn ev(ts: i64, kind: EventKind, payload: Json) -> AgentEvent {
    AgentEvent::new(
        ts,
        "s",
        Source::Hooks,
        kind,
        Attribution::Direct,
        CONFIDENCE_CERTAIN,
        payload,
    )
}

fn call(ts: i64, tool: &str, id: &str, input: Json) -> AgentEvent {
    ev(
        ts,
        EventKind::ToolCall,
        obj(vec![("tool_name", text(tool)), ("tool_use_id", text(id)), ("tool_input", input)]),
    )
}

fn result(ts: i64, tool: &str, id: &str) -> AgentEvent {
    ev(
        ts,
        EventKind::ToolResult,
        obj(vec![("tool_name", text(tool)), ("tool_use_id", text(id))]),
    )
}

fn build(events: &[AgentEvent]) -> Option<ClaimVsReality> {
    let entries = build_timeline(events);
    build_claim_vs_reality(events, &entries)
}

#[test]
fn none_when_no_message_and_no_test_activity() {
    let events = vec![
        call(1, "Bash", "t1", obj(vec![("command", text("ls"))])),
        result(2, "Bash", "t1"),
    ];
    assert!(build(&events).is_none());
}

#[test]
fn captures_verbatim_final_message_from_last_stop() {
    let events = vec![
        ev(
            1,
            EventKind::Stop,
            obj(vec![("last_assistant_message", text("first turn"))]),
        ),
        call(2, "Bash", "t1", obj(vec![("command", text("cargo test"))])),
        result(3, "Bash", "t1"),
        ev(
            4,
            EventKind::Stop,
            obj(vec![("last_assistant_message", text("done, tests pass"))]),
        ),
    ];
    let cvr = build(&events).unwrap();
    // The LAST Stop wins, verbatim.
    assert_eq!(cvr.final_message.as_deref(), Some("done, tests pass"));
}

#[test]
fn empty_or_absent_final_message_is_none() {
    let events = vec![
        call(1, "Bash", "t1", obj(vec![("command", text("cargo test"))])),
        result(2, "Bash", "t1"),
        ev(3, EventKind::Stop, obj(vec![("last_assistant_message", text("   "))])),
        ev(4, EventKind::Stop, obj(vec![("stop_hook_active", Json::Bool(false))])),
    ];
    let cvr = build(&events).unwrap();
    assert_eq!(cvr.final_message, None);
    // But the test command still surfaced.
    assert_eq!(cvr.test_commands.len(), 1);
}

#[test]
fn test_command_records_kind_and_status() {
    let events = vec![
        call(
            1,
            "Bash",
            "t1",
            obj(vec![("command", text("cargo test --workspace"))]),
        ),
        result(2, "Bash", "t1"),
        call(3, "Bash", "t2", obj(vec![("command", text("cargo build"))])),
        result(4, "Bash", "t2"),
    ];
    let cvr = build(&events).unwrap();
    assert_eq!(cvr.test_commands.len(), 2);
    assert_eq!(cvr.test_commands[0].kind, "test");
    assert_eq!(cvr.test_commands[0].status, "ok");
    assert_eq!(cvr.test_commands[1].kind, "build");
}

#[test]
fn unpaired_test_command_is_no_result_not_failed() {
    // A cargo test with no PostToolUse (the failed-Bash shape).
    let events = vec![call(1, "Bash", "t1", obj(vec![("command", text("cargo test"))]))];
    let cvr = build(&events).unwrap();
    assert_eq!(cvr.test_commands[0].status, "no-result");
    assert_eq!(cvr.no_result_calls, 1);
}

#[test]
fn test_files_detected_by_heuristic_reads_excluded() {
    let events = vec![
        call(1, "Write", "t1", obj(vec![("file_path", text("/p/tests/foo.rs"))])),
        result(2, "Write", "t1"),
        call(3, "Edit", "t2", obj(vec![("file_path", text("/p/src/app.test.ts"))])),
        result(4, "Edit", "t2"),
        // A plain source file must not be treated as a test file.
        call(5, "Write", "t3", obj(vec![("file_path", text("/p/src/latest.rs"))])),
        result(6, "Write", "t3"),
        // A Read of a test file is not a write.
        call(7, "Read", "t4", obj(vec![("file_path", text("/p/tests/bar.rs"))])),
        result(8, "Read", "t4"),
    ];
    let cvr = build(&events).unwrap();
    let paths: Vec<&str> = cvr.test_files.iter().map(|f| f.path.as_str()).collect();
    assert_eq!(paths, vec!["/p/tests/foo.rs", "/p/src/app.test.ts"]);
}

#[test]
fn cue_points_at_tension_without_a_verdict() {
    // Final message mentions tests, but no test command was recorded.
    let events = vec![ev(
        1,
        EventKind::Stop,
        obj(vec![("last_assistant_message", text("All done — tests pass and the build is green."))]),
    )];
    let cvr = build(&events).unwrap();
    assert!(cvr
        .cues
        .iter()
        .any(|c| c.contains("mentions tests") && c.contains("no test-like command")));
}

#[test]
fn no_test_mention_no_discrepancy_cue() {
    let events = vec![ev(
        1,
        EventKind::Stop,
        obj(vec![("last_assistant_message", text("Refactored the parser and updated docs."))]),
    )];
    let cvr = build(&events).unwrap();
    assert!(cvr.cues.iter().all(|c| !c.contains("mentions tests")));
}

#[test]
fn latest_in_prose_does_not_count_as_a_test_mention() {
    // `latest` contains the substring "test" but must not trip the cue.
    let events = vec![
        ev(
            1,
            EventKind::Stop,
            obj(vec![("last_assistant_message", text("Pulled the latest changes."))]),
        ),
        call(2, "Write", "t1", obj(vec![("file_path", text("/p/tests/x.rs"))])),
        result(3, "Write", "t1"),
    ];
    let cvr = build(&events).unwrap();
    assert!(cvr.cues.iter().all(|c| !c.contains("mentions tests")));
}

/// The precision policy, enforced: no cue may ever contain an adjudicating
/// word. This is the one unforgivable-bug guard.
#[test]
fn cues_never_contain_a_verdict_word() {
    let events = vec![
        ev(
            1,
            EventKind::Stop,
            obj(vec![("last_assistant_message", text("tests pass, all green"))]),
        ),
        call(2, "Bash", "t1", obj(vec![("command", text("cargo test"))])), // no result → no-result
        call(3, "Bash", "t2", obj(vec![("command", text("cargo build"))])),
        ev(
            4,
            EventKind::ToolFailure,
            obj(vec![("tool_name", text("Bash")), ("tool_use_id", text("t3"))]),
        ),
    ];
    let cvr = build(&events).unwrap();
    let forbidden = [
        "lied",
        "false",
        "contradict",
        "did not pass",
        "the agent",
        "dishonest",
    ];
    for cue in &cvr.cues {
        let lower = cue.to_ascii_lowercase();
        for word in forbidden {
            assert!(!lower.contains(word), "cue must not adjudicate: {cue:?}");
        }
    }
}
