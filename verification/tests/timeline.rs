use agent_witness::event::{AgentEvent, Attribution, EventKind, Source, CONFIDENCE_CERTAIN};
use agent_witness::json::{set_member, Json};
use agent_witness::timeline::{build_timeline, tool_call_count, ToolStatus};

/// An object with these members.
fn obj(members: Vec<(&str, Json)>) -> Json {
    let mut all = Vec::new();
    for (name, value) in members {
        set_member(&mut all, name, value);
    }
    Json::Object(all)
}

fn text(value: &str) -> Json {
    Json::Str(value.to_string())
}

fn ev(ts: i64, kind: EventKind, payload: Json) -> AgentEvent {
    AgentEvent::new(
        ts,
        "s",
        Source::Hooks,
        kind,
        Attribution::Direct,
        CONFIDENCE_CERTAIN,
        payload,
    )
}

#[test]
fn pairs_call_with_matching_result_into_one_entry() {
    let events = vec![
        ev(
            1,
            EventKind::ToolCall,
            obj(vec![("tool_name", text("Bash")), ("tool_use_id", text("t1")), ("tool_input", obj(vec![("command", text("ls"))]))]),
        ),
        ev(
            2,
            EventKind::ToolResult,
            obj(vec![("tool_name", text("Bash")), ("tool_use_id", text("t1")), ("duration_ms", Json::Uint(42))]),
        ),
    ];
    let timeline = build_timeline(&events);
    assert_eq!(timeline.len(), 1);
    assert_eq!(timeline[0].tool_status, Some(ToolStatus::Okay));
    assert_eq!(timeline[0].duration_ms, Some(42));
    assert_eq!(timeline[0].tag, "Bash");
    assert_eq!(timeline[0].summary, "ls");
    assert!(timeline[0].result.is_some());
}

#[test]
fn unpaired_call_is_marked_no_result_not_success() {
    let events = vec![ev(
        1,
        EventKind::ToolCall,
        obj(vec![("tool_name", text("Bash")), ("tool_use_id", text("t1")), ("tool_input", obj(vec![("command", text("cat x"))]))]),
    )];
    let timeline = build_timeline(&events);
    assert_eq!(timeline.len(), 1);
    assert_eq!(timeline[0].tool_status, Some(ToolStatus::NoResult));
    assert_eq!(timeline[0].duration_ms, None);
    assert!(timeline[0].result.is_none());
}

#[test]
fn explicit_failure_result_marks_failed() {
    let events = vec![
        ev(
            1,
            EventKind::ToolCall,
            obj(vec![("tool_name", text("Bash")), ("tool_use_id", text("t9")), ("tool_input", obj(vec![("command", text("boom"))]))]),
        ),
        ev(
            2,
            EventKind::ToolFailure,
            obj(vec![("tool_name", text("Bash")), ("tool_use_id", text("t9"))]),
        ),
    ];
    let timeline = build_timeline(&events);
    assert_eq!(timeline.len(), 1);
    assert_eq!(timeline[0].tool_status, Some(ToolStatus::Failed));
}

#[test]
fn meta_events_map_one_to_one_with_summaries() {
    let events = vec![
        ev(
            1,
            EventKind::SessionStart,
            obj(vec![("source", text("startup")), ("cwd", text("/p"))]),
        ),
        ev(2, EventKind::Prompt, obj(vec![("prompt", text("do a\nthing"))])),
        ev(
            3,
            EventKind::Stop,
            obj(vec![("last_assistant_message", text("done"))]),
        ),
    ];
    let timeline = build_timeline(&events);
    assert_eq!(timeline.len(), 3);
    assert_eq!(timeline[0].tag, "SESSION");
    assert_eq!(timeline[0].summary, "startup");
    assert_eq!(timeline[1].tag, "PROMPT");
    // Newline flattened to a space so it can't break a row.
    assert_eq!(timeline[1].summary, "do a thing");
    assert_eq!(timeline[2].tag, "STOP");
    assert_eq!(timeline[2].summary, "done");
}

#[test]
fn orphan_result_is_surfaced_not_dropped() {
    let events = vec![ev(
        1,
        EventKind::ToolResult,
        obj(vec![("tool_name", text("Bash")), ("tool_use_id", text("ghost")), ("duration_ms", Json::Uint(5))]),
    )];
    let timeline = build_timeline(&events);
    assert_eq!(timeline.len(), 1);
    assert_eq!(timeline[0].tool_status, Some(ToolStatus::Okay));
}

#[test]
fn tool_call_count_counts_only_calls() {
    let events = vec![
        ev(1, EventKind::SessionStart, obj(vec![])),
        ev(2, EventKind::ToolCall, obj(vec![("tool_use_id", text("a"))])),
        ev(3, EventKind::ToolResult, obj(vec![("tool_use_id", text("a"))])),
        ev(4, EventKind::ToolCall, obj(vec![("tool_use_id", text("b"))])),
    ];
    assert_eq!(tool_call_count(&events), 2);
}

#[test]
fn empty_input_yields_empty_timeline() {
    assert!(build_timeline(&[]).is_empty());
}
