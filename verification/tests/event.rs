use agent_witness::event::{
    AgentEvent, Attribution, EventKind, Source, CONFIDENCE_CERTAIN, SCHEMA_VERSION,
};
use agent_witness::json::{set_member, Json};
use agent_witness::transcript::CONFIDENCE_TRANSCRIPT;

/// An object with these members.
fn obj(members: Vec<(&str, Json)>) -> Json {
    let mut all = Vec::new();
    for (name, value) in members {
        set_member(&mut all, name, value);
    }
    Json::Object(all)
}

fn text(value: &str) -> Json {
    Json::Str(value.to_string())
}

fn sample(kind: EventKind, attribution: Attribution) -> AgentEvent {
    AgentEvent::new(
        1_700_000_000_000,
        "sess-1",
        Source::Hooks,
        kind,
        attribution,
        CONFIDENCE_CERTAIN,
        obj(vec![("tool_name", text("Bash")), ("command", text("ls"))]),
    )
}

#[test]
fn new_stamps_current_schema_version() {
    let event = sample(EventKind::Prompt, Attribution::Direct);
    assert_eq!(event.v, SCHEMA_VERSION);
}

#[test]
fn a_new_event_has_no_correlation() {
    let event = sample(EventKind::Stop, Attribution::Observed);
    assert_eq!(event.correlation_window_ms, None);
    assert_eq!(event.raw_event_ref, None);
}

#[test]
fn confidences_are_the_bits_of_their_numbers() {
    assert_eq!(f64::from_bits(CONFIDENCE_CERTAIN), 1.0);
    assert_eq!(f64::from_bits(CONFIDENCE_TRANSCRIPT), 0.9);
}

#[test]
fn fields_are_read_where_they_are_text() {
    let mut event = sample(EventKind::ToolCall, Attribution::Direct);
    assert_eq!(event.str_field("tool_name"), Some("Bash"));
    assert_eq!(event.str_field("cwd"), None);
    assert_eq!(event.tool_input_str("command"), None);
    event.payload = obj(vec![("tool_input", obj(vec![("command", text("ls -l"))]))]);
    assert_eq!(event.tool_input_str("command"), Some("ls -l"));
    let copy = event.clone();
    assert_eq!(copy, event);
}
