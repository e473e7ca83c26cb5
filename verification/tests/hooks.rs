use agent_witness::event::{Attribution, EventKind, Source, CONFIDENCE_CERTAIN};
use agent_witness::hooks::{
    error_event, hook_event_name_of, normalize, session_id_of, transcript_path_of, NormalizeError,
    FIELD_HOOK_EVENT_NAME, FIELD_SESSION_ID, UNKNOWN_SESSION,
};
use agent_witness::json::Json;

fn at<'a>(value: &'a Json, name: &str) -> &'a str {
    value.get(name).unwrap().as_str().unwrap()
}

const TS: i64 = 1_700_000_000_000;

fn parse(line: &str) -> Json {
    agent_witness::outside::parse(line).expect("valid json")
}

#[test]
fn pre_tool_use_maps_to_tool_call_with_direct_attribution() {
    let hook = parse(
        r#"{"hook_event_name":"PreToolUse","session_id":"s1","cwd":"/p",
            "tool_name":"Bash","tool_use_id":"t1","tool_input":{"command":"ls"}}"#,
    );
    let ev = normalize(&hook, TS, "raw-0").unwrap();
    assert_eq!(ev.kind, EventKind::ToolCall);
    assert_eq!(ev.attribution, Attribution::Direct);
    assert_eq!(ev.confidence, CONFIDENCE_CERTAIN);
    assert_eq!(ev.source, Source::Hooks);
    assert_eq!(ev.session, "s1");
    assert_eq!(ev.raw_event_ref.as_deref(), Some("raw-0"));
    assert_eq!(at(&ev.payload, "tool_name"), "Bash");
    assert_eq!(at(&ev.payload, "tool_use_id"), "t1");
    assert_eq!(at(ev.payload.get("tool_input").unwrap(), "command"), "ls");
    assert_eq!(at(&ev.payload, "hook_event_name"), "PreToolUse");
}

#[test]
fn post_tool_use_maps_to_tool_result() {
    let hook = parse(
        r#"{"hook_event_name":"PostToolUse","session_id":"s1","cwd":"/p",
            "tool_name":"Bash","tool_use_id":"t1","duration_ms":12,
            "tool_response":{"stdout":"ok"}}"#,
    );
    let ev = normalize(&hook, TS, "raw-1").unwrap();
    assert_eq!(ev.kind, EventKind::ToolResult);
    assert_eq!(ev.payload.get("duration_ms"), Some(&Json::Uint(12)));
    assert_eq!(at(ev.payload.get("tool_response").unwrap(), "stdout"), "ok");
}

#[test]
fn known_hook_events_map_to_expected_kinds() {
    let cases = [
        (
            r#"{"hook_event_name":"SessionStart","session_id":"s","source":"startup"}"#,
            EventKind::SessionStart,
        ),
        (
            r#"{"hook_event_name":"UserPromptSubmit","session_id":"s","prompt":"hi"}"#,
            EventKind::Prompt,
        ),
        (
            r#"{"hook_event_name":"Stop","session_id":"s","stop_hook_active":false}"#,
            EventKind::Stop,
        ),
        (
            r#"{"hook_event_name":"PostToolUseFailure","session_id":"s","tool_use_id":"t"}"#,
            EventKind::ToolFailure,
        ),
    ];
    for (line, expected) in cases {
        let ev = normalize(&parse(line), TS, "r").unwrap();
        assert_eq!(ev.kind, expected, "for {line}");
    }
}

#[test]
fn missing_session_id_is_missing_field_error() {
    let hook = parse(r#"{"hook_event_name":"Stop"}"#);
    assert_eq!(
        normalize(&hook, TS, "r"),
        Err(NormalizeError::MissingField(FIELD_SESSION_ID))
    );
}

#[test]
fn missing_hook_event_name_is_missing_field_error() {
    let hook = parse(r#"{"session_id":"s"}"#);
    assert_eq!(
        normalize(&hook, TS, "r"),
        Err(NormalizeError::MissingField(FIELD_HOOK_EVENT_NAME))
    );
}

#[test]
fn unmapped_hook_event_is_reported() {
    let hook = parse(r#"{"hook_event_name":"Notification","session_id":"s"}"#);
    assert_eq!(
        normalize(&hook, TS, "r"),
        Err(NormalizeError::UnmappedHookEvent(
            "Notification".to_string()
        ))
    );
}

#[test]
fn non_object_payload_is_rejected() {
    assert_eq!(
        normalize(&Json::Array(vec![Json::Uint(1), Json::Uint(2)]), TS, "r"),
        Err(NormalizeError::NotAnObject)
    );
}

#[test]
fn error_event_is_direct_and_carries_raw_ref() {
    let ev = error_event(UNKNOWN_SESSION, TS, "raw-9", &NormalizeError::NotAnObject);
    assert_eq!(ev.kind, EventKind::Error);
    assert_eq!(ev.attribution, Attribution::Direct);
    assert_eq!(ev.session, UNKNOWN_SESSION);
    assert_eq!(ev.raw_event_ref.as_deref(), Some("raw-9"));
    assert!(ev.payload.get("error").unwrap().as_str().is_some());
}

#[test]
fn session_end_maps_to_its_own_kind() {
    let hook = parse(r#"{"hook_event_name":"SessionEnd","session_id":"s","reason":"logout"}"#);
    let ev = normalize(&hook, TS, "r").unwrap();
    assert_eq!(ev.kind, EventKind::SessionEnd);
    assert_eq!(at(&ev.payload, "reason"), "logout");
}

#[test]
fn fields_of_no_interest_are_left_out() {
    let hook = parse(
        r#"{"hook_event_name":"UserPromptSubmit","session_id":"s","prompt":"hi","other":1}"#,
    );
    let ev = normalize(&hook, TS, "r").unwrap();
    assert_eq!(at(&ev.payload, "prompt"), "hi");
    assert!(ev.payload.get("other").is_none());
}

#[test]
fn normalize_errors_say_what_is_wrong() {
    let errors = [
        NormalizeError::NotAnObject,
        NormalizeError::MissingField(FIELD_SESSION_ID),
        NormalizeError::UnmappedHookEvent("Notification".to_string()),
        NormalizeError::MalformedJson("eof".to_string()),
        NormalizeError::InvalidSessionId("../x".to_string()),
    ];
    let messages: Vec<String> = errors.iter().map(|e| e.message()).collect();
    assert!(messages[1].contains("session_id"));
    assert!(messages[2].contains("Notification"));
    assert!(messages[3].contains("eof"));
    assert!(messages[4].contains("../x"));
    for (i, a) in messages.iter().enumerate() {
        for b in &messages[i + 1..] {
            assert_ne!(a, b);
        }
    }
}

#[test]
fn lookups_want_text() {
    let hook = parse(r#"{"session_id":"s","hook_event_name":7,"transcript_path":"/t"}"#);
    assert_eq!(session_id_of(&hook), Some("s"));
    assert_eq!(hook_event_name_of(&hook), None);
    assert_eq!(transcript_path_of(&hook), Some("/t"));
}
