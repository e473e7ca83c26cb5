use agent_witness::event::{AgentEvent, Attribution, EventKind, Source};
use agent_witness::json::Json;
use agent_witness::rfc3339::epoch_ms_from_rfc3339;
use agent_witness::transcript::{
    parse_line, parse_transcript, LineOutcome, TranscriptStats, ADAPTER_VERSION,
};

fn at<'a>(value: &'a Json, name: &str) -> &'a str {
    value.get(name).unwrap().as_str().unwrap()
}

const FALLBACK: i64 = 1_700_000_000_000;

#[test]
fn empty_input_yields_no_events_and_zero_stats() {
    let read = parse_transcript("", "s", FALLBACK);
    assert!(read.events.is_empty());
    assert_eq!(read.stats, TranscriptStats {
            total_lines: 0,
            events_extracted: 0,
            skipped_unparseable: 0,
            skipped_unrecognized: 0,
        });
}

#[test]
fn blank_lines_are_ignored_not_counted() {
    let read = parse_transcript("\n   \n\n", "s", FALLBACK);
    assert_eq!(read.stats.total_lines, 0);
}

#[test]
fn mixed_known_unknown_and_broken_lines_are_all_accounted_for() {
    let content = [
        r#"{"type":"assistant","uuid":"a","timestamp":"2026-07-02T02:36:29.167Z","message":{"content":[{"type":"text","text":"hi"}]}}"#,
        "\n",
        r#"{"type":"user","message":{"content":"prompt"}}"#, // unrecognized
        "\n",
        "{ broken json", // unparseable
        "\n",
        r#"{"type":"assistant","message":{"content":[{"type":"tool_use","name":"Bash"}]}}"#, // unrecognized (tool-only)
        "\n",
        r#"{"type":"assistant","uuid":"b","message":{"content":[{"type":"text","text":"done"}]}}"#,
    ]
    .concat();
    let read = parse_transcript(&content, "s", FALLBACK);

    assert_eq!(read.stats.total_lines, 5);
    assert_eq!(read.stats.events_extracted, 2);
    assert_eq!(read.stats.skipped_unparseable, 1);
    assert_eq!(read.stats.skipped_unrecognized, 2);
    // Invariant: nothing is silently lost.
    assert_eq!(
        read.stats.total_lines,
        read.stats.events_extracted
            + read.stats.skipped_unparseable
            + read.stats.skipped_unrecognized
    );
    assert_eq!(read.events.len(), 2);
    for ev in &read.events {
        assert_eq!(ev.kind, EventKind::Prompt);
        assert_eq!(ev.source, Source::Transcript);
        assert_eq!(ev.attribution, Attribution::Observed);
    }
    assert_eq!(at(&read.events[0].payload, "text"), "hi");
    assert_eq!(at(&read.events[1].payload, "text"), "done");
}

#[test]
fn a_single_broken_line_does_not_abort_the_read() {
    let read = parse_transcript("{bad\n{also bad", "s", FALLBACK);
    assert_eq!(read.stats.total_lines, 2);
    assert_eq!(read.stats.skipped_unparseable, 2);
    assert!(read.events.is_empty());
}

fn as_event(line: &str) -> AgentEvent {
    match parse_line(line, "sess-1", FALLBACK) {
        LineOutcome::Event(e) => e,
        LineOutcome::Unrecognized => panic!("expected event, got unrecognized"),
        LineOutcome::Unparseable => panic!("expected event, got unparseable"),
    }
}

#[test]
fn extracts_assistant_text_as_observed_transcript_event() {
    let line = r#"{"type":"assistant","uuid":"u-9","timestamp":"2026-07-02T02:36:29.167Z",
        "message":{"role":"assistant","content":[{"type":"text","text":"planning next"}]}}"#;
    let ev = as_event(line);
    assert_eq!(ev.kind, EventKind::Prompt);
    assert_eq!(ev.source, Source::Transcript);
    assert_eq!(ev.attribution, Attribution::Observed);
    assert_eq!(ev.ts, 1_782_959_789_167); // from the transcript timestamp
    assert_eq!(at(&ev.payload, "role"), "assistant");
    assert_eq!(at(&ev.payload, "text"), "planning next");
    assert_eq!(
        ev.payload.get("adapter_version").unwrap().as_u64(),
        Some(ADAPTER_VERSION as u64)
    );
    assert_eq!(ev.raw_event_ref.as_deref(), Some("transcript:u-9"));
}

#[test]
fn joins_multiple_text_blocks() {
    let line = r#"{"type":"assistant","uuid":"u","timestamp":"bad",
        "message":{"content":[{"type":"text","text":"a"},{"type":"text","text":"b"}]}}"#;
    let ev = as_event(line);
    assert_eq!(at(&ev.payload, "text"), "a\nb");
    // Unparseable timestamp -> fallback.
    assert_eq!(ev.ts, FALLBACK);
}

#[test]
fn tool_only_assistant_turn_is_unrecognized() {
    // Tool calls arrive as canonical Direct hook events; do not duplicate.
    let line = r#"{"type":"assistant","uuid":"u",
        "message":{"content":[{"type":"tool_use","name":"Bash","input":{}}]}}"#;
    assert!(matches!(
        parse_line(line, "s", FALLBACK),
        LineOutcome::Unrecognized
    ));
}

#[test]
fn non_assistant_types_are_unrecognized() {
    for line in [
        r#"{"type":"user","message":{"content":"hi"}}"#,
        r#"{"type":"queue-operation","operation":"enqueue"}"#,
        r#"{"type":"last-prompt","lastPrompt":"x"}"#,
        r#"{"no_type":true}"#,
        r#"[1,2,3]"#,
    ] {
        assert!(
            matches!(parse_line(line, "s", FALLBACK), LineOutcome::Unrecognized),
            "expected unrecognized for {line}"
        );
    }
}

#[test]
fn invalid_json_is_unparseable() {
    assert!(matches!(
        parse_line("{ not json", "s", FALLBACK),
        LineOutcome::Unparseable
    ));
}

#[test]
fn rfc3339_parses_known_instants() {
    assert_eq!(epoch_ms_from_rfc3339("1970-01-01T00:00:00Z"), Some(0));
    assert_eq!(
        epoch_ms_from_rfc3339("2000-01-01T00:00:00.000Z"),
        Some(946_684_800_000)
    );
    assert_eq!(
        epoch_ms_from_rfc3339("2026-07-02T02:36:29.167Z"),
        Some(1_782_959_789_167)
    );
    // Leap day, single fractional digit (.5 == 500ms).
    assert_eq!(
        epoch_ms_from_rfc3339("2024-02-29T12:00:00.5Z"),
        Some(1_709_208_000_500)
    );
}

#[test]
fn rfc3339_applies_explicit_offset() {
    // +02:00 is two hours ahead of UTC, so the epoch is two hours earlier.
    assert_eq!(
        epoch_ms_from_rfc3339("2026-07-02T00:00:00+02:00"),
        Some(1_782_943_200_000)
    );
    assert_eq!(
        epoch_ms_from_rfc3339("2026-07-02T00:00:00+0200"),
        Some(1_782_943_200_000)
    );
}

#[test]
fn rfc3339_rejects_garbage() {
    for bad in ["", "not-a-date", "2026/07/02 x", "2026-13-01T00:00:00Z"] {
        assert_eq!(epoch_ms_from_rfc3339(bad), None, "should reject {bad}");
    }
}
