use std::collections::HashMap;

use agent_witness::event::{AgentEvent, Attribution, EventKind, Source, SCHEMA_VERSION};
use agent_witness::hooks::UNKNOWN_SESSION;
use agent_witness::receiver::{
    prepare, seed_from_disk, transcript_note, transcript_request, Ingested, Prepared, Receiver,
    TranscriptIngested,
};
use agent_witness::store::{RawRecord, SessionStore, StoreError};
use agent_witness::usage::UsageSourceStatus;

const TS: i64 = 1_700_000_000_000;

/// The files of the sessions, in memory.
#[derive(Default)]
struct Disk {
    raw: HashMap<String, Vec<RawRecord>>,
    events: HashMap<String, Vec<AgentEvent>>,
}

impl Disk {
    fn raw(&self, session: &str) -> Vec<RawRecord> {
        self.raw.get(session).cloned().unwrap_or_default()
    }

    fn events(&self, session: &str) -> Vec<AgentEvent> {
        self.events.get(session).cloned().unwrap_or_default()
    }

    fn ingest(&mut self, rx: &mut Receiver, payload: &str) -> Ingested {
        let session = session_of(payload);
        let out = rx.ingest(payload, TS, &self.raw(&session));
        assert_eq!(out.session, session);
        self.raw.entry(session.clone()).or_default().push(out.record.clone());
        self.events.entry(session).or_default().push(out.event.clone());
        out
    }

    fn ingest_transcript(
        &mut self,
        rx: &Receiver,
        session: &str,
        content: &str,
    ) -> Result<TranscriptIngested, StoreError> {
        let out = rx.ingest_transcript(session, content, TS, &self.events(session))?;
        self.events.entry(session.to_string()).or_default().extend(out.events.clone());
        Ok(out)
    }
}

/// The session that a payload is stored under.
fn session_of(payload: &str) -> String {
    match prepare(payload) {
        Prepared::Normalize { session, .. } => session,
        Prepared::Error { session, .. } => session,
    }
}

fn receiver() -> (Disk, Receiver) {
    (Disk::default(), Receiver::new(SessionStore::new("/sessions")))
}

const STOP: &str = r#"{"hook_event_name":"Stop","session_id":"s1","stop_hook_active":false}"#;

#[test]
fn ingest_pre_tool_use_writes_paired_raw_and_event() {
    let (mut disk, mut rx) = receiver();
    let line = r#"{"hook_event_name":"PreToolUse","session_id":"s1","cwd":"/p","tool_name":"Bash","tool_use_id":"t1","tool_input":{"command":"ls"}}"#;

    let out = disk.ingest(&mut rx, line);
    assert_eq!(out.session, "s1");
    assert_eq!(out.raw_ref, "raw-0");
    assert_eq!(out.kind, EventKind::ToolCall);

    let events = disk.events("s1");
    assert_eq!(events.len(), 1);
    assert_eq!(events[0].raw_event_ref.as_deref(), Some("raw-0"));
    assert_eq!(events[0].attribution, Attribution::Direct);

    let raw = disk.raw("s1");
    assert_eq!(raw.len(), 1);
    assert_eq!(raw[0].raw, line); // verbatim
    assert_eq!(raw[0].raw_ref, "raw-0");
}

#[test]
fn raw_refs_are_monotonic_per_session() {
    let (mut disk, mut rx) = receiver();
    for _ in 0..3 {
        disk.ingest(&mut rx, STOP);
    }
    let refs: Vec<String> = disk.raw("s1").into_iter().map(|r| r.raw_ref).collect();
    assert_eq!(refs, vec!["raw-0", "raw-1", "raw-2"]);
}

#[test]
fn seq_seeds_from_disk_across_receiver_instances() {
    let (mut disk, mut rx) = receiver();
    disk.ingest(&mut rx, STOP);
    // Fresh receiver (simulates a second one-shot `emit` fallback process).
    let mut rx2 = Receiver::new(SessionStore::new("/sessions"));
    let out = disk.ingest(&mut rx2, STOP);
    assert_eq!(out.raw_ref, "raw-1");
}

#[test]
fn seq_seeds_from_max_not_line_count_so_gaps_never_collide() {
    let (mut disk, mut rx) = receiver();
    // Simulate a gap: raw-0 and raw-5 exist (raw-1..4 were consumed but never
    // persisted, e.g. transient write failures).
    let records: Vec<RawRecord> = [0u64, 5]
        .iter()
        .map(|seq| RawRecord {
            v: SCHEMA_VERSION,
            ts: TS,
            session: "s1".to_string(),
            raw_ref: format!("raw-{seq}"),
            raw: "{}".to_string(),
        })
        .collect();
    assert_eq!(seed_from_disk(&records), 6);
    disk.raw.insert("s1".to_string(), records);

    let out = disk.ingest(&mut rx, STOP);
    // Line count is 2, but max seq is 5 — the next ref must be raw-6.
    assert_eq!(out.raw_ref, "raw-6");
}

#[test]
fn reset_seq_cache_forces_disk_reseed() {
    let (mut disk, mut rx) = receiver();
    disk.ingest(&mut rx, STOP);
    assert!(rx.knows("s1"));
    rx.reset_seq_cache();
    assert!(!rx.knows("s1"));
    // Re-seeded from disk (max=0), so the next ref continues correctly.
    let out = disk.ingest(&mut rx, STOP);
    assert_eq!(out.raw_ref, "raw-1");
}

#[test]
fn malformed_json_is_recorded_as_error_event_not_a_failure() {
    let (mut disk, mut rx) = receiver();
    let out = disk.ingest(&mut rx, "{ not json");
    assert_eq!(out.session, UNKNOWN_SESSION);
    assert_eq!(out.kind, EventKind::Error);

    let events = disk.events(UNKNOWN_SESSION);
    assert_eq!(events.len(), 1);
    assert_eq!(events[0].kind, EventKind::Error);
    // The raw bytes are still preserved verbatim.
    assert_eq!(disk.raw(UNKNOWN_SESSION)[0].raw, "{ not json");
}

#[test]
fn missing_session_id_lands_in_unknown_bucket_as_error() {
    let (mut disk, mut rx) = receiver();
    let out = disk.ingest(&mut rx, r#"{"hook_event_name":"Stop"}"#);
    assert_eq!(out.session, UNKNOWN_SESSION);
    assert_eq!(out.kind, EventKind::Error);
}

const ASSISTANT_LINE_A: &str = r#"{"type":"assistant","uuid":"a","timestamp":"2026-07-02T02:36:29.167Z","message":{"content":[{"type":"text","text":"first"}]}}"#;
const ASSISTANT_LINE_B: &str = r#"{"type":"assistant","uuid":"b","message":{"content":[{"type":"text","text":"second"}]}}"#;

#[test]
fn ingest_transcript_appends_observed_events_without_raw_records() {
    let (mut disk, rx) = receiver();
    let content = format!("{ASSISTANT_LINE_A}\n{ASSISTANT_LINE_B}");
    let out = disk.ingest_transcript(&rx, "s1", &content).unwrap();

    assert_eq!(out.appended, 2);
    assert_eq!(out.skipped_duplicates, 0);
    assert_eq!(out.stats.events_extracted, 2);

    let events = disk.events("s1");
    assert_eq!(events.len(), 2);
    for ev in &events {
        assert_eq!(ev.source, Source::Transcript);
        assert_eq!(ev.attribution, Attribution::Observed);
    }
    // The transcript file is the raw evidence; no raw records are written.
    assert!(disk.raw("s1").is_empty());
}

#[test]
fn ingest_transcript_is_idempotent() {
    let (mut disk, rx) = receiver();
    let content = format!("{ASSISTANT_LINE_A}\n{ASSISTANT_LINE_B}");
    disk.ingest_transcript(&rx, "s1", &content).unwrap();
    let second = disk.ingest_transcript(&rx, "s1", &content).unwrap();

    assert_eq!(second.appended, 0);
    assert_eq!(second.skipped_duplicates, 2);
    // Still only two events after re-ingesting the same transcript.
    assert_eq!(disk.events("s1").len(), 2);
}

#[test]
fn ingest_transcript_coexists_with_hook_events() {
    let (mut disk, mut rx) = receiver();
    disk.ingest(&mut rx, STOP);
    disk.ingest_transcript(&rx, "s1", ASSISTANT_LINE_A).unwrap();

    let events = disk.events("s1");
    assert_eq!(events.len(), 2);
    let sources: Vec<Source> = events.iter().map(|e| e.source).collect();
    assert!(sources.contains(&Source::Hooks));
    assert!(sources.contains(&Source::Transcript));
}

#[test]
fn ingest_transcript_rejects_invalid_session_id() {
    let (mut disk, rx) = receiver();
    let err = disk.ingest_transcript(&rx, "../escape", ASSISTANT_LINE_A).unwrap_err();
    assert_eq!(err, StoreError::InvalidSessionId("../escape".to_string()));
}

#[test]
fn ingest_transcript_with_no_events_writes_nothing() {
    let (mut disk, rx) = receiver();
    let out = disk
        .ingest_transcript(&rx, "s1", "{broken\n{\"type\":\"user\"}")
        .unwrap();
    assert_eq!(out.appended, 0);
    assert_eq!(out.stats.total_lines, 2);
    assert!(disk.events("s1").is_empty());
}

/// A response in three lines that repeat one usage, and one in a single line.
fn split_transcript() -> String {
    let line = |id: &str, usage: &str| {
        format!(
            r#"{{"type":"assistant","message":{{"id":"{id}","model":"fable-5","content":[{{"type":"text","text":"hi"}}],"usage":{usage}}}}}"#
        )
    };
    let first = line(
        "msg_0001",
        r#"{"input_tokens":4116,"output_tokens":263,"cache_creation_input_tokens":4622,"cache_read_input_tokens":15001}"#,
    );
    let second = line(
        "msg_0002",
        r#"{"input_tokens":2,"output_tokens":68,"cache_creation_input_tokens":4571,"cache_read_input_tokens":19623}"#,
    );
    format!("{first}\n{first}\n{first}\n{second}\n")
}

#[test]
fn repeated_usage_lines_count_once_in_the_usage_record() {
    let (mut disk, rx) = receiver();
    let out = disk.ingest_transcript(&rx, "session-basic", &split_transcript()).unwrap();
    let usage = out.usage;

    assert_eq!(usage.source_status, UsageSourceStatus::Okay);
    assert_eq!(usage.attribution, Attribution::Observed);
    assert_eq!(usage.messages_counted, 2);
    assert_eq!(usage.duplicate_usage_lines_deduped, 2);
    assert_eq!(usage.messages_missing_usage, 0);
    assert_eq!(usage.assistant_lines_missing_message_id, 0);

    assert_eq!(usage.per_model.len(), 1);
    let m = &usage.per_model[0];
    assert_eq!(m.model, "fable-5");
    assert_eq!(m.messages, 2);
    assert_eq!(m.input_tokens, 4118);
    assert_eq!(m.output_tokens, 331);
    assert_eq!(m.cache_creation_input_tokens, 9193);
    assert_eq!(m.cache_read_input_tokens, 34624);
}

#[test]
fn the_usage_record_of_a_transcript_stays_the_same() {
    let (mut disk, rx) = receiver();
    let first = disk.ingest_transcript(&rx, "session-basic", &split_transcript()).unwrap();
    let second = disk.ingest_transcript(&rx, "session-basic", &split_transcript()).unwrap();
    assert_eq!(first.usage, second.usage);
}

#[test]
fn ingest_transcript_without_usage_writes_no_usage_parsed_sidecar() {
    let (mut disk, rx) = receiver();
    // A transcript that is read but carries no usable usage still records an honest
    // negative — distinct from the file being absent ("not read").
    let out = disk
        .ingest_transcript(&rx, "s1", "{broken\n{\"type\":\"user\"}")
        .unwrap();
    assert_eq!(out.usage.source_status, UsageSourceStatus::NoUsageParsed);
    assert_eq!(out.usage.messages_counted, 0);
    assert!(out.usage.per_model.is_empty());
}

#[test]
fn path_traversal_session_id_is_quarantined_not_stored_raw() {
    let (mut disk, mut rx) = receiver();
    let out = disk.ingest(
        &mut rx,
        r#"{"hook_event_name":"Stop","session_id":"../escape","stop_hook_active":false}"#,
    );
    assert_eq!(out.session, UNKNOWN_SESSION);
    assert_eq!(out.kind, EventKind::Error);
}

#[test]
fn a_transcript_is_looked_into_at_the_end_of_a_turn() {
    let stop =
        r#"{"hook_event_name":"Stop","session_id":"s1","transcript_path":"/t/s1.jsonl"}"#;
    assert_eq!(
        transcript_request(stop, true),
        Some(("s1".to_string(), "/t/s1.jsonl".to_string()))
    );
    assert_eq!(transcript_request(stop, false), None);
    assert_eq!(transcript_request(STOP, true), None);
    let call =
        r#"{"hook_event_name":"PreToolUse","session_id":"s1","transcript_path":"/t/s1.jsonl"}"#;
    assert_eq!(transcript_request(call, true), None);
    assert_eq!(transcript_request("{ not json", true), None);
}

#[test]
fn the_note_on_a_transcript_counts_what_was_skipped() {
    let (mut disk, rx) = receiver();
    let content = format!("{ASSISTANT_LINE_A}\n{{broken\n{{\"type\":\"user\"}}");
    let out = disk.ingest_transcript(&rx, "s1", &content).unwrap();
    assert_eq!(
        transcript_note(&out).as_deref(),
        Some("agent-witness: transcript s1: +1 event(s) (unparseable 1, unrecognized 1, duplicate 0)")
    );
    let again = disk.ingest_transcript(&rx, "s1", ASSISTANT_LINE_A).unwrap();
    assert_eq!(transcript_note(&again), None);
}
