use agent_witness::event::{
    AgentEvent, Attribution, EventKind, Source, CONFIDENCE_CERTAIN, SCHEMA_VERSION,
};
use agent_witness::json::{set_member, Json};
use agent_witness::store::{
    collect_records, frame, is_valid_session_id, raw_line, read_raw_line, record_lines, RawRecord, SessionMeta, SessionStore,
    StoreError,
};

const CREATED_TS: i64 = 1_700_000_000_000;

fn store() -> SessionStore {
    SessionStore::new("/sessions")
}

fn event(session: &str, ts: i64, kind: EventKind) -> AgentEvent {
    let mut payload = Vec::new();
    set_member(&mut payload, "tool_name", Json::Str("Read".to_string()));
    AgentEvent::new(
        ts,
        session,
        Source::Hooks,
        kind,
        Attribution::Direct,
        CONFIDENCE_CERTAIN,
        Json::Object(payload),
    )
}

/// Reads a file in which the record `n` of `known` is written as the number `n`.
fn decoded<T: Clone>(content: &str, known: &[T]) -> Vec<Option<T>> {
    record_lines(content)
        .iter()
        .map(|line| line.parse::<usize>().ok().map(|n| known[n].clone()))
        .collect()
}

#[test]
fn open_creates_session_dir_and_meta() {
    let opening = store().open("sess-a", CREATED_TS).unwrap();
    assert_eq!(opening.dir, "/sessions/sess-a");
    assert_eq!(opening.meta_path, "/sessions/sess-a/meta.json");
    assert_eq!(opening.events_path, "/sessions/sess-a/events.jsonl");
    assert_eq!(opening.raw_path, "/sessions/sess-a/raw.jsonl");
    assert_eq!(
        opening.meta,
        SessionMeta {
            v: SCHEMA_VERSION,
            session_id: "sess-a".to_string(),
            created_ts: CREATED_TS,
        }
    );
}

#[test]
fn append_then_read_returns_events_in_order() {
    let known = vec![
        event("sess-b", 1, EventKind::SessionStart),
        event("sess-b", 2, EventKind::ToolCall),
    ];
    let content = frame("0") + &frame("1");
    let read = store().read("sess-b", decoded(&content, &known)).unwrap();
    assert_eq!(read.skipped_lines, 0);
    assert_eq!(read.events, known);
}

#[test]
fn read_skips_corrupted_line_without_losing_subsequent_events() {
    let known = vec![
        event("sess-c", 1, EventKind::Prompt),
        event("sess-c", 2, EventKind::Stop),
    ];
    let content = frame("0") + "{ this is not valid json\n" + &frame("1");
    let read = store().read("sess-c", decoded(&content, &known)).unwrap();
    assert_eq!(read.skipped_lines, 1);
    assert_eq!(read.events, known);
}

#[test]
fn read_ignores_blank_lines() {
    let known = vec![event("sess-d", 1, EventKind::ToolCall)];
    let content = frame("0") + "\n   \n";
    let read = store().read("sess-d", decoded(&content, &known)).unwrap();
    assert_eq!(read.skipped_lines, 0);
    assert_eq!(read.events, known);
}

#[test]
fn read_missing_session_returns_empty() {
    let read = store().read("nonexistent", vec![]).unwrap();
    assert!(read.events.is_empty());
    assert_eq!(read.skipped_lines, 0);
}

#[test]
fn rejects_path_traversal_session_ids() {
    for bad in ["../escape", "a/b", "..", ".", "", "/abs", "nested/../x"] {
        let err = store().open(bad, CREATED_TS).unwrap_err();
        assert_eq!(err, StoreError::InvalidSessionId(bad.to_string()));
        assert!(!is_valid_session_id(bad));
        assert!(store().read(bad, vec![]).is_err());
        assert!(store().read_raw(bad, "").is_err());
        assert!(store().session_file(bad, "meta.json").is_err());
    }
}

#[test]
fn accepts_uuid_like_session_ids() {
    assert!(store()
        .open("9f8c1e2a-3b4d-4e5f-8a9b-0c1d2e3f4a5b", CREATED_TS)
        .is_ok());
}

fn raw(session: &str, payload: &str) -> RawRecord {
    RawRecord {
        v: SCHEMA_VERSION,
        ts: CREATED_TS,
        session: session.to_string(),
        raw_ref: "raw-0".to_string(),
        raw: payload.to_string(),
    }
}

#[test]
fn append_raw_then_read_raw_round_trips_verbatim() {
    // A payload with embedded newlines must survive as one JSONL line.
    let rec = raw("sess-raw", "{\"a\":1,\n\"b\":\"x\\ny\"}");
    let content = raw_line(&rec);
    assert_eq!(content.lines().count(), 1);
    let back = store().read_raw("sess-raw", &content).unwrap();
    assert_eq!(back.skipped_lines, 0);
    assert_eq!(back.records, vec![rec]);
}

#[test]
fn read_raw_is_empty_for_new_session() {
    let read = store().read_raw("nope", "").unwrap();
    assert!(read.records.is_empty());
    assert_eq!(read.skipped_lines, 0);
}

#[test]
fn read_raw_counts_corrupted_lines_instead_of_hiding_them() {
    let rec = raw("sess-raw-bad", "{}");
    let content = raw_line(&rec) + "not a raw record\n";
    let read = store().read_raw("sess-raw-bad", &content).unwrap();
    assert_eq!(read.records, vec![rec]);
    assert_eq!(read.skipped_lines, 1);
}

#[test]
fn usage_read_write_reject_invalid_session_ids() {
    assert!(store().session_file("../escape", "usage.json").is_err());
    assert_eq!(
        store().session_file("s", "usage.json").unwrap(),
        "/sessions/s/usage.json"
    );
}

#[test]
fn list_sessions_is_empty_before_any_recording() {
    assert!(store().list_sessions(vec![]).is_empty());
}

#[test]
fn list_sessions_returns_opened_sessions_sorted() {
    let names = vec!["sess-c".to_string(), "sess-a".to_string(), "sess-b".to_string()];
    assert_eq!(
        store().list_sessions(names),
        vec!["sess-a", "sess-b", "sess-c"]
    );
}

#[test]
fn records_are_framed_by_line_feeds() {
    assert_eq!(frame("{}"), "{}\n");
    assert_eq!(record_lines("a\r\nb"), vec!["a", "b"]);
    let (read, skipped) = collect_records(vec![Some(1), None, Some(2)]);
    assert_eq!(read, vec![1, 2]);
    assert_eq!(skipped, 1);
}

#[test]
fn a_raw_record_is_written_field_by_field() {
    assert_eq!(
        raw_line(&raw("s", "a\n\"b\"\r\u{1}é")),
        "{\"v\":1,\"ts\":1700000000000,\"session\":\"s\",\"raw_ref\":\"raw-0\",\
         \"raw\":\"a\\n\\\"b\\\"\\r\\u0001é\"}\n"
    );
}

#[test]
fn raw_records_put_behind_others_are_read_back_in_order() {
    let old = raw("s", "first");
    let mut content = raw_line(&old) + "broken\n\n{\"v\":1}\r\n";
    let before = store().read_raw("s", &content).unwrap();
    assert_eq!(before.records, vec![old.clone()]);
    assert_eq!(before.skipped_lines, 2);
    let new: Vec<RawRecord> =
        ["\n", "", "{\"a\":\r\n 1}", "first"].iter().map(|p| raw("s", p)).collect();
    for record in &new {
        content += &raw_line(record);
    }
    let after = store().read_raw("s", &content).unwrap();
    assert_eq!(after.skipped_lines, 2);
    assert_eq!(after.records[0], old);
    assert_eq!(after.records[1..], new);
}

#[test]
fn raw_lines_are_read_by_their_fields() {
    let rec = RawRecord {
        v: 2,
        ts: -5,
        session: "s".to_string(),
        raw_ref: "r".to_string(),
        raw: "x".to_string(),
    };
    let deep = "[".repeat(500) + &"]".repeat(500);
    let lone = "\\ud800";
    for line in [
        r#"{"v":2,"ts":-5,"session":"s","raw_ref":"r","raw":"x"}"#.to_string(),
        " { \"raw\" : \"x\" , \"raw_ref\":\"r\",\t\"session\":\"s\",\"ts\":-5,\"v\":2 } \r"
            .to_string(),
        r#"[2,-5,"s","r","x"]"#.to_string(),
        format!(
            r#"{{"more":{deep},"v":2,"ts":-5,"big":1e999,"big":"{lone}","session":"s","raw_ref":"r","raw":"\u0078"}}"#
        ),
    ] {
        assert_eq!(read_raw_line(&line).as_ref(), Some(&rec), "{line}");
    }
    for line in [
        "",
        "null",
        "{}",
        r#"{"v":2,"ts":-5,"session":"s","raw_ref":"r"}"#,
        r#"{"v":2,"ts":-5,"session":"s","raw_ref":"r","raw":"x","raw":"x"}"#,
        r#"{"v":2,"ts":-5,"session":"s","raw_ref":"r","raw":"x","v":2}"#,
        r#"{"v":2.0,"ts":-5,"session":"s","raw_ref":"r","raw":"x"}"#,
        r#"{"v":4294967296,"ts":-5,"session":"s","raw_ref":"r","raw":"x"}"#,
        r#"{"v":2,"ts":9223372036854775808,"session":"s","raw_ref":"r","raw":"x"}"#,
        r#"{"v":2,"ts":-5,"session":null,"raw_ref":"r","raw":"x"}"#,
        r#"{"v":2,"ts":-5,"session":"s","raw_ref":"r","raw":"x",}"#,
        r#"{,"v":2,"ts":-5,"session":"s","raw_ref":"r","raw":"x"}"#,
        r#"{"v":2 "ts":-5,"session":"s","raw_ref":"r","raw":"x"}"#,
        r#"{"v":2,"ts":-5,"session":"s","raw_ref":"r","raw":"x"} 1"#,
        r#"{"v":2,"ts":-5,"session":"s","raw_ref":"r","raw":"x""#,
        r#"{"v":2,"ts":-5,"session":"s","raw_ref":"r","raw":"x","more":}"#,
        r#"{"v":2,"ts":-5,"session":"s","raw_ref":"r","raw":"x","more":1x}"#,
        r#"{"v":2,"ts":-5,"session":"s","raw_ref":"r","raw":"x",more:1}"#,
        r#"[2,-5,"s","r"]"#,
        r#"[2,-5,"s","r","x",1]"#,
    ] {
        assert_eq!(read_raw_line(line), None, "{line}");
    }
}

#[test]
fn session_files_lie_behind_any_root() {
    for (root, path) in [
        ("", "s/raw.jsonl"),
        ("/", "/s/raw.jsonl"),
        ("/a/", "/a/s/raw.jsonl"),
        ("/a", "/a/s/raw.jsonl"),
    ] {
        assert_eq!(SessionStore::new(root).session_file("s", "raw.jsonl").unwrap(), path);
    }
}
