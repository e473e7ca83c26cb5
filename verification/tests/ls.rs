use agent_witness::event::{AgentEvent, Attribution, EventKind, Source, CONFIDENCE_CERTAIN};
use agent_witness::json::{set_member, Json};
use agent_witness::liveness::DEFAULT_LIVE_WINDOW_MS;
use agent_witness::ls::{
    collect_rows, only_live, render_default, render_live_table, render_table, LsRow,
};
use agent_witness::selector::RecordedSession;

/// An object with these members.
fn obj(members: Vec<(&str, Json)>) -> Json {
    let mut all = Vec::new();
    for (name, value) in members {
        set_member(&mut all, name, value);
    }
    Json::Object(all)
}

fn text(value: &str) -> Json {
    Json::Str(value.to_string())
}

fn recorded(id: &str, created: i64, events: Vec<AgentEvent>) -> RecordedSession {
    RecordedSession {
        id: id.to_string(),
        created_ts: Some(created),
        events,
        skipped_lines: 0,
    }
}

const NOW: i64 = 1_700_000_100_000;
const CREATED: i64 = 1_700_000_000_000;

fn row(id: &str, live: bool) -> LsRow {
    LsRow {
        session_id: id.into(),
        live,
        started_ms: Some(CREATED),
        events: 3,
        tools: 1,
        duration_ms: Some(142),
        corrupt: 0,
    }
}

fn event(ts: i64, kind: EventKind) -> AgentEvent {
    AgentEvent::new(
        ts,
        "s",
        Source::Hooks,
        kind,
        Attribution::Direct,
        CONFIDENCE_CERTAIN,
        obj(vec![("tool_name", text("Read"))]),
    )
}

#[test]
fn empty_rows_render_a_friendly_hint() {
    let table = render_table(&[]);
    assert!(table.contains("No sessions recorded yet"));
}

#[test]
fn table_has_state_column_with_live_and_idle() {
    let rows = vec![row("sess-a", true), row("sess-b", false)];
    let table = render_table(&rows);
    let lines: Vec<&str> = table.lines().collect();
    assert_eq!(lines.len(), 3); // header + 2 rows
    assert!(lines[0].starts_with("SESSION"));
    assert!(lines[0].contains("STATE"));
    assert!(lines[0].contains("CORRUPT"));
    assert!(lines[1].contains("sess-a"));
    assert!(lines[1].contains("live"));
    assert!(lines[1].contains("2023-11-14 22:13:20Z"));
    assert!(lines[2].contains("sess-b"));
    assert!(lines[2].contains("idle"));
    // Corrupt count is still the last column.
    assert!(lines[2].trim_end().ends_with('0'));
}

#[test]
fn live_view_empty_state_is_honest_about_recorded_sessions() {
    // 3 recorded, none live: must NOT claim nothing was ever recorded.
    let out = render_live_table(&[], 3);
    assert!(out.contains("No live sessions right now (3 recorded)"));
    assert!(!out.contains("agent-witness init"));
    // Truly nothing recorded: the init hint is correct.
    let out = render_live_table(&[], 0);
    assert!(out.contains("No sessions recorded yet"));
}

#[test]
fn live_view_renders_rows_like_the_plain_table() {
    let rows = vec![row("live-1", true)];
    assert_eq!(render_live_table(&rows, 5), render_table(&rows));
}

#[test]
fn only_live_keeps_running_sessions() {
    let rows = vec![
        row("live-1", true),
        row("idle-1", false),
        row("live-2", true),
    ];
    let live = only_live(rows);
    assert_eq!(live.len(), 2);
    assert!(live.iter().all(|r| r.live));
}

#[test]
fn collect_rows_marks_live_and_stopped_sessions() {
    // Live: started, recent, no stop.
    let live = recorded(
        "live-sess",
        CREATED,
        vec![
            event(NOW - 1_000, EventKind::SessionStart),
            event(NOW - 500, EventKind::ToolCall),
        ],
    );
    // Stopped: started, recent, but has a Stop.
    let stopped = recorded(
        "stopped-sess",
        CREATED,
        vec![
            event(NOW - 1_000, EventKind::SessionStart),
            event(NOW - 500, EventKind::Stop),
        ],
    );
    // Stale: started, no stop, but last activity is beyond the window.
    let stale = recorded(
        "stale-sess",
        CREATED,
        vec![event(NOW - DEFAULT_LIVE_WINDOW_MS - 10, EventKind::SessionStart)],
    );

    let rows = collect_rows(&[live, stale, stopped], NOW, DEFAULT_LIVE_WINDOW_MS);
    let live_of = |id: &str| rows.iter().find(|r| r.session_id == id).unwrap().live;
    assert!(live_of("live-sess"));
    assert!(!live_of("stopped-sess"));
    assert!(!live_of("stale-sess"));

    assert_eq!(only_live(rows).len(), 1);
}

#[test]
fn collect_rows_orders_most_recent_first_then_by_id() {
    // Out of order; `created_ts` sets the start. Two share a start to exercise the
    // id tie-break.
    let sessions: Vec<RecordedSession> = [
        ("bbb", CREATED + 2_000),
        ("aaa", CREATED + 1_000),
        ("ccc", CREATED + 3_000),
        ("dup2", CREATED + 5_000),
        ("dup1", CREATED + 5_000),
    ]
    .into_iter()
    .map(|(id, created)| recorded(id, created, vec![event(created, EventKind::SessionStart)]))
    .collect();

    let rows = collect_rows(&sessions, NOW, DEFAULT_LIVE_WINDOW_MS);
    let ids: Vec<&str> = rows.iter().map(|r| r.session_id.as_str()).collect();
    // Newest start first; equal starts break by id ascending.
    assert_eq!(ids, vec!["dup1", "dup2", "ccc", "bbb", "aaa"]);
}

#[test]
fn rows_tell_what_was_recorded() {
    let mut session = recorded(
        "s",
        CREATED,
        vec![
            event(CREATED + 10, EventKind::SessionStart),
            event(CREATED + 20, EventKind::ToolCall),
            event(CREATED + 152, EventKind::Stop),
        ],
    );
    session.skipped_lines = 2;
    let rows = collect_rows(&[session], NOW, DEFAULT_LIVE_WINDOW_MS);
    assert_eq!(
        rows,
        vec![LsRow {
            session_id: "s".to_string(),
            live: false,
            started_ms: Some(CREATED),
            events: 3,
            tools: 1,
            duration_ms: Some(142),
            corrupt: 2,
        }]
    );
}

/// A row with no tool activity (the empty-stub shape hidden by default).
fn empty_row(id: &str) -> LsRow {
    LsRow {
        tools: 0,
        events: 1,
        ..row(id, false)
    }
}

#[test]
fn render_default_hides_empty_sessions_and_discloses_count() {
    let rows = vec![
        row("active-a", false),
        empty_row("empty-a"),
        empty_row("empty-b"),
    ];
    let out = render_default(&rows, false);
    assert!(out.contains("active-a"));
    assert!(!out.contains("empty-a"));
    assert!(!out.contains("empty-b"));
    // The hidden count is disclosed, never silent.
    assert!(out.contains("2 session(s) with no tool activity hidden"));
    assert!(out.contains("--all"));
}

#[test]
fn render_default_all_shows_every_session_without_footer() {
    let rows = vec![row("active-a", false), empty_row("empty-a")];
    let out = render_default(&rows, true);
    assert!(out.contains("active-a"));
    assert!(out.contains("empty-a"));
    assert!(!out.contains("hidden"));
}

#[test]
fn render_default_all_empty_states_it_without_the_init_hint() {
    let rows = vec![empty_row("empty-a"), empty_row("empty-b")];
    let out = render_default(&rows, false);
    assert!(out.contains("No sessions with tool activity"));
    assert!(out.contains("2 recorded with none"));
    // There ARE sessions, so the `init` hint would be false.
    assert!(!out.contains("agent-witness init"));
}
