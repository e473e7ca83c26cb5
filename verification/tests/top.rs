use agent_witness::event::{AgentEvent, Attribution, EventKind, Source, CONFIDENCE_CERTAIN};
use agent_witness::json::{set_member, Json};
use agent_witness::keys::Key;
use agent_witness::liveness::DEFAULT_LIVE_WINDOW_MS;
use agent_witness::selector::{summarize, RecordedSession};
use agent_witness::top::{
    collect_top_rows, handle_top_key, top_header, top_outcome, top_row_from, top_row_lines, TopApp,
    TopOutcome, TopRow,
};

/// An object with these members.
fn obj(members: Vec<(&str, Json)>) -> Json {
    let mut all = Vec::new();
    for (name, value) in members {
        set_member(&mut all, name, value);
    }
    Json::Object(all)
}

fn text(value: &str) -> Json {
    Json::Str(value.to_string())
}

fn recorded(id: &str, created: i64, events: Vec<AgentEvent>) -> RecordedSession {
    RecordedSession {
        id: id.to_string(),
        created_ts: Some(created),
        events,
        skipped_lines: 0,
    }
}

const NOW: i64 = 1_700_000_100_000;
const CREATED: i64 = 1_700_000_000_000;

fn ev(ts: i64, kind: EventKind, payload: Json) -> AgentEvent {
    AgentEvent::new(
        ts,
        "s",
        Source::Hooks,
        kind,
        Attribution::Direct,
        CONFIDENCE_CERTAIN,
        payload,
    )
}

fn row(id: &str) -> TopRow {
    TopRow {
        session_id: id.to_string(),
        project: "proj".to_string(),
        running_tool: None,
        last_activity_age_ms: Some(1_000),
        elapsed_ms: Some(60_000),
        events: 3,
    }
}

#[test]
fn top_navigation_clamps_at_both_ends() {
    let mut app = TopApp::new(vec![row("a"), row("b")]);
    handle_top_key(&mut app, Key::Char('k')); // already at top
    assert_eq!(app.selected, 0);
    handle_top_key(&mut app, Key::Char('j'));
    assert_eq!(app.selected, 1);
    handle_top_key(&mut app, Key::Char('j')); // clamp at bottom
    assert_eq!(app.selected, 1);
}

#[test]
fn enter_chooses_the_selected_session_for_drilldown() {
    let mut app = TopApp::new(vec![row("a"), row("b")]);
    handle_top_key(&mut app, Key::Down);
    handle_top_key(&mut app, Key::Enter);
    assert_eq!(app.chosen.as_deref(), Some("b"));
}

#[test]
fn top_quit_leaves_no_choice() {
    let mut app = TopApp::new(vec![row("a")]);
    handle_top_key(&mut app, Key::Char('q'));
    assert!(app.should_quit);
    assert!(app.chosen.is_none());
}

#[test]
fn top_enter_on_empty_list_is_a_no_op() {
    let mut app = TopApp::new(vec![]);
    handle_top_key(&mut app, Key::Enter);
    assert!(app.chosen.is_none());
}

#[test]
fn running_tool_is_the_last_unpaired_call() {
    let events = vec![
        ev(1, EventKind::SessionStart, obj(vec![("cwd", text("/w/proj"))])),
        ev(
            2,
            EventKind::ToolCall,
            obj(vec![("tool_name", text("Read")), ("tool_use_id", text("a"))]),
        ),
        ev(
            3,
            EventKind::ToolResult,
            obj(vec![("tool_name", text("Read")), ("tool_use_id", text("a"))]),
        ),
        ev(
            4,
            EventKind::ToolCall,
            obj(vec![("tool_name", text("Bash")), ("tool_use_id", text("b")), ("tool_input", obj(vec![("command", text("sleep 9"))]))]),
        ),
    ];
    let summary = summarize("s", Some(CREATED), &events);
    let r = top_row_from(&summary, &events, NOW);
    assert_eq!(r.running_tool.as_deref(), Some("Bash"));
    assert_eq!(r.project, "proj");
    assert_eq!(r.events, 4);
}

#[test]
fn project_is_the_cwd_of_the_most_recent_event() {
    // The session starts in A, moves to B, and comes back to A: the project
    // label must be A (where it is now), not B (last first-seen cwd).
    let events = vec![
        ev(1, EventKind::SessionStart, obj(vec![("cwd", text("/w/a"))])),
        ev(
            2,
            EventKind::ToolCall,
            obj(vec![("tool_use_id", text("x")), ("cwd", text("/w/b"))]),
        ),
        ev(
            3,
            EventKind::ToolCall,
            obj(vec![("tool_use_id", text("y")), ("cwd", text("/w/a"))]),
        ),
    ];
    let summary = summarize("s", Some(CREATED), &events);
    let r = top_row_from(&summary, &events, NOW);
    assert_eq!(r.project, "a");
}

#[test]
fn collect_top_rows_returns_only_live_sessions() {
    let live = recorded(
        "live-sess",
        CREATED,
        vec![
            ev(
                NOW - 1_000,
                EventKind::SessionStart,
                obj(vec![("cwd", text("/w/live"))]),
            ),
            ev(
                NOW - 500,
                EventKind::ToolCall,
                obj(vec![("tool_name", text("Bash")), ("tool_use_id", text("x"))]),
            ),
        ],
    );
    let stopped = recorded(
        "stopped-sess",
        CREATED,
        vec![
            ev(
                NOW - 1_000,
                EventKind::SessionStart,
                obj(vec![("cwd", text("/w/stop"))]),
            ),
            ev(NOW - 500, EventKind::Stop, obj(vec![])),
        ],
    );

    let rows = collect_top_rows(&[live, stopped], NOW, DEFAULT_LIVE_WINDOW_MS);
    assert_eq!(rows.len(), 1);
    assert_eq!(rows[0].session_id, "live-sess");
    assert_eq!(rows[0].project, "live");
    assert_eq!(rows[0].running_tool.as_deref(), Some("Bash"));
}

#[test]
fn top_lines_clip_and_align_their_columns() {
    let mut app = TopApp::new(vec![
        TopRow {
            session_id: "agent-witness-with-a-long-id".to_string(),
            project: "agent-witness".to_string(),
            running_tool: Some("Bash".to_string()),
            last_activity_age_ms: Some(2_000),
            elapsed_ms: Some(125_000),
            events: 42,
        },
        TopRow {
            session_id: "idle-thinking".to_string(),
            project: "docs".to_string(),
            running_tool: None,
            last_activity_age_ms: None,
            elapsed_ms: None,
            events: 3,
        },
    ]);
    app.selected = 1;
    assert_eq!(top_header(&app), "2 live session(s)");
    assert_eq!(
        top_row_lines(&app),
        vec![
            format!(
                "  {:<14} {:<18} {:<12} {:>9} {:>9} {:>7}",
                "agent-witness…", "agent-witness", "Bash", "2.0s", "2m05s", 42
            ),
            format!(
                "> {:<14} {:<18} {:<12} {:>9} {:>9} {:>7}",
                "idle-thinking", "docs", "-", "-", "-", 3
            ),
        ]
    );
}

#[test]
fn leaving_the_view_tells_what_for() {
    let mut app = TopApp::new(vec![row("a")]);
    assert_eq!(top_outcome(&app), None);
    handle_top_key(&mut app, Key::Enter);
    assert_eq!(top_outcome(&app), Some(TopOutcome::Drill("a".to_string())));
    let mut app = TopApp::new(vec![row("a")]);
    handle_top_key(&mut app, Key::Esc);
    assert_eq!(top_outcome(&app), Some(TopOutcome::Quit));
}

#[test]
fn a_refresh_keeps_the_highlight_inside() {
    let app = TopApp::refreshed(vec![row("a"), row("b")], 7);
    assert_eq!(app.selected, 1);
    let app = TopApp::refreshed(vec![], 7);
    assert_eq!(app.selected, 0);
    assert_eq!(top_header(&app), "0 live session(s)");
}

#[test]
fn a_row_tells_ages_and_lengths() {
    let events = vec![
        ev(NOW - 9_000, EventKind::SessionStart, obj(vec![])),
        ev(NOW - 4_000, EventKind::Prompt, obj(vec![])),
    ];
    let r = top_row_from(&summarize("s", Some(NOW - 10_000), &events), &events, NOW);
    assert_eq!(r.last_activity_age_ms, Some(4_000));
    assert_eq!(r.elapsed_ms, Some(10_000));
    assert_eq!(r.running_tool, None);
    assert_eq!(r.project, "-");
}
