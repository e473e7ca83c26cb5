use agent_witness::event::{AgentEvent, Attribution, EventKind, Source, CONFIDENCE_CERTAIN};
use agent_witness::json::{set_member, Json};
use agent_witness::keys::Key;
use agent_witness::pick::{
    handle_pick_key, pick_header, pick_row_lines, rows_from_summaries, PickApp, PickRow,
};
use agent_witness::selector::summarize;

/// An object with these members.
fn obj(members: Vec<(&str, Json)>) -> Json {
    let mut all = Vec::new();
    for (name, value) in members {
        set_member(&mut all, name, value);
    }
    Json::Object(all)
}

fn text(value: &str) -> Json {
    Json::Str(value.to_string())
}

fn event(ts: i64, kind: EventKind) -> AgentEvent {
    AgentEvent::new(
        ts,
        "s",
        Source::Hooks,
        kind,
        Attribution::Direct,
        CONFIDENCE_CERTAIN,
        obj(vec![("tool_name", text("Read"))]),
    )
}

fn row(id: &str) -> PickRow {
    PickRow {
        session_id: id.to_string(),
        started_ms: Some(0),
        events: 1,
        tools: 0,
        live: false,
    }
}

#[test]
fn rows_are_ordered_most_recent_first() {
    let old = summarize("old", Some(100), &[event(100, EventKind::Stop)]);
    let new = summarize("new", Some(500), &[event(500, EventKind::ToolCall)]);
    let rows = rows_from_summaries(&[old, new], 1_000);
    assert_eq!(rows[0].session_id, "new");
    assert_eq!(rows[1].session_id, "old");
}

#[test]
fn pick_navigation_clamps_at_both_ends() {
    let mut app = PickApp::new(vec![row("a"), row("b")]);
    handle_pick_key(&mut app, Key::Char('k')); // already at top
    assert_eq!(app.selected, 0);
    handle_pick_key(&mut app, Key::Char('j'));
    assert_eq!(app.selected, 1);
    handle_pick_key(&mut app, Key::Char('j')); // clamp at bottom
    assert_eq!(app.selected, 1);
}

#[test]
fn enter_chooses_the_selected_session() {
    let mut app = PickApp::new(vec![row("a"), row("b")]);
    handle_pick_key(&mut app, Key::Down);
    handle_pick_key(&mut app, Key::Enter);
    assert_eq!(app.chosen.as_deref(), Some("b"));
}

#[test]
fn pick_quit_leaves_no_choice() {
    let mut app = PickApp::new(vec![row("a")]);
    handle_pick_key(&mut app, Key::Char('q'));
    assert!(app.should_quit);
    assert!(app.chosen.is_none());
}

#[test]
fn pick_enter_on_empty_list_is_a_no_op() {
    let mut app = PickApp::new(vec![]);
    handle_pick_key(&mut app, Key::Enter);
    assert!(app.chosen.is_none());
}

const BASE_TS: i64 = 1_700_000_000_000;

#[test]
fn pick_lines_show_the_marker_the_columns_and_the_live_word() {
    let mut app = PickApp::new(vec![
        PickRow {
            session_id: "session-live".to_string(),
            started_ms: Some(BASE_TS + 60_000),
            events: 4,
            tools: 2,
            live: true,
        },
        PickRow {
            session_id: "session-with-failure".to_string(),
            started_ms: None,
            events: 0,
            tools: 0,
            live: false,
        },
    ]);
    app.selected = 1;
    assert_eq!(pick_header(&app), "2 session(s) recorded");
    let lines = pick_row_lines(&app);
    assert_eq!(
        lines,
        vec![
            format!("  {:<24} {:<21} {:>7} {:>7}  live", "session-live", "2023-11-14 22:14:20Z", 4, 2),
            format!("> {:<24} {:<21} {:>7} {:>7}  ", "session-with-failure", "-", 0, 0),
        ]
    );
}

#[test]
fn an_empty_picker_has_a_header_and_no_lines() {
    let app = PickApp::new(vec![]);
    assert_eq!(pick_header(&app), "0 session(s) recorded");
    assert!(pick_row_lines(&app).is_empty());
}

#[test]
fn choosing_or_quitting_finishes_the_picker() {
    let mut app = PickApp::new(vec![row("a")]);
    assert!(!app.finished());
    handle_pick_key(&mut app, Key::Other);
    assert!(!app.finished());
    handle_pick_key(&mut app, Key::Enter);
    assert!(app.finished());
    let mut app = PickApp::new(vec![row("a")]);
    handle_pick_key(&mut app, Key::Esc);
    assert!(app.finished());
    assert!(app.chosen.is_none());
}
