use agent_witness::event::{AgentEvent, Attribution, EventKind, Source, CONFIDENCE_CERTAIN};
use agent_witness::json::{set_member, Json};
use agent_witness::keys::Key;
use agent_witness::store::SessionRead;
use agent_witness::tui::{
    detail_text, entry_lines, handle_key, header_lines, offsets_can_be_told, poll_update, TuiApp,
};

/// An object with these members.
fn obj(members: Vec<(&str, Json)>) -> Json {
    let mut all = Vec::new();
    for (name, value) in members {
        set_member(&mut all, name, value);
    }
    Json::Object(all)
}

fn text(value: &str) -> Json {
    Json::Str(value.to_string())
}

fn read_with(events: Vec<AgentEvent>, skipped: usize) -> SessionRead {
    SessionRead {
        events,
        skipped_lines: skipped,
    }
}

fn tool_call(ts: i64, id: &str) -> AgentEvent {
    AgentEvent::new(
        ts,
        "s",
        Source::Hooks,
        EventKind::ToolCall,
        Attribution::Direct,
        CONFIDENCE_CERTAIN,
        obj(vec![("tool_name", text("Bash")), ("tool_use_id", text(id)), ("tool_input", obj(vec![("command", text("ls"))]))]),
    )
}

#[test]
fn new_app_starts_at_top_with_counts() {
    let app = TuiApp::new(
        "s",
        &read_with(vec![tool_call(1, "a"), tool_call(2, "b")], 3),
    );
    assert_eq!(app.selected, 0);
    assert_eq!(app.event_count, 2);
    assert_eq!(app.tool_count, 2);
    assert_eq!(app.skipped_lines, 3);
    assert!(!app.detail_open);
    assert!(!app.follow);
}

#[test]
fn j_k_move_and_clamp_at_bounds() {
    let mut app = TuiApp::new(
        "s",
        &read_with(vec![tool_call(1, "a"), tool_call(2, "b")], 0),
    );
    handle_key(&mut app, Key::Char('k')); // already at top
    assert_eq!(app.selected, 0);
    handle_key(&mut app, Key::Char('j'));
    assert_eq!(app.selected, 1);
    handle_key(&mut app, Key::Char('j')); // clamp at bottom
    assert_eq!(app.selected, 1);
    handle_key(&mut app, Key::Up);
    assert_eq!(app.selected, 0);
}

#[test]
fn enter_toggles_detail_and_esc_backs_out_then_quits() {
    let mut app = TuiApp::new("s", &read_with(vec![tool_call(1, "a")], 0));
    handle_key(&mut app, Key::Enter);
    assert!(app.detail_open);
    handle_key(&mut app, Key::Esc); // closes detail, not quit
    assert!(!app.detail_open);
    assert!(!app.should_quit);
    handle_key(&mut app, Key::Esc); // now quits
    assert!(app.should_quit);
}

#[test]
fn enter_is_ignored_on_empty_session() {
    let mut app = TuiApp::new("s", &read_with(vec![], 0));
    handle_key(&mut app, Key::Enter);
    assert!(!app.detail_open);
}

#[test]
fn f_toggles_follow_and_q_quits() {
    let mut app = TuiApp::new("s", &read_with(vec![tool_call(1, "a")], 0));
    handle_key(&mut app, Key::Char('f'));
    assert!(app.follow);
    handle_key(&mut app, Key::Char('q'));
    assert!(app.should_quit);
}

#[test]
fn update_in_follow_sticks_to_tail() {
    let mut app = TuiApp::new("s", &read_with(vec![tool_call(1, "a")], 0));
    app.follow = true;
    app.update(&read_with(
        vec![tool_call(1, "a"), tool_call(2, "b"), tool_call(3, "c")],
        0,
    ));
    assert_eq!(app.selected, 2);
    assert_eq!(app.event_count, 3);
}

#[test]
fn update_without_follow_keeps_selection_but_clamps() {
    let mut app = TuiApp::new(
        "s",
        &read_with(
            vec![tool_call(1, "a"), tool_call(2, "b"), tool_call(3, "c")],
            0,
        ),
    );
    app.selected = 2;
    // Log shrank (shouldn't normally happen, but must not panic): clamp.
    app.update(&read_with(vec![tool_call(1, "a")], 0));
    assert_eq!(app.selected, 0);
}

const BASE_TS: i64 = 1_700_000_000_000;

fn event(ts: i64, kind: EventKind, attribution: Attribution, payload: Json) -> AgentEvent {
    AgentEvent::new(ts, "s", Source::Hooks, kind, attribution, CONFIDENCE_CERTAIN, payload)
}

#[test]
fn the_header_tells_counts_and_corrupt_lines() {
    let mut app = TuiApp::new("session-basic", &read_with(vec![tool_call(BASE_TS, "a")], 3));
    assert_eq!(
        header_lines(&app),
        vec![
            "session session-basic  ·  started 2023-11-14 22:13:20Z",
            "1 events · 1 tool calls · 3 corrupt lines · follow off",
        ]
    );
    app.follow = true;
    assert!(header_lines(&app)[1].ends_with("follow on"));
    let empty = TuiApp::new("empty", &read_with(vec![], 0));
    assert_eq!(
        header_lines(&empty),
        vec![
            "session empty  ·  started -",
            "0 events · 0 tool calls · 0 corrupt lines · follow off",
        ]
    );
}

#[test]
fn entry_lines_mark_the_selected_entry_and_missing_results() {
    let app = TuiApp::new(
        "s",
        &read_with(
            vec![
                event(
                    BASE_TS,
                    EventKind::Prompt,
                    Attribution::Observed,
                    obj(vec![("prompt", text("hi"))]),
                ),
                tool_call(BASE_TS + 1_500, "a"),
            ],
            0,
        ),
    );
    assert!(offsets_can_be_told(&app));
    let lines = entry_lines(&app);
    assert_eq!(lines.len(), 2);
    assert!(lines[0].starts_with(">    +0.000s O PROMPT"), "{lines:?}");
    assert_eq!(
        lines[1],
        format!("  {:>10} D {:<12} {:<9} {}", "+1.500s", "Bash", "no-result", "ls")
    );
}

#[test]
fn offsets_beyond_the_range_are_noticed() {
    let app = TuiApp::new(
        "s",
        &read_with(vec![tool_call(i64::MIN, "a"), tool_call(i64::MAX, "b")], 0),
    );
    assert!(!offsets_can_be_told(&app));
}

#[test]
fn the_detail_shows_provenance_then_input_and_response() {
    let mut call = tool_call(BASE_TS, "a");
    call.raw_event_ref = Some("raw-0".to_string());
    let result = event(
        BASE_TS + 12,
        EventKind::ToolResult,
        Attribution::Direct,
        obj(vec![
            ("tool_use_id", text("a")),
            ("tool_response", obj(vec![("stdout", text("ok"))])),
            ("duration_ms", Json::Uint(12)),
        ]),
    );
    let app = TuiApp::new("s", &read_with(vec![call, result], 0));
    assert_eq!(app.entries.len(), 1);
    assert_eq!(
        detail_text(&app.entries[0], "1"),
        "tool: Bash\nattribution: direct · source: hooks · confidence: 1\nraw_ref: raw-0\n\
         status: ok · duration: 12ms\n\ninput:\n{\n  \"command\": \"ls\"\n}\n\nresponse:\n{\n  \
         \"stdout\": \"ok\"\n}\n"
    );
}

#[test]
fn polling_updates_only_on_growth() {
    let mut app = TuiApp::new("s", &read_with(vec![tool_call(1, "a")], 0));
    let same = read_with(vec![tool_call(1, "a")], 0);
    assert!(!poll_update(&mut app, &same));
    let damaged = read_with(vec![tool_call(1, "a")], 1);
    assert!(poll_update(&mut app, &damaged));
    assert_eq!(app.skipped_lines, 1);
    let grown = read_with(vec![tool_call(1, "a"), tool_call(2, "b")], 1);
    assert!(poll_update(&mut app, &grown));
    assert!(!poll_update(&mut app, &grown));
    assert_eq!(app.event_count, 2);
}
