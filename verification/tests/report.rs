use agent_witness::event::{AgentEvent, Attribution, EventKind, Source, CONFIDENCE_CERTAIN};
use agent_witness::host::Host;
use agent_witness::json::{set_member, Json};
use agent_witness::report::{
    attribution_word, build_report, observation_scope_marker, times_fit, MarkdownExporter,
    SessionExporter,
};
use agent_witness::store::SessionRead;

fn host() -> Host {
    Host {
        name: "Example Host".to_string(),
        dir: ".host".to_string(),
        site: "host.example".to_string(),
    }
}

/// An object with these members.
fn obj(members: Vec<(&str, Json)>) -> Json {
    let mut all = Vec::new();
    for (name, value) in members {
        set_member(&mut all, name, value);
    }
    Json::Object(all)
}

fn text(value: &str) -> Json {
    Json::Str(value.to_string())
}

fn ev(ts: i64, kind: EventKind, payload: Json) -> AgentEvent {
    AgentEvent::new(
        ts,
        "s",
        Source::Hooks,
        kind,
        Attribution::Direct,
        CONFIDENCE_CERTAIN,
        payload,
    )
}

fn read_with(events: Vec<AgentEvent>, skipped: usize) -> SessionRead {
    SessionRead {
        events,
        skipped_lines: skipped,
    }
}

#[test]
fn summary_counts_files_commands_and_duration() {
    let events = vec![
        ev(1_000, EventKind::SessionStart, obj(vec![("source", text("startup"))])),
        ev(
            2_000,
            EventKind::ToolCall,
            obj(vec![("tool_name", text("Write")), ("tool_use_id", text("t1")), ("tool_input", obj(vec![("file_path", text("/p/a.rs"))]))]),
        ),
        ev(
            3_000,
            EventKind::ToolResult,
            obj(vec![("tool_name", text("Write")), ("tool_use_id", text("t1")), ("duration_ms", Json::Uint(5))]),
        ),
        ev(
            4_000,
            EventKind::ToolCall,
            obj(vec![("tool_name", text("Bash")), ("tool_use_id", text("t2")), ("tool_input", obj(vec![("command", text("ls"))]))]),
        ),
    ];
    let report = build_report("s", &read_with(events, 2), None, &host());
    assert_eq!(report.summary.tool_calls, 2);
    assert_eq!(report.summary.touched_files, 1);
    assert_eq!(report.summary.commands, 1);
    assert_eq!(report.summary.events, 4);
    assert_eq!(report.summary.corrupt_lines, 2);
    assert_eq!(report.summary.duration_ms, Some(3_000));
    assert_eq!(report.summary.started_ms, Some(1_000));
}

#[test]
fn touched_file_records_tools_and_dedups_by_path() {
    let events = vec![
        ev(
            1,
            EventKind::ToolCall,
            obj(vec![("tool_name", text("Write")), ("tool_use_id", text("t1")), ("tool_input", obj(vec![("file_path", text("/p/a.rs"))]))]),
        ),
        ev(
            2,
            EventKind::ToolResult,
            obj(vec![("tool_name", text("Write")), ("tool_use_id", text("t1"))]),
        ),
        ev(
            3,
            EventKind::ToolCall,
            obj(vec![("tool_name", text("Edit")), ("tool_use_id", text("t2")), ("tool_input", obj(vec![("file_path", text("/p/a.rs"))]))]),
        ),
    ];
    let report = build_report("s", &read_with(events, 0), None, &host());
    assert_eq!(report.touched_files.len(), 1);
    assert_eq!(report.touched_files[0].path, "/p/a.rs");
    assert_eq!(report.touched_files[0].tools, vec!["Write", "Edit"]);
}

#[test]
fn failed_bash_command_is_no_result_not_success() {
    // A Bash call with no matching PostToolUse (the empirical failure shape).
    let events = vec![ev(
        1,
        EventKind::ToolCall,
        obj(vec![("tool_name", text("Bash")), ("tool_use_id", text("t1")), ("tool_input", obj(vec![("command", text("cat missing"))]))]),
    )];
    let report = build_report("s", &read_with(events, 0), None, &host());
    assert_eq!(report.commands.len(), 1);
    assert_eq!(report.commands[0].status, "no-result");
    assert_eq!(report.commands[0].command, "cat missing");
}

#[test]
fn multiline_command_is_flattened_to_one_line() {
    let events = vec![ev(
        1,
        EventKind::ToolCall,
        obj(vec![("tool_name", text("Bash")), ("tool_use_id", text("t1")), ("tool_input", obj(vec![("command", text("echo a\necho b"))]))]),
    )];
    let report = build_report("s", &read_with(events, 0), None, &host());
    assert_eq!(report.commands[0].command, "echo a echo b");
}

#[test]
fn disclaimer_is_always_present_and_reports_corrupt_count() {
    let report = build_report("s", &read_with(vec![], 3), None, &host());
    assert!(report
        .disclaimer
        .iter()
        .any(|l| l.contains(&observation_scope_marker(&host()))));
    assert!(report.disclaimer.iter().any(|l| l.contains("3 corrupt")));
}

#[test]
fn markdown_carries_the_disclaimer() {
    let report = build_report("s", &read_with(vec![], 0), None, &host());
    let md = MarkdownExporter.export(&report);
    assert!(md.contains(&observation_scope_marker(&host())));
    assert!(md.contains("## Observation scope"));
}

#[test]
fn empty_session_renders_placeholders_without_panic() {
    let report = build_report("empty", &read_with(vec![], 0), None, &host());
    let md = MarkdownExporter.export(&report);
    assert!(md.contains("_None observed._"));
    assert!(md.contains("_No events recorded._"));
    assert_eq!(report.summary.duration_ms, None);
}

fn bash(ts: i64, id: &str, command: &str) -> AgentEvent {
    ev(
        ts,
        EventKind::ToolCall,
        obj(vec![
            ("tool_name", text("Bash")),
            ("tool_use_id", text(id)),
            ("tool_input", obj(vec![("command", text(command))])),
        ]),
    )
}

#[test]
fn flagged_commands_are_listed_critical_first() {
    let events = vec![
        bash(1, "t1", "git push --force"),
        bash(2, "t2", "rm -rf ~/"),
    ];
    let report = build_report("s", &read_with(events, 0), None, &host());
    let patterns: Vec<&str> = report.flags.iter().map(|f| f.pattern).collect();
    assert_eq!(patterns, vec!["rm-rf-home-root", "git-force-push"]);
    let markdown = MarkdownExporter.export(&report);
    assert!(markdown.contains("## Flagged commands"));
    assert!(markdown.contains("no claim about intent"));
    let critical = markdown
        .find("recursive force-remove targeting a home or root path")
        .expect("critical rationale present");
    let warning = markdown
        .find("force-push rewrites remote history")
        .expect("warning rationale present");
    assert!(critical < warning);
}

#[test]
fn a_session_without_flags_has_no_flagged_section() {
    let report = build_report("s", &read_with(vec![bash(1, "t1", "rustc --version")], 0), None, &host());
    assert!(report.flags.is_empty());
    assert!(!MarkdownExporter.export(&report).contains("## Flagged commands"));
}

#[test]
fn the_claim_stands_beside_what_was_recorded() {
    let events = vec![
        bash(1, "t1", "cargo test"),
        ev(
            2,
            EventKind::Stop,
            obj(vec![("last_assistant_message", text("tests pass"))]),
        ),
    ];
    let report = build_report("s", &read_with(events, 0), None, &host());
    let claim = report.claim_vs_reality.as_ref().expect("a claim");
    assert_eq!(claim.final_message.as_deref(), Some("tests pass"));
    assert!(MarkdownExporter.export(&report).contains("## Claim vs reality"));
    let quiet = build_report("s", &read_with(vec![bash(1, "t1", "ls")], 0), None, &host());
    assert!(quiet.claim_vs_reality.is_none());
    assert!(!MarkdownExporter.export(&quiet).contains("## Claim vs reality"));
}

#[test]
fn times_beyond_the_range_are_noticed() {
    assert!(times_fit(&[bash(1, "a", "ls"), bash(2, "b", "ls")]));
    assert!(!times_fit(&[bash(i64::MIN, "a", "ls"), bash(i64::MAX, "b", "ls")]));
}

#[test]
fn attributions_have_words() {
    assert_eq!(attribution_word(Attribution::Direct), "direct");
    assert_eq!(attribution_word(Attribution::Observed), "observed");
    assert_eq!(attribution_word(Attribution::Inferred), "inferred");
}

#[test]
fn the_scope_names_the_host() {
    assert_eq!(
        observation_scope_marker(&host()),
        "records only what Example Host hooks report"
    );
    let md = MarkdownExporter.export(&build_report("s", &read_with(vec![], 0), None, &host()));
    assert!(md.contains("_Observation only — records what Example Host hooks reported."));
}
