use agent_witness::digest::{build_digest, to_markdown, DigestReport, ProjectDigest, SessionInput};
use agent_witness::event::{AgentEvent, Attribution, EventKind, Source, CONFIDENCE_CERTAIN};
use agent_witness::json::{set_member, Json};
use agent_witness::timefmt::format_utc;
use agent_witness::usage::{aggregate_transcript_usage, SessionUsage};
use agent_witness::window::{window_mode_from_flags, window_since_ms, WindowMode};

/// An object with these members.
fn obj(members: Vec<(&str, Json)>) -> Json {
    let mut all = Vec::new();
    for (name, value) in members {
        set_member(&mut all, name, value);
    }
    Json::Object(all)
}

fn text(value: &str) -> Json {
    Json::Str(value.to_string())
}

// A fixed clock instant: 2023-11-14 22:13:20Z.
const NOW: i64 = 1_700_000_000_000;
const DAY_MS: i64 = 86_400_000;

// --- input builders ---------------------------------------------------

fn event(ts: i64, source: Source, kind: EventKind, payload: Json) -> AgentEvent {
    AgentEvent::new(
        ts,
        "s",
        source,
        kind,
        Attribution::Direct,
        CONFIDENCE_CERTAIN,
        payload,
    )
}

fn hook_prompt(ts: i64, cwd: &str) -> AgentEvent {
    event(
        ts,
        Source::Hooks,
        EventKind::Prompt,
        obj(vec![("prompt", text("hi")), ("cwd", text(cwd))]),
    )
}

fn transcript_prompt(ts: i64) -> AgentEvent {
    event(
        ts,
        Source::Transcript,
        EventKind::Prompt,
        obj(vec![("text", text("assistant prose"))]),
    )
}

fn tool_call(ts: i64, payload: Json) -> AgentEvent {
    event(ts, Source::Hooks, EventKind::ToolCall, payload)
}

fn bash(ts: i64, command: &str, cwd: &str) -> AgentEvent {
    tool_call(
        ts,
        obj(vec![("tool_name", text("Bash")), ("tool_input", obj(vec![("command", text(command))])), ("cwd", text(cwd))]),
    )
}

fn write_file(ts: i64, path: &str, cwd: &str) -> AgentEvent {
    tool_call(
        ts,
        obj(vec![("tool_name", text("Write")), ("tool_input", obj(vec![("file_path", text(path))])), ("cwd", text(cwd))]),
    )
}

fn usage_with(model: &str, input: u64, output: u64) -> SessionUsage {
    let line = format!(
        r#"{{"type":"assistant","message":{{"id":"m","model":"{model}","content":[],"usage":{{"input_tokens":{input},"output_tokens":{output}}}}}}}"#
    );
    aggregate_transcript_usage(&line, "s")
}

fn input(id: &str, created_ts: i64, events: Vec<AgentEvent>) -> SessionInput {
    SessionInput {
        session_id: id.to_string(),
        created_ts: Some(created_ts),
        events,
        skipped_lines: 0,
        usage: None,
    }
}

fn digest_all(inputs: &[SessionInput]) -> DigestReport {
    build_digest(inputs, NOW, None, WindowMode::All)
}

fn project<'a>(report: &'a DigestReport, name: &str) -> &'a ProjectDigest {
    report
        .projects
        .iter()
        .find(|p| p.name == name)
        .unwrap_or_else(|| panic!("no project {name:?} in {:?}", report.projects))
}

// --- window boundaries ------------------------------------------------

#[test]
fn utc_today_excludes_yesterday_end_and_includes_today_start() {
    // Arrange: now is midday; today's UTC midnight is the lower bound.
    let now = NOW; // 22:13:20Z on 2023-11-14
    let since = window_since_ms(WindowMode::Today, now).unwrap();
    assert_eq!(format_utc(since), "2023-11-14 00:00:00Z");
    // One session starts at 23:59:59Z the previous day, one at 00:00:00Z today.
    let yesterday = input(
        "y",
        since - 1_000,
        vec![hook_prompt(since - 1_000, "/w/a")],
    );
    let today = input("t", since, vec![hook_prompt(since, "/w/a")]);

    // Act
    let report = build_digest(&[yesterday, today], now, Some(since), WindowMode::Today);

    // Assert: only today's session counts.
    assert_eq!(report.totals.sessions, 1);
    assert_eq!(report.totals.prompts, 1);
}

#[test]
fn utc_week_includes_day_six_and_excludes_day_seven() {
    let now = NOW;
    let since = window_since_ms(WindowMode::Week, now).unwrap();
    // 6 days before 2023-11-14 is 2023-11-08 midnight.
    assert_eq!(format_utc(since), "2023-11-08 00:00:00Z");
    let day_six = input("d6", since, vec![hook_prompt(since, "/w/a")]);
    let day_seven = input(
        "d7",
        since - 1_000,
        vec![hook_prompt(since - 1_000, "/w/a")],
    );

    let report = build_digest(&[day_six, day_seven], now, Some(since), WindowMode::Week);

    assert_eq!(report.totals.sessions, 1);
}

#[test]
fn since_duration_boundary_is_inclusive_at_the_lower_bound() {
    let now = NOW;
    let mode = window_mode_from_flags(false, false, Some("30d")).unwrap();
    let since = window_since_ms(mode, now).unwrap();
    assert_eq!(since, now - 30 * DAY_MS);
    let at_bound = input("in", since, vec![hook_prompt(since, "/w/a")]);
    let before = input("out", since - 1, vec![hook_prompt(since - 1, "/w/a")]);

    let report = build_digest(&[at_bound, before], now, Some(since), mode);

    assert_eq!(report.totals.sessions, 1);
}

#[test]
fn session_started_before_window_is_excluded_even_with_a_later_event_inside() {
    // Over-attribution guard: inclusion keys on session START, not activity.
    let now = NOW;
    let since = window_since_ms(WindowMode::Today, now).unwrap();
    // created_ts is before the window; a later event lands inside it.
    let session = input(
        "long",
        since - DAY_MS,
        vec![
            hook_prompt(since - DAY_MS, "/w/a"),
            hook_prompt(since + 1_000, "/w/a"),
        ],
    );

    let report = build_digest(&[session], now, Some(since), WindowMode::Today);

    assert_eq!(report.totals.sessions, 0);
}

#[test]
fn mutually_exclusive_window_flags_error() {
    assert!(window_mode_from_flags(true, true, None).is_err());
    assert!(window_mode_from_flags(true, false, Some("7d")).is_err());
    assert!(window_mode_from_flags(false, true, Some("7d")).is_err());
    // Exactly one (or none) is fine.
    assert_eq!(
        window_mode_from_flags(true, false, None).unwrap(),
        WindowMode::Today
    );
    assert_eq!(
        window_mode_from_flags(false, false, None).unwrap(),
        WindowMode::All
    );
}

// --- grouping ---------------------------------------------------------

#[test]
fn sessions_group_by_project_and_no_cwd_lands_in_unknown() {
    // Two sessions in A, one in B, one with no cwd at all.
    let a1 = input("a1", NOW, vec![hook_prompt(NOW, "/w/proj-a")]);
    let a2 = input("a2", NOW, vec![hook_prompt(NOW, "/w/proj-a")]);
    let b1 = input("b1", NOW, vec![hook_prompt(NOW, "/w/proj-b")]);
    let no_cwd = input(
        "n1",
        NOW,
        vec![tool_call(
            NOW,
            obj(vec![("tool_name", text("Read")), ("tool_input", obj(vec![]))]),
        )],
    );

    let report = digest_all(&[a1, a2, b1, no_cwd]);

    assert_eq!(project(&report, "proj-a").sessions, 2);
    assert_eq!(project(&report, "proj-b").sessions, 1);
    let unknown = project(&report, "unknown project");
    assert_eq!(unknown.sessions, 1);
    assert!(unknown.is_unknown);
    assert_eq!(report.honesty.unknown_project_sessions, 1);
    // Unknown bucket sorts last.
    assert_eq!(report.projects.last().unwrap().name, "unknown project");
}

#[test]
fn multi_cwd_session_is_counted_and_attributed_to_its_first_cwd() {
    let session = input(
        "m",
        NOW,
        vec![
            hook_prompt(NOW, "/w/first"),
            bash(NOW + 1, "ls", "/w/second"),
        ],
    );

    let report = digest_all(&[session]);

    // Attributed to the FIRST cwd, and disclosed as multi-cwd.
    assert_eq!(project(&report, "first").sessions, 1);
    assert_eq!(project(&report, "first").multi_cwd_sessions, 1);
    assert_eq!(report.honesty.multi_cwd_sessions, 1);
    assert!(report.projects.iter().all(|p| p.name != "second"));
}

#[test]
fn distinct_files_are_unioned_across_a_projects_sessions() {
    let s1 = input(
        "s1",
        NOW,
        vec![
            write_file(NOW, "/w/proj/a.rs", "/w/proj"),
            write_file(NOW + 1, "/w/proj/b.rs", "/w/proj"),
        ],
    );
    let s2 = input(
        "s2",
        NOW,
        vec![
            write_file(NOW, "/w/proj/b.rs", "/w/proj"),
            write_file(NOW + 1, "/w/proj/c.rs", "/w/proj"),
        ],
    );

    let report = digest_all(&[s1, s2]);

    // a, b, c distinct across the two sessions (b appears in both).
    assert_eq!(project(&report, "proj").files_touched, 3);
    assert_eq!(report.totals.files_touched, 3);
}

// --- prompt source filter ---------------------------------------------

#[test]
fn prompt_count_excludes_transcript_sourced_prompt_events() {
    // A session with one hook user-prompt and one transcript assistant-prose
    // Prompt: only the hook prompt counts.
    let session = input(
        "p",
        NOW,
        vec![hook_prompt(NOW, "/w/proj"), transcript_prompt(NOW + 1)],
    );

    let report = digest_all(&[session]);

    assert_eq!(project(&report, "proj").prompts, 1);
    assert_eq!(report.totals.prompts, 1);
}

// --- usage availability -----------------------------------------------

#[test]
fn session_with_usage_contributes_tokens_and_without_is_unavailable() {
    let with_usage = SessionInput {
        usage: Some(usage_with("fable-5", 100, 200)),
        ..input("with", NOW, vec![hook_prompt(NOW, "/w/proj")])
    };
    let without = input("without", NOW, vec![hook_prompt(NOW, "/w/proj")]);

    let report = digest_all(&[with_usage, without]);

    let proj = project(&report, "proj");
    assert_eq!(proj.sessions, 2);
    // The without-usage session is counted as a session but adds zero tokens.
    assert_eq!(proj.sessions_usage_unavailable, 1);
    assert_eq!(report.honesty.sessions_usage_unavailable, 1);
    assert_eq!(proj.per_model.len(), 1);
    assert_eq!(proj.per_model[0].model, "fable-5");
    assert_eq!(proj.per_model[0].input_tokens, 100);
    assert_eq!(proj.per_model[0].output_tokens, 200);
    assert_eq!(proj.models_used, vec!["fable-5"]);
    // Totals mirror the project token totals here (single project).
    assert_eq!(report.totals.per_model[0].input_tokens, 100);
}

#[test]
fn token_totals_sum_across_sessions_with_usage() {
    let s1 = SessionInput {
        usage: Some(usage_with("m", 10, 20)),
        ..input("s1", NOW, vec![hook_prompt(NOW, "/w/proj")])
    };
    let s2 = SessionInput {
        usage: Some(usage_with("m", 5, 6)),
        ..input("s2", NOW, vec![hook_prompt(NOW, "/w/proj")])
    };

    let report = digest_all(&[s1, s2]);

    let proj = project(&report, "proj");
    assert_eq!(proj.per_model.len(), 1);
    assert_eq!(proj.per_model[0].input_tokens, 15);
    assert_eq!(proj.per_model[0].output_tokens, 26);
}

// --- flags ------------------------------------------------------------

#[test]
fn destructive_commands_tally_by_severity_per_project() {
    let session = input(
        "f",
        NOW,
        vec![
            bash(NOW, "rm -rf ~/", "/w/proj"),
            bash(NOW + 1, "git push -f", "/w/proj"),
            bash(NOW + 2, "ls", "/w/proj"),
        ],
    );

    let report = digest_all(&[session]);

    let proj = project(&report, "proj");
    assert_eq!(proj.flags.critical, 1);
    assert_eq!(proj.flags.warning, 1);
    assert_eq!(proj.commands, 3);
    assert_eq!(report.totals.flags.critical, 1);
    assert_eq!(report.totals.flags.warning, 1);
}

// --- test-like command activity ---------------------------

#[test]
fn test_activity_tallies_kind_and_status_per_project_and_overall() {
    let cwd = "/w/proj";
    let events = vec![
        // A paired `cargo test` → ok.
        tool_call(
            NOW,
            obj(vec![("tool_name", text("Bash")), ("tool_use_id", text("t1")), ("tool_input", obj(vec![("command", text("cargo test"))])), ("cwd", text(cwd))]),
        ),
        event(
            NOW + 1,
            Source::Hooks,
            EventKind::ToolResult,
            obj(vec![("tool_name", text("Bash")), ("tool_use_id", text("t1"))]),
        ),
        // An unpaired `cargo build` → no-result, never a failure.
        tool_call(
            NOW + 2,
            obj(vec![("tool_name", text("Bash")), ("tool_use_id", text("t2")), ("tool_input", obj(vec![("command", text("cargo build"))])), ("cwd", text(cwd))]),
        ),
        // A non-test command is not counted.
        bash(NOW + 3, "ls -la", cwd),
    ];
    let report = digest_all(&[input("s", NOW, events)]);

    let proj = project(&report, "proj");
    assert_eq!(proj.test_activity.test, 1);
    assert_eq!(proj.test_activity.build, 1);
    assert_eq!(proj.test_activity.lint, 0);
    assert_eq!(proj.test_activity.ok, 1);
    assert_eq!(proj.test_activity.failed, 0);
    assert_eq!(proj.test_activity.no_result, 1);
    assert_eq!(proj.test_activity.total(), 2);
    // Overall totals mirror the single project.
    assert_eq!(report.totals.test_activity.test, 1);
    assert_eq!(report.totals.test_activity.no_result, 1);

    // The facts surface in the markdown, factually.
    let md = to_markdown(&report);
    assert!(md.contains("Test-like commands recorded: 2 (test 1, build 1, lint 0)"));
    assert!(md.contains("1 ok, 0 failed, 1 no-result"));
}

#[test]
fn no_test_activity_renders_zero() {
    let report = digest_all(&[input("s", NOW, vec![bash(NOW, "ls", "/w/proj")])]);
    assert_eq!(project(&report, "proj").test_activity.total(), 0);
    assert!(to_markdown(&report).contains("Test-like commands recorded: 0"));
}

// --- duration ---------------------------------------------------------

#[test]
fn duration_is_last_minus_first_event_summed_per_project() {
    let s1 = input(
        "s1",
        NOW,
        vec![
            hook_prompt(NOW, "/w/proj"),
            bash(NOW + 5_000, "ls", "/w/proj"),
        ],
    );
    let s2 = input(
        "s2",
        NOW,
        vec![
            hook_prompt(NOW, "/w/proj"),
            bash(NOW + 3_000, "ls", "/w/proj"),
        ],
    );

    let report = digest_all(&[s1, s2]);

    assert_eq!(project(&report, "proj").duration_ms, 8_000);
    assert_eq!(report.totals.duration_ms, 8_000);
}

// --- markdown honesty / no-judgment wording ---------------------------

#[test]
fn markdown_states_the_window_and_carries_honesty_surfaces() {
    let session = input("s", NOW, vec![hook_prompt(NOW, "/w/proj")]);
    let report = build_digest(
        &[session],
        NOW,
        Some(NOW - DAY_MS),
        WindowMode::Since { span_ms: DAY_MS },
    );
    let md = to_markdown(&report);

    assert!(md.contains("Digest window: since"));
    assert!(md.contains("## Honesty surfaces"));
    assert!(md.contains("Usage unavailable:"));
    assert!(md.contains("absent sidecar is not zero tokens"));
    assert!(md.contains("Command flags by matcher severity"));
    assert!(md.contains("pattern-matcher hits"));
    assert!(md.contains("FACTS ONLY"));
    // Duration is labelled and caveated as non-additive wall-span.
    assert!(md.contains("Duration (summed wall-span)"));
    assert!(md.contains("NOT additive time worked"));
}

#[test]
fn markdown_never_uses_judgment_wording() {
    // A fully-populated report exercises every rendered branch.
    let session = input(
        "s",
        NOW,
        vec![
            hook_prompt(NOW, "/w/proj"),
            bash(NOW + 1, "rm -rf ~/", "/w/proj"),
            write_file(NOW + 2, "/w/proj/a.rs", "/w/proj"),
        ],
    );
    let with_usage = SessionInput {
        usage: Some(usage_with("m", 1, 2)),
        ..session
    };
    let report = build_digest(&[with_usage], NOW, None, WindowMode::All);
    let md = to_markdown(&report).to_lowercase();

    for forbidden in [
        "waste",
        "wasteful",
        "risk",
        "risky",
        "oversized",
        "dangerous",
    ] {
        assert!(
            !md.contains(forbidden),
            "digest markdown must not contain judgment word {forbidden:?}"
        );
    }
    // "bad" only as a standalone word (avoid false hits inside other words).
    assert!(
        !md.split(|c: char| !c.is_ascii_alphabetic())
            .any(|w| w == "bad"),
        "digest markdown must not use the word 'bad'"
    );
}

#[test]
fn empty_history_renders_without_panic() {
    let report = digest_all(&[]);
    assert_eq!(report.totals.sessions, 0);
    let md = to_markdown(&report);
    assert!(md.contains("_No sessions in this window._"));
}

#[test]
fn the_order_of_the_sessions_does_not_show() {
    let session = |which: usize| match which {
        0 => SessionInput {
            usage: Some(usage_with("m", u64::MAX, 1)),
            ..input(
                "a",
                NOW,
                vec![
                    write_file(NOW, "/w/one/x.rs", "/w/one"),
                    bash(NOW + 5, "git push --force", "/w/one"),
                ],
            )
        },
        1 => SessionInput {
            usage: Some(usage_with("k", 7, 8)),
            ..input("b", NOW, vec![hook_prompt(NOW, "/w/two")])
        },
        2 => SessionInput {
            usage: Some(usage_with("m", 3, 4)),
            ..input(
                "c",
                NOW,
                vec![
                    write_file(NOW, "/w/one/y.rs", "/w/one"),
                    write_file(NOW + 9, "/w/one/x.rs", "/w/one"),
                ],
            )
        },
        _ => input("d", NOW, vec![transcript_prompt(NOW)]),
    };
    let given = |order: [usize; 4]| {
        let inputs: Vec<SessionInput> = order.into_iter().map(session).collect();
        digest_all(&inputs)
    };
    let report = given([0, 1, 2, 3]);
    assert_eq!(report.totals.files_touched, 2);
    assert_eq!(report.totals.per_model[1].input_tokens, u64::MAX);
    let names: Vec<&str> = report.projects.iter().map(|p| p.name.as_str()).collect();
    assert_eq!(names, ["one", "two", "unknown project"]);
    for order in [[3, 2, 1, 0], [2, 0, 3, 1], [1, 3, 0, 2], [0, 2, 1, 3]] {
        assert_eq!(given(order), report);
    }
}
