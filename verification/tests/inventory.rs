use agent_witness::event::{AgentEvent, Attribution, EventKind, Source, CONFIDENCE_CERTAIN};
use agent_witness::json::{set_member, Json};
use agent_witness::host::Host;
use agent_witness::inventory::{
    build_inventory, collect_used, mcp_server_from_tool, read_claude_json_mcp, read_configured_mcp,
    read_configured_skills, read_mcp_json, read_skills_source, to_markdown, Completeness,
    ConfiguredSource, DirEntry, DirRead, FileRead, SourceRead, SourceStatus, UsedObservation,
};
use agent_witness::relative::parse_relative_ms;
use agent_witness::selector::RecordedSession;

fn host() -> Host {
    Host {
        name: "Example Host".to_string(),
        dir: ".host".to_string(),
        site: "host.example".to_string(),
    }
}

/// An object with these members.
fn obj(members: Vec<(&str, Json)>) -> Json {
    let mut all = Vec::new();
    for (name, value) in members {
        set_member(&mut all, name, value);
    }
    Json::Object(all)
}

fn text(value: &str) -> Json {
    Json::Str(value.to_string())
}

const NOW: i64 = 1_700_000_000_000;
const DAY_MS: i64 = 86_400_000;

// --- helpers ----------------------------------------------------------

fn read_source_of(source: ConfiguredSource, names: &[&str]) -> SourceRead {
    SourceRead {
        source,
        status: SourceStatus::Read { count: names.len() },
        names: names.iter().map(|s| s.to_string()).collect(),
    }
}

fn obs(name: &str, ts_ms: i64) -> UsedObservation {
    UsedObservation {
        name: name.to_string(),
        ts_ms,
    }
}

fn tool_call(ts: i64, payload: Json) -> AgentEvent {
    AgentEvent::new(
        ts,
        "s",
        Source::Hooks,
        EventKind::ToolCall,
        Attribution::Direct,
        CONFIDENCE_CERTAIN,
        payload,
    )
}

// --- pure aggregator --------------------------------------------------

#[test]
fn configured_but_never_used_lands_in_configured_not_used() {
    // Arrange: one MCP server configured, no usage anywhere.
    let mcp = vec![read_source_of(ConfiguredSource::McpUserGlobal, &["redash"])];
    // Act
    let report = build_inventory(mcp, vec![], vec![], vec![], NOW, None);
    // Assert
    assert_eq!(report.mcp.configured.len(), 1);
    assert_eq!(report.mcp.used.len(), 0);
    assert_eq!(report.mcp.configured_not_used.len(), 1);
    assert_eq!(report.mcp.configured_not_used[0].name, "redash");
    assert!(report.mcp.used_not_configured.is_empty());
    assert_eq!(report.completeness, Completeness::Complete);
}

#[test]
fn used_but_not_configured_lands_in_used_not_configured_neutrally() {
    // Arrange: a UUID-named server used, nothing configured.
    let used = vec![obs("some-uuid-server", NOW)];
    // Act
    let report = build_inventory(vec![], vec![], used, vec![], NOW, None);
    // Assert
    assert!(report.mcp.configured.is_empty());
    assert_eq!(report.mcp.used_not_configured.len(), 1);
    assert_eq!(report.mcp.used_not_configured[0].name, "some-uuid-server");
    assert!(report.mcp.configured_not_used.is_empty());
}

#[test]
fn configured_and_used_appears_in_neither_diff() {
    let mcp = vec![read_source_of(ConfiguredSource::McpUserGlobal, &["cmux"])];
    let used = vec![obs("cmux", NOW), obs("cmux", NOW - 10)];
    let report = build_inventory(mcp, vec![], used, vec![], NOW, None);
    assert_eq!(report.mcp.configured.len(), 1);
    assert_eq!(report.mcp.used.len(), 1);
    assert_eq!(report.mcp.used[0].call_count, 2);
    assert!(report.mcp.configured_not_used.is_empty());
    assert!(report.mcp.used_not_configured.is_empty());
}

#[test]
fn everything_empty_yields_an_empty_complete_report() {
    let report = build_inventory(vec![], vec![], vec![], vec![], NOW, None);
    assert!(report.mcp.configured.is_empty());
    assert!(report.mcp.used.is_empty());
    assert!(report.skills.configured.is_empty());
    assert!(report.skills.used.is_empty());
    assert_eq!(report.completeness, Completeness::Complete);
}

#[test]
fn window_filter_excludes_usage_before_since() {
    // Arrange: "old" used 40d ago, "fresh" used now. Window = last 30d.
    let used = vec![obs("old", NOW - 40 * DAY_MS), obs("fresh", NOW)];
    let since = NOW - 30 * DAY_MS;
    // Act
    let report = build_inventory(vec![], vec![], used, vec![], NOW, Some(since));
    // Assert: only "fresh" survives the window.
    assert_eq!(report.mcp.used.len(), 1);
    assert_eq!(report.mcp.used[0].name, "fresh");
}

#[test]
fn used_counts_and_last_used_are_correct() {
    // Arrange: three calls, last one the most recent.
    let used = vec![
        obs("srv", NOW - 100),
        obs("srv", NOW - 50),
        obs("srv", NOW - 10),
    ];
    // Act
    let report = build_inventory(vec![], vec![], used, vec![], NOW, None);
    // Assert
    assert_eq!(report.mcp.used.len(), 1);
    assert_eq!(report.mcp.used[0].call_count, 3);
    assert_eq!(report.mcp.used[0].last_used_ms, NOW - 10);
}

#[test]
fn used_is_sorted_by_call_count_desc_then_name() {
    let used = vec![
        obs("a", NOW),
        obs("b", NOW),
        obs("b", NOW),
        obs("c", NOW),
        obs("c", NOW),
    ];
    let report = build_inventory(vec![], vec![], used, vec![], NOW, None);
    let order: Vec<&str> = report.mcp.used.iter().map(|u| u.name.as_str()).collect();
    // b and c both have 2 calls (name tiebreak → b before c), then a with 1.
    assert_eq!(order, vec!["b", "c", "a"]);
}

#[test]
fn a_server_configured_in_two_sources_lists_both() {
    let mcp = vec![
        read_source_of(ConfiguredSource::McpUserGlobal, &["shared"]),
        read_source_of(ConfiguredSource::McpProjectFile, &["shared"]),
    ];
    let report = build_inventory(mcp, vec![], vec![], vec![], NOW, None);
    assert_eq!(report.mcp.configured.len(), 1);
    assert_eq!(
        report.mcp.configured[0].sources,
        vec![
            ConfiguredSource::McpUserGlobal,
            ConfiguredSource::McpProjectFile
        ]
    );
}

#[test]
fn a_parse_failed_source_flips_completeness_to_partial() {
    let mcp = vec![SourceRead {
        source: ConfiguredSource::McpProjectFile,
        status: SourceStatus::ParseFailed {
            reason: "bad json".to_string(),
        },
        names: Vec::new(),
    }];
    let report = build_inventory(mcp, vec![], vec![], vec![], NOW, None);
    assert_eq!(report.completeness, Completeness::Partial);
}

#[test]
fn a_missing_source_does_not_flip_completeness() {
    let mcp = vec![SourceRead {
        source: ConfiguredSource::McpProjectFile,
        status: SourceStatus::Missing,
        names: Vec::new(),
    }];
    let report = build_inventory(mcp, vec![], vec![], vec![], NOW, None);
    assert_eq!(report.completeness, Completeness::Complete);
}

// --- MCP tool_name parser --------------------------------------------

#[test]
fn mcp_parser_handles_hyphens_underscores_uuids_and_malformed() {
    assert_eq!(
        mcp_server_from_tool("mcp__mobile-mcp__mobile_take_screenshot").as_deref(),
        Some("mobile-mcp")
    );
    assert_eq!(
        mcp_server_from_tool("mcp__claude_ai_Notion__notion-fetch").as_deref(),
        Some("claude_ai_Notion")
    );
    assert_eq!(
        mcp_server_from_tool("mcp__9f8c1e2a-3b4d-4e5f-8a9b-0c1d2e3f4a5b__do").as_deref(),
        Some("9f8c1e2a-3b4d-4e5f-8a9b-0c1d2e3f4a5b")
    );
    // Malformed: no server / no server__tool boundary → skipped.
    assert_eq!(mcp_server_from_tool("mcp__"), None);
    assert_eq!(mcp_server_from_tool("mcp__srv"), None);
    assert_eq!(mcp_server_from_tool("mcp____tool"), None);
    // Non-MCP tool names are ignored.
    assert_eq!(mcp_server_from_tool("Bash"), None);
    assert_eq!(mcp_server_from_tool("Skill"), None);
}

// --- since parser -----------------------------------------------------

#[test]
fn parse_relative_ms_accepts_each_unit() {
    assert_eq!(parse_relative_ms("45s").unwrap(), 45 * 1_000);
    assert_eq!(parse_relative_ms("90m").unwrap(), 90 * 60 * 1_000);
    assert_eq!(parse_relative_ms("24h").unwrap(), 24 * 3_600 * 1_000);
    assert_eq!(parse_relative_ms("30d").unwrap(), 30 * 86_400 * 1_000);
    assert_eq!(parse_relative_ms("2w").unwrap(), 2 * 7 * 86_400 * 1_000);
    assert_eq!(parse_relative_ms(" 7d ").unwrap(), 7 * 86_400 * 1_000);
}

#[test]
fn parse_relative_ms_rejects_malformed() {
    for bad in ["", "d", "30", "3.5d", "30x", "-5d", "abc", "30dd"] {
        assert!(
            parse_relative_ms(bad).is_err(),
            "expected error for {bad:?}"
        );
    }
}

// --- used aggregation -------------------------------------------------

#[test]
fn collect_used_extracts_mcp_and_skill_calls_and_skips_the_rest() {
    // A session with an MCP call, a Skill call, a Skill call with no skill field (the
    // post/other side), a malformed mcp name, and a plain tool. Only the MCP and the
    // well-formed Skill call should be collected.
    let session = RecordedSession {
        id: "sess".to_string(),
        created_ts: Some(NOW),
        events: vec![
            tool_call(
                NOW,
                obj(vec![
                    ("tool_name", text("mcp__cmux__list_agents")),
                    ("tool_use_id", text("a")),
                ]),
            ),
            tool_call(
                NOW + 1,
                obj(vec![
                    ("tool_name", text("Skill")),
                    ("tool_input", obj(vec![("skill", text("review"))])),
                ]),
            ),
            tool_call(
                NOW + 2,
                obj(vec![("tool_name", text("Skill")), ("tool_input", obj(vec![]))]),
            ),
            tool_call(NOW + 3, obj(vec![("tool_name", text("mcp__"))])),
            tool_call(
                NOW + 4,
                obj(vec![
                    ("tool_name", text("Bash")),
                    ("tool_input", obj(vec![("command", text("ls"))])),
                ]),
            ),
        ],
        skipped_lines: 0,
    };

    let (mcp, skills) = collect_used(&[session]);

    assert_eq!(mcp.len(), 1);
    assert_eq!(mcp[0].name, "cmux");
    assert_eq!(mcp[0].ts_ms, NOW);
    assert_eq!(skills.len(), 1);
    assert_eq!(skills[0].name, "review");
}

// --- config readers ---------------------------------------------------

fn file(content: &str) -> FileRead {
    FileRead::Bytes(content.as_bytes().to_vec())
}

#[test]
fn claude_json_yields_server_keys_and_never_retains_values() {
    // The file of servers, with a secret env value.
    let content = r#"{
        "mcpServers": {
            "global-srv": {"command": "x", "env": {"TOKEN": "SUPERSECRET"}}
        },
        "projects": {
            "/home/me/proj": {
                "mcpServers": {
                    "proj-srv": {"command": "y", "env": {"KEY": "ANOTHERSECRET"}}
                }
            }
        }
    }"#;

    let sources = read_configured_mcp(&file(content), &FileRead::Missing, "/home/me/proj");

    // Correct keys, and the secret never appears in the source data.
    let global = &sources[0];
    let project = &sources[1];
    assert_eq!(global.names, vec!["global-srv"]);
    assert_eq!(project.names, vec!["proj-srv"]);
    let shown = format!("{sources:?}");
    assert!(!shown.contains("SUPERSECRET"));
    assert!(!shown.contains("ANOTHERSECRET"));
    assert!(!shown.contains("TOKEN"));
    assert!(!shown.contains("command"));
}

#[test]
fn mcp_json_present_and_missing_produce_read_and_missing() {
    // Missing .mcp.json → Missing status.
    let sources = read_configured_mcp(&FileRead::Missing, &FileRead::Missing, "/proj");
    assert!(matches!(sources[2].status, SourceStatus::Missing));

    // Present .mcp.json → Read with its keys.
    let present = file(r#"{"mcpServers": {"proj-file-srv": {"command": "z"}}}"#);
    let sources = read_configured_mcp(&FileRead::Missing, &present, "/proj");
    assert_eq!(sources[2].names, vec!["proj-file-srv"]);
    assert!(matches!(sources[2].status, SourceStatus::Read { count: 1 }));
}

#[test]
fn mcp_json_missing_unreadable_and_parse_failed_are_distinct() {
    assert!(matches!(
        read_mcp_json(&FileRead::Missing).status,
        SourceStatus::Missing
    ));
    assert_eq!(
        read_mcp_json(&FileRead::Failed("Is a directory".to_string())).status,
        SourceStatus::Unreadable {
            reason: "Is a directory".to_string()
        }
    );
    assert!(matches!(
        read_mcp_json(&file("{ not valid json")).status,
        SourceStatus::ParseFailed { .. }
    ));
}

#[test]
fn claude_json_missing_makes_both_derived_sources_missing() {
    let (user, project) = read_claude_json_mcp(&FileRead::Missing, "/proj");
    assert!(matches!(user.status, SourceStatus::Missing));
    assert!(matches!(project.status, SourceStatus::Missing));
}

#[test]
fn claude_json_parse_failure_marks_both_derived_sources_parse_failed() {
    let sources = read_configured_mcp(&file("{ broken"), &FileRead::Missing, "/proj");
    assert!(matches!(
        sources[0].status,
        SourceStatus::ParseFailed { .. }
    ));
    assert!(matches!(
        sources[1].status,
        SourceStatus::ParseFailed { .. }
    ));
}

#[test]
fn skills_dir_counts_only_subdirs_with_skill_md() {
    // User skills: one valid, one without SKILL.md.
    let user = DirRead::Entries(vec![
        DirEntry::Named(Some("witness".to_string()), true),
        DirEntry::Named(Some("empty-dir".to_string()), false),
    ]);
    let sources = read_configured_skills(&user, &DirRead::Missing);
    assert_eq!(sources[0].source, ConfiguredSource::SkillsUser);
    assert_eq!(sources[0].names, vec!["witness"]);
    // Project skills dir absent → Missing.
    assert!(matches!(sources[1].status, SourceStatus::Missing));
}

#[test]
fn skills_root_that_is_a_file_is_unreadable_not_empty() {
    let source = read_skills_source(
        ConfiguredSource::SkillsUser,
        &DirRead::Failed("Not a directory".to_string()),
    );
    assert!(matches!(source.status, SourceStatus::Unreadable { .. }));
    assert!(source.status.is_broken());
    let torn = DirRead::Entries(vec![
        DirEntry::Named(Some("witness".to_string()), true),
        DirEntry::Failed("gone".to_string()),
    ]);
    let source = read_skills_source(ConfiguredSource::SkillsUser, &torn);
    assert!(source.status.is_broken());
}

// --- rendering --------------------------------------------------------

#[test]
fn markdown_uses_factual_labels_and_avoids_bare_prune_wording() {
    let mcp = vec![read_source_of(
        ConfiguredSource::McpUserGlobal,
        &["idle-srv"],
    )];
    let report = build_inventory(mcp, vec![], vec![], vec![], NOW, None);
    let md = to_markdown(&report, &host());
    assert!(md.contains("Configured now, not observed used"));
    assert!(md.contains("Observed used in all recorded history, not configured now"));
    // Neutral header — never a bare "unused".
    assert!(!md.contains("### Unused"));
    // The one advisory line is allowed and clearly labelled.
    assert!(md.contains("Review for pruning: idle-srv"));
    // Scope note honesty markers.
    assert!(md.contains("never attributed as an agent action"));
    assert!(md.contains("never read"));
    assert!(md.contains("server names"));
}

#[test]
fn partial_completeness_adds_a_scope_caveat_line() {
    let mcp = vec![SourceRead {
        source: ConfiguredSource::McpProjectFile,
        status: SourceStatus::ParseFailed {
            reason: "x".to_string(),
        },
        names: Vec::new(),
    }];
    let report = build_inventory(mcp, vec![], vec![], vec![], NOW, None);
    let md = to_markdown(&report, &host());
    assert!(md.contains("Completeness: partial"));
    assert!(md.contains("may be incomplete"));
}

#[test]
fn a_bad_span_is_quoted() {
    assert_eq!(
        parse_relative_ms("30x").unwrap_err().message(),
"invalid --since value \"30x\": expected a number followed by a unit (s, m, h, d, w), e.g. 30d"
    );
}

#[test]
fn sources_are_labelled_by_the_files_of_the_host() {
    let labels: Vec<String> = [
        ConfiguredSource::McpUserGlobal,
        ConfiguredSource::McpUserProject,
        ConfiguredSource::McpProjectFile,
        ConfiguredSource::SkillsUser,
        ConfiguredSource::SkillsProject,
    ]
    .iter()
    .map(|s| s.label(&host()))
    .collect();
    assert_eq!(
        labels,
        vec![
            "~/.host.json .mcpServers (user-global)",
            "~/.host.json .projects[cwd].mcpServers (user, this project)",
            "./.mcp.json .mcpServers (project file)",
            "~/.host/skills/*/ (user)",
            "./.host/skills/*/ (project)",
        ]
    );
    let report = build_inventory(vec![], vec![], vec![], vec![], NOW, None);
    let md = to_markdown(&report, &host());
    assert!(md.contains("or host.example-connected servers"));
    assert!(md.contains("(Example Host hook tool calls)"));
}

#[test]
fn an_absurd_span_is_as_great_as_can_be() {
    assert_eq!(parse_relative_ms("9223372036854775807s").unwrap(), i64::MAX);
    assert_eq!(parse_relative_ms("9223372036854775808s").unwrap(), i64::MAX);
    assert_eq!(parse_relative_ms("99999999999999999999999999999999999999999w").unwrap(), i64::MAX);
    assert_eq!(parse_relative_ms("00000000000000000000000000000000000000007d").unwrap(), 604_800_000);
    assert_eq!(parse_relative_ms("9223372036854775s").unwrap(), 9_223_372_036_854_775_000);
    assert_eq!(parse_relative_ms("9223372036854776s").unwrap(), i64::MAX);
}
