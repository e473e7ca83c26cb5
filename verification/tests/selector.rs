use agent_witness::event::{AgentEvent, Attribution, EventKind, Source, CONFIDENCE_CERTAIN};
use agent_witness::json::{set_member, Json};
use agent_witness::liveness::DEFAULT_LIVE_WINDOW_MS;
use agent_witness::selector::{resolve, summarize, SelectorError, SessionSummary};

/// An object with these members.
fn obj(members: Vec<(&str, Json)>) -> Json {
    let mut all = Vec::new();
    for (name, value) in members {
        set_member(&mut all, name, value);
    }
    Json::Object(all)
}

fn text(value: &str) -> Json {
    Json::Str(value.to_string())
}

const NOW: i64 = 10_000_000;

fn event(ts: i64, kind: EventKind, cwd: Option<&str>) -> AgentEvent {
    let payload = match cwd {
        Some(c) => obj(vec![("cwd", text(c)), ("tool_name", text("Read"))]),
        None => obj(vec![("tool_name", text("Read"))]),
    };
    AgentEvent::new(
        ts,
        "s",
        Source::Hooks,
        kind,
        Attribution::Direct,
        CONFIDENCE_CERTAIN,
        payload,
    )
}

/// A started (but unstopped) summary with a single cwd and `last_event_ts`
/// = recency; its recent, non-`Stop` last event makes it a live candidate.
fn summary(id: &str, recency: i64, cwd: &str) -> SessionSummary {
    summarize(
        id,
        Some(recency),
        &[
            event(recency - 2, EventKind::SessionStart, Some(cwd)),
            event(recency - 1, EventKind::ToolCall, Some(cwd)),
            event(recency, EventKind::ToolResult, Some(cwd)),
        ],
    )
}

#[test]
fn summarize_extracts_cwds_stop_and_counts() {
    let events = vec![
        event(1, EventKind::SessionStart, Some("/a/proj")),
        event(2, EventKind::ToolCall, Some("/a/proj")),
        event(3, EventKind::ToolResult, Some("/a/proj")),
        event(4, EventKind::Stop, Some("/a/proj")),
    ];
    let s = summarize("sess", Some(0), &events);
    assert_eq!(s.cwds, vec!["/a/proj"]);
    assert!(s.has_start);
    // The last event here is the Stop, so the session reads as between-turns.
    assert!(s.last_is_stop);
    assert_eq!(s.tool_calls, 1);
    assert_eq!(s.event_count, 4);
    assert_eq!(s.first_event_ts, Some(1));
    assert_eq!(s.last_event_ts, Some(4));
    assert_eq!(s.recency_ms(), 4);
    assert_eq!(s.started_ms(), Some(0));
}

#[test]
fn summarize_keys_end_state_on_last_hook_event_not_transcript_supplements() {
    // Transcript ingest runs right after the Stop/SessionEnd record lands
    // (emit/watch), appending observed events after it in file order. Those
    // supplements must not mask the directly observed end state.
    let mut end = event(4, EventKind::SessionEnd, Some("/a/proj"));
    end.payload = obj(vec![("reason", text("logout"))]);
    let transcript_supplement = AgentEvent::new(
        3,
        "s",
        Source::Transcript,
        EventKind::Prompt,
        Attribution::Observed,
        CONFIDENCE_CERTAIN,
        obj(vec![("text", text("assistant prose"))]),
    );
    let events = vec![
        event(1, EventKind::ToolCall, Some("/a/proj")),
        end,
        transcript_supplement,
    ];
    let s = summarize("sess", Some(0), &events);
    assert!(
        s.last_is_session_end,
        "a trailing transcript event must not mask SessionEnd"
    );
    assert!(!s.last_is_stop);

    // Same masking rule for the per-turn Stop.
    let events = vec![
        event(1, EventKind::ToolCall, Some("/a/proj")),
        event(4, EventKind::Stop, Some("/a/proj")),
        AgentEvent::new(
            3,
            "s",
            Source::Transcript,
            EventKind::Prompt,
            Attribution::Observed,
            CONFIDENCE_CERTAIN,
            obj(vec![("text", text("assistant prose"))]),
        ),
    ];
    let s = summarize("sess", Some(0), &events);
    assert!(
        s.last_is_stop,
        "a trailing transcript event must not mask Stop"
    );
}

#[test]
fn empty_selection_errors_when_no_sessions() {
    assert_eq!(
        resolve(&[], None, "/x", NOW),
        Err(SelectorError::NoSessions)
    );
}

#[test]
fn no_arg_default_prefers_current_cwd_latest() {
    let sessions = vec![
        summary("old-here", 100, "/home/me/proj"),
        summary("newest-elsewhere", 500, "/home/me/other"),
        summary("newer-here", 300, "/home/me/proj"),
    ];
    let r = resolve(&sessions, None, "/home/me/proj", NOW).unwrap();
    assert_eq!(r.session_id, "newer-here");
    assert!(!r.cwd_fallback);
}

#[test]
fn no_arg_default_matches_nested_directory() {
    let sessions = vec![summary("s", 100, "/home/me/proj")];
    // Running from a subdirectory still belongs to the project.
    let r = resolve(&sessions, None, "/home/me/proj/crates/core", NOW).unwrap();
    assert_eq!(r.session_id, "s");
    assert!(!r.cwd_fallback);
}

#[test]
fn no_arg_default_falls_back_to_global_latest_with_flag() {
    let sessions = vec![
        summary("a", 100, "/somewhere/else"),
        summary("b", 900, "/another/place"),
    ];
    let r = resolve(&sessions, None, "/home/me/proj", NOW).unwrap();
    assert_eq!(r.session_id, "b");
    assert!(r.cwd_fallback);
}

#[test]
fn sibling_directory_is_not_a_prefix_match() {
    let sessions = vec![
        summary("proj", 100, "/a/proj"),
        summary("global-new", 200, "/z/z"),
    ];
    // `/a/project` must not match the session recorded at `/a/proj`.
    let r = resolve(&sessions, None, "/a/project", NOW).unwrap();
    assert_eq!(r.session_id, "global-new");
    assert!(r.cwd_fallback);
}

#[test]
fn running_from_filesystem_root_matches_any_session() {
    // `/` nests every absolute path; the fallback note must not fire.
    let sessions = vec![summary("s", 100, "/home/me/proj")];
    let r = resolve(&sessions, None, "/", NOW).unwrap();
    assert_eq!(r.session_id, "s");
    assert!(!r.cwd_fallback);
}

#[test]
fn at_last_and_ordinals_select_by_recency() {
    let sessions = vec![
        summary("first", 100, "/p"),
        summary("second", 200, "/p"),
        summary("third", 300, "/p"),
    ];
    assert_eq!(
        resolve(&sessions, Some("@last"), "/p", NOW)
            .unwrap()
            .session_id,
        "third"
    );
    assert_eq!(
        resolve(&sessions, Some("@1"), "/p", NOW)
            .unwrap()
            .session_id,
        "third"
    );
    assert_eq!(
        resolve(&sessions, Some("@2"), "/p", NOW)
            .unwrap()
            .session_id,
        "second"
    );
    assert_eq!(
        resolve(&sessions, Some("@3"), "/p", NOW)
            .unwrap()
            .session_id,
        "first"
    );
}

#[test]
fn ordinal_out_of_range_reports_available() {
    let sessions = vec![summary("only", 1, "/p")];
    assert_eq!(
        resolve(&sessions, Some("@2"), "/p", NOW),
        Err(SelectorError::OutOfRange {
            selector: "@2".to_string(),
            available: 1,
        })
    );
}

#[test]
fn project_selector_substring_matches_latest() {
    let sessions = vec![
        summary("old-avvy", 100, "/work/avvy-core"),
        summary("new-witness", 500, "/work/agent-witness"),
        summary("new-avvy", 300, "/work/avvy-app"),
    ];
    let r = resolve(&sessions, Some("@project:avvy"), "/x", NOW).unwrap();
    assert_eq!(r.session_id, "new-avvy");
}

#[test]
fn project_selector_no_match_errors() {
    let sessions = vec![summary("s", 1, "/work/thing")];
    assert_eq!(
        resolve(&sessions, Some("@project:nope"), "/x", NOW),
        Err(SelectorError::NoMatch {
            selector: "@project:nope".to_string(),
        })
    );
}

#[test]
fn empty_project_substring_is_invalid() {
    let sessions = vec![summary("s", 1, "/p")];
    assert_eq!(
        resolve(&sessions, Some("@project:"), "/x", NOW),
        Err(SelectorError::InvalidSelector("@project:".to_string()))
    );
}

#[test]
fn live_selector_uses_liveness_rule() {
    // "stopped" has a Stop → not live; "stale" is beyond the window → not
    // live; "live-*" are within the window, started, with no Stop.
    let stopped = summarize(
        "stopped",
        Some(NOW),
        &[
            event(NOW - 1, EventKind::SessionStart, Some("/p")),
            event(NOW, EventKind::Stop, Some("/p")),
        ],
    );
    let stale = summary("stale", NOW - DEFAULT_LIVE_WINDOW_MS - 1, "/p");
    let live_older = summary("live-older", NOW - 1_000, "/p");
    let live_newer = summary("live-newer", NOW - 10, "/p");
    let sessions = vec![stopped, stale, live_older, live_newer];

    assert_eq!(
        resolve(&sessions, Some("@live:1"), "/p", NOW)
            .unwrap()
            .session_id,
        "live-newer"
    );
    assert_eq!(
        resolve(&sessions, Some("@live:2"), "/p", NOW)
            .unwrap()
            .session_id,
        "live-older"
    );
    assert_eq!(
        resolve(&sessions, Some("@live:3"), "/p", NOW),
        Err(SelectorError::OutOfRange {
            selector: "@live:3".to_string(),
            available: 2,
        })
    );
}

#[test]
fn live_selector_no_live_sessions_errors() {
    let stopped = summarize(
        "stopped",
        Some(NOW),
        &[event(NOW, EventKind::Stop, Some("/p"))],
    );
    assert_eq!(
        resolve(&[stopped], Some("@live:1"), "/p", NOW),
        Err(SelectorError::NoMatch {
            selector: "@live:1".to_string(),
        })
    );
}

#[test]
fn live_selector_includes_session_without_session_start() {
    // A session recorded with fewer hooks registered has no SessionStart,
    // yet its recent, unstopped last event must still read as live.
    let no_start = summarize(
        "no-start",
        Some(NOW),
        &[
            event(NOW - 1, EventKind::ToolCall, Some("/p")),
            event(NOW, EventKind::ToolResult, Some("/p")),
        ],
    );
    assert!(!no_start.has_start);
    assert_eq!(
        resolve(&[no_start], Some("@live:1"), "/p", NOW)
            .unwrap()
            .session_id,
        "no-start"
    );
}

#[test]
fn prefix_exact_and_unique_match() {
    let sessions = vec![summary("abc123", 1, "/p"), summary("def456", 2, "/p")];
    // Exact.
    assert_eq!(
        resolve(&sessions, Some("abc123"), "/p", NOW)
            .unwrap()
            .session_id,
        "abc123"
    );
    // Unique prefix.
    assert_eq!(
        resolve(&sessions, Some("def"), "/p", NOW)
            .unwrap()
            .session_id,
        "def456"
    );
}

#[test]
fn ambiguous_prefix_lists_sorted_candidates() {
    let sessions = vec![
        summary("sess-b", 1, "/p"),
        summary("sess-a", 2, "/p"),
        summary("other", 3, "/p"),
    ];
    assert_eq!(
        resolve(&sessions, Some("sess-"), "/p", NOW),
        Err(SelectorError::AmbiguousPrefix {
            prefix: "sess-".to_string(),
            candidates: vec!["sess-a".to_string(), "sess-b".to_string()],
        })
    );
}

#[test]
fn unknown_prefix_is_no_match() {
    let sessions = vec![summary("real", 1, "/p")];
    assert_eq!(
        resolve(&sessions, Some("ghost"), "/p", NOW),
        Err(SelectorError::NoMatch {
            selector: "ghost".to_string(),
        })
    );
}

#[test]
fn malformed_at_selectors_are_invalid() {
    let sessions = vec![summary("s", 1, "/p")];
    for bad in ["@", "@0", "@x", "@1x", "@live:x", "@live:0"] {
        assert!(
            matches!(
                resolve(&sessions, Some(bad), "/p", NOW),
                Err(SelectorError::InvalidSelector(_))
            ),
            "expected invalid selector for {bad:?}"
        );
    }
}

#[test]
fn selector_errors_say_what_is_wrong() {
    assert_eq!(
        SelectorError::NoSessions.message(),
        "no sessions recorded yet"
    );
    let none = SelectorError::NoMatch {
        selector: "ghost".to_string(),
    };
    assert!(none.message().contains("ghost"));
    let many = SelectorError::AmbiguousPrefix {
        prefix: "sess-".to_string(),
        candidates: vec!["sess-a".to_string(), "sess-b".to_string()],
    };
    assert!(many.message().contains("sess-a"));
    assert!(many.message().contains("sess-b"));
}

#[test]
fn a_session_is_idle_between_turns_and_live_again_with_the_next_event() {
    let mut events = vec![
        event(NOW - 30, EventKind::SessionStart, Some("/p")),
        event(NOW - 20, EventKind::ToolCall, Some("/p")),
    ];
    assert!(summarize("s", None, &events).is_live(NOW));
    events.push(event(NOW - 10, EventKind::Stop, Some("/p")));
    assert!(!summarize("s", None, &events).is_live(NOW));
    events.push(event(NOW - 5, EventKind::Prompt, Some("/p")));
    assert!(summarize("s", None, &events).is_live(NOW));
    assert!(!summarize("s", None, &events).is_live(NOW + DEFAULT_LIVE_WINDOW_MS));
    events.push(event(NOW, EventKind::SessionEnd, Some("/p")));
    assert!(!summarize("s", None, &events).is_live(NOW));
}
