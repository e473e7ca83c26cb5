use agent_witness::host::Host;
use agent_witness::init::{group_contains_own_command, plan_init, InitOutcome, EMIT_COMMAND};
use agent_witness::json::Json;
use agent_witness::messages::{report_init, InitReport};
use agent_witness::outside::parse;
use agent_witness::paths::{backup_name, resolve_settings_path};

const MANAGED: [(&str, bool); 6] = [
    ("SessionStart", false),
    ("UserPromptSubmit", false),
    ("PreToolUse", true),
    ("PostToolUse", true),
    ("Stop", false),
    ("SessionEnd", false),
];

fn host() -> Host {
    Host {
        name: "Example Host".to_string(),
        dir: ".host".to_string(),
        site: "host.example".to_string(),
    }
}

fn json(text: &str) -> Json {
    parse(text).expect("valid json")
}

fn groups<'a>(root: &'a Json, event: &str) -> &'a Vec<Json> {
    root.get("hooks").unwrap().get(event).unwrap().as_array().unwrap()
}

fn command(group: &Json) -> &str {
    group.get("hooks").unwrap().as_array().unwrap()[0].str_at("command").unwrap()
}

/// Number of groups registering our command across a whole event array.
fn own_group_count(root: &Json, event: &str) -> usize {
    match root.get("hooks").and_then(|h| h.get(event)).and_then(|e| e.as_array()) {
        Some(all) => all.iter().filter(|g| group_contains_own_command(g)).count(),
        None => 0,
    }
}

const USER_HOOKS: &str = r#"{
  "model": "opus",
  "hooks": {
    "PreToolUse": [
      { "matcher": "Bash", "hooks": [ { "type": "command", "command": "user-audit" } ] }
    ]
  }
}"#;

#[test]
fn install_into_missing_file_creates_all_events_without_backup() {
    let plan = plan_init(None, false).unwrap();
    assert_eq!(plan.outcome, InitOutcome::Installed);

    let root = json(&plan.text.unwrap());
    // PreToolUse / PostToolUse carry matcher "*"; Stop carries none.
    for (event, matched) in MANAGED {
        let group = &groups(&root, event)[0];
        assert_eq!(command(group), EMIT_COMMAND, "for {event}");
        let want = if matched { Some("*") } else { None };
        assert_eq!(group.str_at("matcher"), want, "for {event}");
    }
}

#[test]
fn install_into_existing_file_creates_backup() {
    let plan = plan_init(Some("{}\n"), false).unwrap();
    assert_eq!(plan.outcome, InitOutcome::Installed);
    assert!(plan.text.is_some());
    assert_eq!(
        backup_name("settings.json", 1_700_000_000_000),
        "settings.json.bak-1700000000000"
    );
}

#[test]
fn install_merges_and_preserves_user_hooks_and_unknown_fields() {
    let plan = plan_init(Some(USER_HOOKS), false).unwrap();
    assert_eq!(plan.outcome, InitOutcome::Installed);

    let root = json(&plan.text.unwrap());
    // Unknown top-level field preserved verbatim.
    assert_eq!(root.str_at("model"), Some("opus"));
    // User's PreToolUse group is intact...
    assert!(groups(&root, "PreToolUse").iter().any(|g| command(g) == "user-audit"));
    // ...and ours was appended alongside it.
    assert_eq!(own_group_count(&root, "PreToolUse"), 1);
    assert_eq!(own_group_count(&root, "PostToolUse"), 1);
    assert_eq!(own_group_count(&root, "Stop"), 1);
}

#[test]
fn install_is_idempotent() {
    let first = plan_init(None, false).unwrap().text.unwrap();
    let second = plan_init(Some(&first), false).unwrap();
    assert_eq!(second.outcome, InitOutcome::AlreadyInstalled);
    assert!(second.text.is_none(), "a no-op writes nothing");
    for (event, _) in MANAGED {
        assert_eq!(own_group_count(&json(&first), event), 1, "for {event}");
    }
}

#[test]
fn remove_strips_only_our_entries() {
    let installed = plan_init(Some(USER_HOOKS), false).unwrap().text.unwrap();
    let plan = plan_init(Some(&installed), true).unwrap();
    assert_eq!(plan.outcome, InitOutcome::Removed);

    let root = json(&plan.text.unwrap());
    // User group survives; ours is gone from PreToolUse.
    let pre = groups(&root, "PreToolUse");
    assert_eq!(pre.len(), 1);
    assert_eq!(command(&pre[0]), "user-audit");
    assert_eq!(own_group_count(&root, "PreToolUse"), 0);
    // Events that only ever held our entry are cleaned up entirely.
    assert!(root.get("hooks").unwrap().get("PostToolUse").is_none());
    assert!(root.get("hooks").unwrap().get("Stop").is_none());
    // What was there before is there again.
    assert_eq!(root, json(USER_HOOKS));
}

#[test]
fn remove_of_only_our_entries_clears_hooks_object() {
    let installed = plan_init(None, false).unwrap().text.unwrap();
    let plan = plan_init(Some(&installed), true).unwrap();
    assert_eq!(plan.outcome, InitOutcome::Removed);
    // Nothing of ours remains and the empty hooks container is dropped.
    assert_eq!(plan.text.as_deref(), Some("{}\n"));
}

#[test]
fn remove_with_no_entries_is_noop() {
    let plan = plan_init(Some(r#"{"model":"opus"}"#), true).unwrap();
    assert_eq!(plan.outcome, InitOutcome::NothingToRemove);
    assert!(plan.text.is_none());
}

#[test]
fn remove_on_missing_file_is_noop() {
    let plan = plan_init(None, true).unwrap();
    assert_eq!(plan.outcome, InitOutcome::NothingToRemove);
    assert!(plan.text.is_none(), "must not create a file on remove");
}

#[test]
fn broken_json_aborts_without_modifying_file() {
    let err = plan_init(Some("{ this is not json"), false).unwrap_err();
    assert!(err.message("/s.json").contains("not valid JSON"));
    assert!(err.message("/s.json").contains("/s.json"));
}

#[test]
fn non_object_json_aborts_without_modifying_file() {
    let err = plan_init(Some("[1, 2, 3]"), false).unwrap_err();
    assert!(err.message("/s.json").contains("not a JSON object"));
}

#[test]
fn hooks_of_another_shape_abort() {
    let err = plan_init(Some(r#"{"hooks": 3}"#), false).unwrap_err();
    assert!(err.message("/s").contains("`hooks` is present but is not a JSON object"));
    let err = plan_init(Some(r#"{"hooks": {"Stop": {}}}"#), false).unwrap_err();
    assert!(err.message("/s").contains("`hooks.Stop` is present but is not a JSON array"));
}

#[test]
fn an_empty_file_counts_as_empty_settings() {
    let plan = plan_init(Some("  \n"), false).unwrap();
    assert_eq!(plan.outcome, InitOutcome::Installed);
}

#[test]
fn resolve_settings_path_project_ends_in_claude_settings() {
    assert_eq!(resolve_settings_path("/p", &host()), "/p/.host/settings.json");
    assert_eq!(resolve_settings_path("/p/", &host()), "/p/.host/settings.json");
}

#[test]
fn init_reports_name_the_file_and_the_backup() {
    let mut report = InitReport {
        outcome: InitOutcome::Installed,
        backup: Some("/s.bak-1".to_string()),
    };
    assert_eq!(
        report_init("/s", &report),
        "Registered agent-witness hooks in /s\nBacked up previous settings to /s.bak-1\n"
    );
    report.backup = None;
    report.outcome = InitOutcome::AlreadyInstalled;
    assert_eq!(
        report_init("/s", &report),
        "agent-witness hooks already registered in /s; no changes\n"
    );
    report.outcome = InitOutcome::Removed;
    assert_eq!(report_init("/s", &report), "Removed agent-witness hooks from /s\n");
    report.outcome = InitOutcome::NothingToRemove;
    assert_eq!(
        report_init("/s", &report),
        "No agent-witness hooks found in /s; nothing to remove\n"
    );
}
