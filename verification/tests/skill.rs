use agent_witness::host::Host;
use agent_witness::paths::resolve_skill_path;
use agent_witness::skill::{plan_skill, skill_content, SkillFile, SkillOutcome, OWN_MARKER};

fn host() -> Host {
    Host {
        name: "Example Host".to_string(),
        dir: ".host".to_string(),
        site: "host.example".to_string(),
    }
}

fn bytes(text: &str) -> SkillFile {
    SkillFile::Bytes(text.as_bytes().to_vec())
}

#[test]
fn content_carries_marker_and_trust_boundary() {
    // The marker is what makes every ownership check work.
    let content = skill_content();
    assert!(content.contains(OWN_MARKER));
    assert!(content.contains("Trust boundary"));
    assert!(content.contains("not the trusted read path"));
}

#[test]
fn content_has_usage_audit_section_and_allows_audit_commands() {
    // The audit flow must be present, and the two aggregation commands it drives must
    // be pre-authorized in the frontmatter, while the report/ls grants stay intact.
    let content = skill_content();
    assert!(content.contains("## Usage audit"));
    assert!(content.contains("Bash(agent-witness report:*)"));
    assert!(content.contains("Bash(agent-witness ls:*)"));
    assert!(content.contains("Bash(agent-witness digest:*)"));
    assert!(content.contains("Bash(agent-witness inventory:*)"));
    // The facts-vs-judgment boundary must be explicit, not implied: the CLI gives
    // facts, the characterization is the agent's own.
    assert!(content.contains("FACTS ONLY"));
    assert!(content.contains("usage unavailable"));
}

#[test]
fn install_creates_file_and_is_idempotent() {
    let plan = plan_skill(&SkillFile::Absent, false);
    assert_eq!(plan.outcome, SkillOutcome::Installed);
    assert!(plan.backup.is_none());
    assert!(plan.write && !plan.delete);

    let again = plan_skill(&bytes(&skill_content()), false);
    assert_eq!(again.outcome, SkillOutcome::AlreadyInstalled);
    assert!(again.backup.is_none());
    assert!(!again.write && !again.delete);
}

#[test]
fn install_updates_outdated_managed_file_with_backup() {
    let old = format!("old version, {OWN_MARKER}\n");
    let plan = plan_skill(&bytes(&old), false);
    assert_eq!(plan.outcome, SkillOutcome::Updated);
    assert_eq!(plan.backup, Some(old));
    assert!(plan.write && !plan.delete);
}

#[test]
fn symlink_at_skill_path_is_foreign_even_when_dangling() {
    for remove in [false, true] {
        let plan = plan_skill(&SkillFile::Link, remove);
        assert_eq!(plan.outcome, SkillOutcome::SkippedForeign);
        assert!(!plan.write && !plan.delete);
    }
}

#[test]
fn non_utf8_file_is_foreign_not_an_error() {
    let plan = plan_skill(&SkillFile::Bytes(vec![0xC3u8, 0x28, 0xFF, 0xFE]), false);
    assert_eq!(plan.outcome, SkillOutcome::SkippedForeign);
    assert!(!plan.write && !plan.delete);
}

#[test]
fn install_never_touches_foreign_file() {
    let plan = plan_skill(&bytes("---\nname: witness\n---\nthe user's own skill\n"), false);
    assert_eq!(plan.outcome, SkillOutcome::SkippedForeign);
    assert!(plan.backup.is_none());
    assert!(!plan.write && !plan.delete);
}

#[test]
fn remove_deletes_pristine_file_without_backup_and_prunes_dir() {
    let plan = plan_skill(&bytes(&skill_content()), true);
    assert_eq!(plan.outcome, SkillOutcome::Removed);
    assert!(
        plan.backup.is_none(),
        "pristine content is re-creatable; no backup needed"
    );
    assert!(plan.delete && !plan.write);
}

#[test]
fn remove_backs_up_locally_edited_managed_file() {
    let edited = format!("{}\nuser tweak\n", skill_content());
    let plan = plan_skill(&bytes(&edited), true);
    assert_eq!(plan.outcome, SkillOutcome::Removed);
    assert_eq!(plan.backup, Some(edited));
    assert!(plan.delete && !plan.write);
}

#[test]
fn remove_never_touches_foreign_file() {
    let plan = plan_skill(&bytes("the user's own skill\n"), true);
    assert_eq!(plan.outcome, SkillOutcome::SkippedForeign);
    assert!(!plan.write && !plan.delete);
}

#[test]
fn remove_with_no_file_is_noop() {
    let plan = plan_skill(&SkillFile::Absent, true);
    assert_eq!(plan.outcome, SkillOutcome::NothingToRemove);
    assert!(!plan.write && !plan.delete);
}

#[test]
fn resolve_skill_path_project_ends_in_skill_file() {
    assert_eq!(resolve_skill_path("/p", &host()), "/p/.host/skills/witness/SKILL.md");
}
