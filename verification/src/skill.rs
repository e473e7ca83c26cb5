//! The skill that lets a session ask for the record, and its file.
//!
//! A file without our mark is never touched. One with it is ours to manage, and is
//! kept as a backup where its contents are not those that can be written again.
use vstd::prelude::*;

use vstd::utf8::{decode_utf8, valid_utf8};

use crate::outside::text_of_bytes;
use crate::text::{contains_text, has_text, occurs_at, opt_view, same};

verus! {

/// What marks the file as ours.
pub const OWN_MARKER: &'static str = "managed by agent-witness init";

/// The contents of the file, ahead of the mark.
pub const SKILL_HEAD: &'static str = "---
name: witness
description: \"Query the local agent-witness audit record: summarize what a recorded agent session actually did (tool calls, files, commands) by running the agent-witness CLI\"
argument-hint: \"[session selector: @last, @2, @project:<name>, @live:1, id prefix — or empty for this directory's latest]\"
user-invocable: true
allowed-tools:
  - Bash(agent-witness report:*)
  - Bash(agent-witness ls:*)
  - Bash(agent-witness digest:*)
  - Bash(agent-witness inventory:*)
---

<!-- ";

/// The contents of the file, behind the mark.
pub const SKILL_TAIL: &'static str = "; re-running `agent-witness init` may overwrite
     this file (a timestamped backup is kept). Remove it with
     `agent-witness init --remove`. -->

# /witness — query the agent-witness audit record

Answer the user's question about what a recorded agent session actually did by
querying the local agent-witness store. Every claim must come from command
output — never from memory of the conversation.

**Arguments:** $ARGUMENTS

## How

1. Run `agent-witness report $ARGUMENTS` (with no argument it reports the
   latest session recorded from the current directory). Add `--json` when you
   need to count or aggregate rather than quote.
2. To find a session first, run `agent-witness ls` and pick a selector
   (`@last`, `@2`, `@project:<substring>`, `@live:1`, or an id prefix).
3. Summarize honestly: which tools ran, which files were touched, which
   commands executed. Keep each event's attribution (`direct | observed |
   inferred`) visible when it matters — never present an `inferred` event as an
   observed fact.

## Usage audit

When asked to audit AI usage — wasteful loops, model choices, per-project
delegation — aggregate the record instead of quoting a single session:

1. Run `agent-witness digest` (`--week`, `--today`, or `--since <dur>`; add
   `--json` to aggregate) for a cross-session, per-project ledger: sessions,
   durations, tool calls, commands, destructive-class command-flag counts, and
   per-model token totals.
2. Run `agent-witness inventory` for the capability surface — which configured
   MCP servers and skills were actually used versus merely configured.
3. Summarize HONESTLY. The CLI gives FACTS ONLY; any \"wasteful\", \"oversized\", or
   \"risky\" characterization is YOUR interpretation — say so, and never present it
   as a CLI claim. A missing usage sidecar means \"usage unavailable\", not zero
   tokens.

For an unattended, scheduled weekly version of this audit, see
`docs/recipes/scheduled-audit.md`.

## Trust boundary

This skill is a convenience view, **not the trusted read path**. The agent
summarizing the record here is the same kind of agent the record observes. For
incident review — e.g. suspected prompt injection — do not rely on an agent's
narration of its own audit trail: open the record directly in your own
terminal with `agent-witness show <selector>` or `agent-witness report
<selector>`.
";

/// The contents of the file.
pub open spec fn skill_text() -> Seq<char> {
    SKILL_HEAD@ + OWN_MARKER@ + SKILL_TAIL@
}

/// The contents of the file.
pub fn skill_content() -> (out: String)
    ensures
        out@ == skill_text(),
{
    SKILL_HEAD.to_owned().concat(OWN_MARKER).concat(SKILL_TAIL)
}

/// What happened to the skill.
#[derive(Debug, Clone, Copy, PartialEq, Eq, Structural)]
pub enum SkillOutcome {
    /// The file was made.
    Installed,
    /// The file had other contents, and was written anew.
    Updated,
    /// The file was there.
    AlreadyInstalled,
    /// The file was removed.
    Removed,
    /// There was no file.
    NothingToRemove,
    /// There is a file that is not ours, and was left alone.
    SkippedForeign,
}

/// What is at the path of the skill.
#[derive(Debug)]
pub enum SkillFile {
    /// Nothing.
    Absent,
    /// A symbolic link.
    Link,
    /// A file, with its bytes.
    Bytes(Vec<u8>),
}

/// What is to be done with the file.
#[derive(Debug, Clone, PartialEq, Eq)]
pub struct SkillPlan {
    /// What happens to the skill.
    pub outcome: SkillOutcome,
    /// The contents to keep as a backup first, if any.
    pub backup: Option<String>,
    /// Whether to write the skill.
    pub write: bool,
    /// Whether to delete the file.
    pub delete: bool,
}

/// The contents of a [`SkillPlan`].
pub ghost struct SkillPlanV {
    pub outcome: SkillOutcome,
    pub backup: Option<Seq<char>>,
    pub write: bool,
    pub delete: bool,
}

impl View for SkillPlan {
    type V = SkillPlanV;

    open spec fn view(&self) -> SkillPlanV {
        SkillPlanV {
            outcome: self.outcome,
            backup: opt_view(self.backup),
            write: self.write,
            delete: self.delete,
        }
    }
}

/// The contents of a file that is ours: one that is no link, is text, and bears
/// our mark.
pub open spec fn managed_contents(f: SkillFile) -> Option<Seq<char>> {
    match f {
        SkillFile::Bytes(b) => if valid_utf8(b@) && has_text(decode_utf8(b@), OWN_MARKER@) {
            Some(decode_utf8(b@))
        } else {
            None
        },
        _ => None,
    }
}

/// What is to be done with the file.
pub open spec fn skill_plan(f: SkillFile, remove: bool) -> SkillPlanV {
    match f {
        SkillFile::Absent => SkillPlanV {
            outcome: if remove {
                SkillOutcome::NothingToRemove
            } else {
                SkillOutcome::Installed
            },
            backup: None,
            write: !remove,
            delete: false,
        },
        _ => match managed_contents(f) {
            None => SkillPlanV {
                outcome: SkillOutcome::SkippedForeign,
                backup: None,
                write: false,
                delete: false,
            },
            Some(contents) => {
                let pristine = contents == skill_text();
                SkillPlanV {
                    outcome: if remove {
                        SkillOutcome::Removed
                    } else if pristine {
                        SkillOutcome::AlreadyInstalled
                    } else {
                        SkillOutcome::Updated
                    },
                    backup: if pristine {
                        None
                    } else {
                        Some(contents)
                    },
                    write: !remove && !pristine,
                    delete: remove,
                }
            },
        },
    }
}

/// Plans what is to be done with the file.
pub fn plan_skill(f: &SkillFile, remove: bool) -> (r: SkillPlan)
    ensures
        r@ == skill_plan(*f, remove),
{
    let foreign = SkillPlan {
        outcome: SkillOutcome::SkippedForeign,
        backup: None,
        write: false,
        delete: false,
    };
    let bytes = match f {
        SkillFile::Absent => {
            let outcome = if remove {
                SkillOutcome::NothingToRemove
            } else {
                SkillOutcome::Installed
            };
            return SkillPlan { outcome, backup: None, write: !remove, delete: false };
        },
        SkillFile::Link => {
            return foreign;
        },
        SkillFile::Bytes(b) => b,
    };
    let contents = match text_of_bytes(bytes.as_slice()) {
        Some(text) => text,
        None => {
            return foreign;
        },
    };
    if !contains_text(contents.as_str(), OWN_MARKER) {
        return foreign;
    }
    let pristine = same(contents.as_str(), skill_content().as_str());
    let outcome = if remove {
        SkillOutcome::Removed
    } else if pristine {
        SkillOutcome::AlreadyInstalled
    } else {
        SkillOutcome::Updated
    };
    let backup: Option<String> = if pristine {
        None
    } else {
        Some(contents)
    };
    SkillPlan { outcome, backup, write: !remove && !pristine, delete: remove }
}

// ---------------------------------------------------------------------------
// Laws
// ---------------------------------------------------------------------------

/// Nothing that is not ours is ever written over or deleted.
pub proof fn foreign_files_are_not_touched(f: SkillFile, remove: bool)
    requires
        f !is Absent,
        managed_contents(f) is None,
    ensures
        skill_plan(f, remove).outcome is SkippedForeign,
        !skill_plan(f, remove).write,
        !skill_plan(f, remove).delete,
{
}

/// Contents that cannot be written again are never lost: where the file is
/// written over or deleted, they are kept as a backup first, unless they are those
/// of the skill itself.
pub proof fn edited_files_are_kept(f: SkillFile, remove: bool)
    requires
        skill_plan(f, remove).write || skill_plan(f, remove).delete,
        f !is Absent,
    ensures
        managed_contents(f) == Some(skill_text()) || skill_plan(f, remove).backup
            == managed_contents(f),
        managed_contents(f) is Some,
{
}

/// A file that holds the skill is done with: to install again changes nothing.
pub proof fn installing_the_skill_twice_changes_nothing(b: Vec<u8>)
    requires
        valid_utf8(b@),
        decode_utf8(b@) == skill_text(),
    ensures
        skill_plan(SkillFile::Bytes(b), false) == (SkillPlanV {
            outcome: SkillOutcome::AlreadyInstalled,
            backup: None,
            write: false,
            delete: false,
        }),
{
    the_skill_bears_our_mark();
}

/// The skill itself bears our mark, so that what was written is known as ours.
pub proof fn the_skill_bears_our_mark()
    ensures
        has_text(skill_text(), OWN_MARKER@),
{
    let k = SKILL_HEAD@.len() as int;
    assert(skill_text().subrange(k, k + OWN_MARKER@.len()) =~= OWN_MARKER@);
    assert(occurs_at(skill_text(), OWN_MARKER@, k));
}

/// A file of ours is written anew where its contents are others than the skill, and deleted
/// where it is to be removed; where there is none, it is made, and there is nothing to
/// remove.
pub proof fn own_files_are_kept_current(b: Vec<u8>, remove: bool)
    requires
        valid_utf8(b@),
        has_text(decode_utf8(b@), OWN_MARKER@),
    ensures
        skill_plan(SkillFile::Bytes(b), true).delete && !skill_plan(SkillFile::Bytes(b), true).write
            && skill_plan(SkillFile::Bytes(b), true).outcome is Removed,
        decode_utf8(b@) != skill_text() ==> skill_plan(SkillFile::Bytes(b), false).write
            && !skill_plan(SkillFile::Bytes(b), false).delete && skill_plan(
            SkillFile::Bytes(b),
            false,
        ).outcome is Updated && skill_plan(SkillFile::Bytes(b), remove).backup == Some(
            decode_utf8(b@),
        ),
        skill_plan(SkillFile::Absent, false).write && skill_plan(
            SkillFile::Absent,
            false,
        ).outcome is Installed,
        !skill_plan(SkillFile::Absent, true).write && !skill_plan(SkillFile::Absent, true).delete
            && skill_plan(SkillFile::Absent, true).outcome is NothingToRemove,
{
}

} // verus!
