//! What the commands say.
use vstd::prelude::*;

use crate::doc::{lines_text, no_lines, own_line, render_lines};
use crate::init::InitOutcome;
use crate::skill::SkillOutcome;
use crate::statusline::StatuslineOutcome;
use crate::text::{opt_view, views};

verus! {

/// What was done with the hooks.
#[derive(Debug, Clone, PartialEq, Eq)]
pub struct InitReport {
    /// What happened.
    pub outcome: InitOutcome,
    /// The backup, if one was made.
    pub backup: Option<String>,
}

/// What was done with the skill.
#[derive(Debug, Clone, PartialEq, Eq)]
pub struct SkillReport {
    /// What happened.
    pub outcome: SkillOutcome,
    /// The backup, if one was made.
    pub backup: Option<String>,
}

/// What was done with the status line.
#[derive(Debug, Clone, PartialEq, Eq)]
pub struct StatuslineReport {
    /// What happened.
    pub outcome: StatuslineOutcome,
    /// The backup, if one was made.
    pub backup: Option<String>,
}

/// What is said of the hooks in the file at `path`.
pub open spec fn init_sentence(outcome: InitOutcome, path: Seq<char>) -> Seq<char> {
    match outcome {
        InitOutcome::Installed => "Registered agent-witness hooks in "@ + path,
        InitOutcome::AlreadyInstalled => "agent-witness hooks already registered in "@ + path
            + "; no changes"@,
        InitOutcome::Removed => "Removed agent-witness hooks from "@ + path,
        InitOutcome::NothingToRemove => "No agent-witness hooks found in "@ + path
            + "; nothing to remove"@,
    }
}

/// What is said of a backup, if one was made.
pub open spec fn backup_lines(backup: Option<Seq<char>>) -> Seq<Seq<char>> {
    match backup {
        Some(path) => seq!["Backed up previous settings to "@ + path],
        None => Seq::<Seq<char>>::empty(),
    }
}

/// Says what was done with the hooks in the file at `path`.
pub fn report_init(path: &str, report: &InitReport) -> (out: String)
    ensures
        out@ == lines_text(
            seq![init_sentence(report.outcome, path@)] + backup_lines(opt_view(report.backup)),
        ),
{
    let first = match report.outcome {
        InitOutcome::Installed => "Registered agent-witness hooks in ".to_owned().concat(path),
        InitOutcome::AlreadyInstalled => "agent-witness hooks already registered in ".to_owned().concat(
            path,
        ).concat("; no changes"),
        InitOutcome::Removed => "Removed agent-witness hooks from ".to_owned().concat(path),
        InitOutcome::NothingToRemove => "No agent-witness hooks found in ".to_owned().concat(
            path,
        ).concat("; nothing to remove"),
    };
    let mut all = no_lines();
    own_line(&mut all, first);
    match &report.backup {
        Some(b) => {
            own_line(
                &mut all,
                "Backed up previous settings to ".to_owned().concat(b.as_str()),
            );
        },
        None => {},
    }
    proof {
        assert(views(all@) =~= seq![init_sentence(report.outcome, path@)] + backup_lines(
            opt_view(report.backup),
        ));
    }
    render_lines(&all)
}

/// What is said where no session belongs to the current directory.
pub open spec fn fallback_sentence(cwd: Seq<char>, session: Seq<char>) -> Seq<char> {
    "No session recorded for "@ + cwd + "; showing the most recent session ("@ + session
        + ") instead."@
}

/// Says that no session belongs to the current directory.
pub fn fallback_note(cwd: &str, session: &str) -> (out: String)
    ensures
        out@ == fallback_sentence(cwd@, session@),
{
    "No session recorded for ".to_owned().concat(cwd).concat(
        "; showing the most recent session (",
    ).concat(session).concat(") instead.")
}

/// What is said where a terminal cannot be set up.
pub open spec fn terminal_sentence(
    command: Seq<char>,
    fallback: Seq<char>,
    reason: Seq<char>,
) -> Seq<char> {
    "`agent-witness "@ + command
        + "` needs an interactive terminal (terminal init failed: "@ + reason
        + "). For non-interactive output, use `"@ + fallback + "`."@
}

/// Says that a terminal cannot be set up, and what to use in its place.
pub fn init_failure_message(command: &str, fallback: &str, reason: &str) -> (out: String)
    ensures
        out@ == terminal_sentence(command@, fallback@, reason@),
{
    "`agent-witness ".to_owned().concat(command).concat(
        "` needs an interactive terminal (terminal init failed: ",
    ).concat(reason).concat("). For non-interactive output, use `").concat(fallback).concat("`.")
}

} // verus!
