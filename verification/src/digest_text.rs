//! What the text of a ledger shows.
use vstd::prelude::*;

use crate::digest::{
    all_projects_lines, digest_lines, digest_scope, honesty_lines_of, model_line_of,
    model_lines_of, models_used_lines, project_lines_of, projects_lines_of, totals_lines_of,
    window_sentence_of, DigestV, ProjectV, TotalsV, WindowDescriptor,
};
use crate::ledger::{FlagCounts, TestActivity};
use crate::num::decimal;
use crate::timefmt::{duration_text, utc_text};
use crate::window::WindowKind;

verus! {

/// Whether lines tell, from line `k` on, what sessions come to, one number to a line.
pub open spec fn tells_activity(
    lines: Seq<Seq<char>>,
    k: int,
    sessions: usize,
    duration_ms: i64,
    prompts: usize,
    tool_calls: usize,
    commands: usize,
    files_touched: usize,
    flags: FlagCounts,
) -> bool {
    &&& 0 <= k && k + 8 <= lines.len()
    &&& lines[k] == "- Sessions: "@ + decimal(sessions as nat)
    &&& lines[k + 1] == "- Duration (summed wall-span): "@ + duration_text(duration_ms as int)
    &&& lines[k + 2] == "- Prompts (user, hook-sourced): "@ + decimal(prompts as nat)
    &&& lines[k + 3] == "- Tool calls: "@ + decimal(tool_calls as nat)
    &&& lines[k + 4] == "- Commands (Bash): "@ + decimal(commands as nat)
    &&& lines[k + 5] == "- Files touched (distinct): "@ + decimal(files_touched as nat)
    &&& lines[k + 6] == "- "@ + ("Command flags by matcher severity: critical "@ + decimal(
        flags.critical as nat,
    ) + ", warning "@ + decimal(flags.warning as nat))
}

/// Whether a line tells of test-like commands, by kind and by outcome; where there are none,
/// it tells that alone.
pub open spec fn tells_tests(line: Seq<char>, t: TestActivity) -> bool {
    if t.test == 0 && t.build == 0 && t.lint == 0 {
        line == "- "@ + "Test-like commands recorded: 0"@
    } else {
        line == "- "@ + ("Test-like commands recorded: "@ + decimal(
            (t.test + t.build + t.lint) as nat,
        ) + " (test "@ + decimal(t.test as nat) + ", build "@ + decimal(t.build as nat)
            + ", lint "@ + decimal(t.lint as nat) + ") — status: "@ + decimal(t.ok as nat)
            + " ok, "@ + decimal(t.failed as nat) + " failed, "@ + decimal(t.no_result as nat)
            + " no-result"@)
    }
}

/// The line of the tokens of a model.
pub open spec fn tokens_line(t: TotalsV) -> Seq<char> {
    "  - "@ + t.model + ": input "@ + decimal(t.tokens.input_tokens as nat) + ", output "@ + decimal(
        t.tokens.output_tokens as nat,
    ) + ", cache-creation "@ + decimal(t.tokens.cache_creation_input_tokens as nat)
        + ", cache-read "@ + decimal(t.tokens.cache_read_input_tokens as nat)
}

/// Where the part of a project begins among the parts.
spec fn part_at(ps: Seq<ProjectV>, i: int) -> int
    decreases i,
{
    if i <= 0 {
        0
    } else {
        part_at(ps, i - 1) + project_lines_of(ps[i - 1]).len()
    }
}

proof fn lemma_part_at(ps: Seq<ProjectV>, i: int)
    requires
        0 <= i <= ps.len(),
    ensures
        part_at(ps, i) == all_projects_lines(ps.take(i)).len(),
    decreases i,
{
    if i > 0 {
        lemma_part_at(ps, i - 1);
        assert(ps.take(i).drop_last() =~= ps.take(i - 1));
        assert(ps.take(i).last() == ps[i - 1]);
    } else {
        assert(ps.take(0).len() == 0);
    }
}

proof fn lemma_parts(ps: Seq<ProjectV>, i: int, j: int)
    requires
        0 <= i < ps.len(),
        0 <= j < project_lines_of(ps[i]).len(),
    ensures
        part_at(ps, i) >= 0,
        part_at(ps, i) + j < all_projects_lines(ps).len(),
        all_projects_lines(ps)[part_at(ps, i) + j] == project_lines_of(ps[i])[j],
    decreases ps.len(),
{
    let t = ps.drop_last();
    lemma_part_at(ps, i);
    if i < t.len() {
        assert(t[i] == ps[i]);
        lemma_parts(t, i, j);
        lemma_part_at(t, i);
        assert(t.take(i) =~= ps.take(i));
    } else {
        assert(ps.take(i) =~= t);
    }
}

proof fn lemma_third(
    a: Seq<Seq<char>>,
    b: Seq<Seq<char>>,
    c: Seq<Seq<char>>,
    d: Seq<Seq<char>>,
    e: Seq<Seq<char>>,
    j: int,
)
    requires
        0 <= j < c.len(),
    ensures
        (a + b + c + d + e)[a.len() + b.len() + j] == c[j],
        a.len() + b.len() + j < (a + b + c + d + e).len(),
{
}

/// Where the part of a project begins in the text.
spec fn shown_at(r: DigestV, i: int) -> int {
    8 + totals_lines_of(r.totals).len() + part_at(r.projects, i)
}

proof fn lemma_shown_at(r: DigestV, i: int, j: int)
    requires
        0 <= i < r.projects.len(),
        0 <= j < project_lines_of(r.projects[i]).len(),
    ensures
        0 <= shown_at(r, i) + j < digest_lines(r).len(),
        digest_lines(r)[shown_at(r, i) + j] == project_lines_of(r.projects[i])[j],
{
    lemma_parts(r.projects, i, j);
    let a = seq![
        "# Delegation digest"@,
        ""@,
        "_A factual, cross-session ledger of what your agents did, grouped by project. Observation only: every number derives from recorded hook events._"@,
        ""@,
        "Digest window: "@ + window_sentence_of(r.window),
        ""@,
    ];
    lemma_third(
        a,
        totals_lines_of(r.totals),
        projects_lines_of(r.projects),
        honesty_lines_of(r.honesty),
        digest_scope(),
        2 + part_at(r.projects, i) + j,
    );
}

proof fn lemma_project_lines(p: ProjectV)
    ensures
        project_lines_of(p).len() >= 10,
        project_lines_of(p)[0] == "### "@ + p.name + " (`"@ + p.path + "`)"@,
        tells_activity(
            project_lines_of(p),
            2,
            p.sessions,
            p.duration_ms,
            p.prompts,
            p.tool_calls,
            p.commands,
            p.files_touched,
            p.flags,
        ),
        tells_tests(project_lines_of(p)[9], p.test_activity),
{
}

/// Every project is shown in a part of its own, with its name and path and its own numbers
/// behind them.
pub proof fn every_project_is_shown(r: DigestV, i: int)
    requires
        0 <= i < r.projects.len(),
    ensures
        exists|k: int| #[trigger] shows_project(digest_lines(r), k, r.projects[i]),
{
    let p = r.projects[i];
    let k = shown_at(r, i);
    lemma_project_lines(p);
    lemma_shown_at(r, i, 0);
    lemma_shown_at(r, i, 2);
    lemma_shown_at(r, i, 3);
    lemma_shown_at(r, i, 4);
    lemma_shown_at(r, i, 5);
    lemma_shown_at(r, i, 6);
    lemma_shown_at(r, i, 7);
    lemma_shown_at(r, i, 8);
    lemma_shown_at(r, i, 9);
    lemma_same_lines(digest_lines(r), k, project_lines_of(p), p);
}

/// Whether lines show a project from line `k` on.
pub open spec fn shows_project(lines: Seq<Seq<char>>, k: int, p: ProjectV) -> bool {
    &&& 0 <= k && k + 10 <= lines.len()
    &&& lines[k] == "### "@ + p.name + " (`"@ + p.path + "`)"@
    &&& tells_activity(
        lines,
        k + 2,
        p.sessions,
        p.duration_ms,
        p.prompts,
        p.tool_calls,
        p.commands,
        p.files_touched,
        p.flags,
    )
    &&& tells_tests(lines[k + 9], p.test_activity)
}

proof fn lemma_same_lines(lines: Seq<Seq<char>>, k: int, part: Seq<Seq<char>>, p: ProjectV)
    requires
        0 <= k && k + 10 <= lines.len(),
        part.len() >= 10,
        part[0] == "### "@ + p.name + " (`"@ + p.path + "`)"@,
        tells_activity(
            part,
            2,
            p.sessions,
            p.duration_ms,
            p.prompts,
            p.tool_calls,
            p.commands,
            p.files_touched,
            p.flags,
        ),
        tells_tests(part[9], p.test_activity),
        lines[k + 0] == part[0] && lines[k + 2] == part[2] && lines[k + 3] == part[3] && lines[k + 4]
            == part[4] && lines[k + 5] == part[5] && lines[k + 6] == part[6] && lines[k + 7]
            == part[7] && lines[k + 8] == part[8] && lines[k + 9] == part[9],
    ensures
        shows_project(lines, k, p),
{
}

proof fn lemma_project_tail(p: ProjectV, m: int)
    ensures
        ({
            let n = 11int + models_used_lines(p.models_used).len() + model_lines_of(
                p.per_model,
            ).len();
            let part = project_lines_of(p);
            &&& part.len() == n + 3
            &&& part[n] == "- Usage unavailable: "@ + decimal(
                p.sessions_usage_unavailable as nat,
            ) + " session(s)"@
            &&& part[n + 1] == "- Multi-cwd sessions: "@ + decimal(p.multi_cwd_sessions as nat)
                + " (attributed to their first observed cwd)"@
            &&& 0 <= m < p.per_model.len() ==> part[11 + models_used_lines(p.models_used).len() + m]
                == tokens_line(p.per_model[m])
        }),
{
    let part = project_lines_of(p);
    let u = models_used_lines(p.models_used);
    let ms = model_lines_of(p.per_model);
    if 0 <= m < p.per_model.len() {
        assert(ms[m] == model_line_of(p.per_model[m]));
        assert(part[11 + u.len() + m] == ms[m]);
    }
}

/// The tokens of every model of a project are shown, and how many of its sessions have no
/// record of their usage or were in several directories.
pub proof fn the_tokens_of_every_project_are_shown(r: DigestV, i: int, m: int)
    requires
        0 <= i < r.projects.len(),
    ensures
        0 <= m < r.projects[i].per_model.len() ==> digest_lines(r).contains(
            tokens_line(r.projects[i].per_model[m]),
        ),
        digest_lines(r).contains(
            "- Usage unavailable: "@ + decimal(r.projects[i].sessions_usage_unavailable as nat)
                + " session(s)"@,
        ),
        digest_lines(r).contains(
            "- Multi-cwd sessions: "@ + decimal(r.projects[i].multi_cwd_sessions as nat)
                + " (attributed to their first observed cwd)"@,
        ),
{
    let p = r.projects[i];
    lemma_project_tail(p, m);
    let u: int = models_used_lines(p.models_used).len() as int;
    let n: int = 11 + u + model_lines_of(p.per_model).len() as int;
    lemma_shown_at(r, i, n);
    lemma_shown_at(r, i, n + 1);
    if 0 <= m < p.per_model.len() {
        lemma_shown_at(r, i, 11 + u + m);
    }
}

/// The sums over all projects are shown ahead of them, with the window that they are of.
pub proof fn the_totals_are_shown(r: DigestV, m: int)
    ensures
        digest_lines(r).contains("Digest window: "@ + window_sentence_of(r.window)),
        digest_lines(r).contains("- Projects: "@ + decimal(r.totals.projects as nat)),
        tells_activity(
            digest_lines(r),
            9,
            r.totals.sessions,
            r.totals.duration_ms,
            r.totals.prompts,
            r.totals.tool_calls,
            r.totals.commands,
            r.totals.files_touched,
            r.totals.flags,
        ),
        tells_tests(digest_lines(r)[16], r.totals.test_activity),
        0 <= m < r.totals.per_model.len() ==> digest_lines(r).contains(
            tokens_line(r.totals.per_model[m]),
        ),
{
    let all = digest_lines(r);
    let part = totals_lines_of(r.totals);
    assert forall|j: int| 0 <= j < part.len() implies #[trigger] all[6 + j] == part[j] by {}
    assert(all[4] == "Digest window: "@ + window_sentence_of(r.window));
    assert(all[8] == part[2]);
    assert(all[9] == part[3] && all[10] == part[4] && all[11] == part[5] && all[12]
        == part[6] && all[13] == part[7] && all[14] == part[8] && all[15] == part[9]
        && all[16] == part[10]);
    if 0 <= m < r.totals.per_model.len() {
        assert(part[12 + m] == model_line_of(r.totals.per_model[m]));
        assert(all[6 + (12 + m)] == part[12 + m]);
    }
}

/// What a reader has to know is shown: the sessions without a record of their usage, of no
/// known project and in several directories, and the lines that could not be read.
pub proof fn what_is_missing_is_shown(r: DigestV)
    ensures
        digest_lines(r).contains(
            "- Usage unavailable: "@ + decimal(r.honesty.sessions_usage_unavailable as nat)
                + " session(s) — token totals exclude these; an absent sidecar is not zero tokens."@,
        ),
        digest_lines(r).contains(
            "- Unknown-project sessions: "@ + decimal(r.honesty.unknown_project_sessions as nat)
                + " — no cwd was observed in the session's events."@,
        ),
        digest_lines(r).contains(
            "- Multi-cwd sessions: "@ + decimal(r.honesty.multi_cwd_sessions as nat)
                + " — attributed to their first observed cwd; the count is disclosed per project."@,
        ),
        digest_lines(r).contains(
            "- Corrupt/skipped lines: "@ + decimal(r.honesty.corrupt_lines as nat)
                + " — unreadable JSONL lines across included sessions."@,
        ),
{
    let all = digest_lines(r);
    let k: int = 6 + totals_lines_of(r.totals).len() as int + projects_lines_of(r.projects).len() as int;
    let part = honesty_lines_of(r.honesty);
    assert(all[k + 2] == part[2] && all[k + 3] == part[3] && all[k + 4] == part[4] && all[k + 5]
        == part[5]);
}

/// The window is told by its kind and its bounds, and all of history by its end alone.
pub proof fn the_window_is_told(since: i64, now_ms: i64, kind: WindowKind)
    ensures
        window_sentence_of(WindowDescriptor { kind, since_ms: None, now_ms })
            == "all recorded history, through "@ + utc_text(now_ms as int) + " (UTC)"@,
        window_sentence_of(
            WindowDescriptor { kind: WindowKind::Today, since_ms: Some(since), now_ms },
        ) == "UTC today, "@ + utc_text(since as int) + " to "@ + utc_text(now_ms as int),
        window_sentence_of(
            WindowDescriptor { kind: WindowKind::Week, since_ms: Some(since), now_ms },
        ) == "last 7 UTC calendar days, "@ + utc_text(since as int) + " to "@ + utc_text(
            now_ms as int,
        ),
        window_sentence_of(
            WindowDescriptor { kind: WindowKind::Since, since_ms: Some(since), now_ms },
        ) == "since "@ + utc_text(since as int) + " to "@ + utc_text(now_ms as int) + " (UTC)"@,
{
}

} // verus!
