//! What the numbers of a ledger are the sums of.
use vstd::prelude::*;

use crate::count::sum_of;
use crate::digest::{
    acc_of, digest_fits, digest_of, every_session_is_in_one_project, files_of, group_at, grouped,
    in_window, is_reported, lemma_group_found, lemma_models_of, lemma_names_as_a_set,
    ledger_order_is_an_order, metrics_in, metrics_of, project_before, projects_of, ranked_projects,
    sessions_of, tokens_for, totals_hold_each_model, usages_of, with_name, MetricsV, ProjectV,
    SessionInputV, TotalsV,
};
use crate::event::{EventKind, EventV};
use crate::ledger::{activity_is_counted_over_events_and_rows, activity_of, CountsV};
use crate::named::names_ordered;
use crate::order::{sorted_by_sorts, text_lt, text_lt_total};
use crate::project::last_component;
use crate::selector::cwds_of;
use crate::window::WindowMode;

verus! {

// ---------------------------------------------------------------------------
// One session
// ---------------------------------------------------------------------------

/// Whether a working directory is one of the events.
pub open spec fn was_in(es: Seq<EventV>, cwd: Seq<char>) -> bool {
    exists|i: int| 0 <= i < es.len() && (#[trigger] es[i]).payload.text_at("cwd"@) == Some(cwd)
}

/// A name that is put behind names, unless it is one of them, is then one of them.
proof fn lemma_named_once(before: Seq<Seq<char>>, name: Seq<char>)
    requires
        before.no_duplicates(),
    ensures
        with_name(before, name).no_duplicates(),
        forall|x: Seq<char>| #[trigger]
            with_name(before, name).contains(x) <==> before.contains(x) || x == name,
        with_name(before, name).len() > 0,
        before.len() > 0 ==> with_name(before, name)[0] == before[0],
        before.len() == 0 ==> with_name(before, name)[0] == name,
{
    let c = with_name(before, name);
    assert forall|x: Seq<char>| #[trigger] c.contains(x) <==> before.contains(x) || x == name by {
        if before.contains(x) {
            let k = before.index_of(x);
            assert(c[k] == x);
        }
        if !before.contains(name) {
            assert(c[before.len() as int] == name);
        }
        if c.contains(x) {
            let k = c.index_of(x);
            if k < before.len() {
                assert(before[k] == x);
            }
        }
    }
}

proof fn lemma_was_in(es: Seq<EventV>, cwd: Seq<char>)
    requires
        es.len() > 0,
    ensures
        was_in(es, cwd) <==> was_in(es.drop_last(), cwd) || es.last().payload.text_at("cwd"@)
            == Some(cwd),
{
    let t = es.drop_last();
    if was_in(t, cwd) {
        let i = choose|i: int|
            0 <= i < t.len() && (#[trigger] t[i]).payload.text_at("cwd"@) == Some(cwd);
        assert(es[i].payload.text_at("cwd"@) == Some(cwd));
    }
    if es.last().payload.text_at("cwd"@) == Some(cwd) {
        assert(es[es.len() - 1].payload.text_at("cwd"@) == Some(cwd));
    }
    if was_in(es, cwd) {
        let i = choose|i: int|
            0 <= i < es.len() && (#[trigger] es[i]).payload.text_at("cwd"@) == Some(cwd);
        if i < t.len() {
            assert(t[i].payload.text_at("cwd"@) == Some(cwd));
        }
    }
}

/// The working directories of events are those that they name, each once.
pub proof fn working_directories_are_those_named(es: Seq<EventV>)
    ensures
        cwds_of(es).no_duplicates(),
        forall|cwd: Seq<char>| #[trigger] cwds_of(es).contains(cwd) <==> was_in(es, cwd),
    decreases es.len(),
{
    if es.len() > 0 {
        let t = es.drop_last();
        let before = cwds_of(t);
        working_directories_are_those_named(t);
        match es.last().payload.text_at("cwd"@) {
            Some(cwd) => {
                lemma_named_once(before, cwd);
                assert(cwds_of(es) == with_name(before, cwd));
            },
            None => {},
        }
        assert forall|cwd: Seq<char>| #[trigger] cwds_of(es).contains(cwd) <==> was_in(
            es,
            cwd,
        ) by {
            lemma_was_in(es, cwd);
            assert(before.contains(cwd) <==> was_in(t, cwd));
        }
    } else {
        assert forall|cwd: Seq<char>| #[trigger] cwds_of(es).contains(cwd) <==> was_in(
            es,
            cwd,
        ) by {}
    }
}

/// The first working directory of events is that of the first event that names one.
pub proof fn the_first_working_directory_comes_first(es: Seq<EventV>, i: int)
    requires
        0 <= i < es.len(),
        es[i].payload.text_at("cwd"@) is Some,
        forall|j: int| 0 <= j < i ==> (#[trigger] es[j]).payload.text_at("cwd"@) is None,
    ensures
        cwds_of(es).len() > 0,
        cwds_of(es)[0] == es[i].payload.text_at("cwd"@)->0,
    decreases es.len(),
{
    let t = es.drop_last();
    working_directories_are_those_named(t);
    if i < es.len() - 1 {
        assert forall|j: int| 0 <= j < i implies (#[trigger] t[j]).payload.text_at(
            "cwd"@,
        ) is None by {
            assert(es[j].payload.text_at("cwd"@) is None);
        }
        the_first_working_directory_comes_first(t, i);
        match es.last().payload.text_at("cwd"@) {
            Some(cwd) => {
                lemma_named_once(cwds_of(t), cwd);
            },
            None => {},
        }
    } else {
        let c = cwds_of(t);
        if c.len() > 0 {
            assert(c.contains(c[0]));
            assert(was_in(t, c[0]));
            let j = choose|j: int|
                0 <= j < t.len() && (#[trigger] t[j]).payload.text_at("cwd"@) == Some(c[0]);
            assert(es[j].payload.text_at("cwd"@) is None);
        }
    }
}

/// Whether a file is one that a tool call of the events names.
pub open spec fn was_named(es: Seq<EventV>, path: Seq<char>) -> bool {
    exists|i: int|
        0 <= i < es.len() && (#[trigger] es[i]).kind == EventKind::ToolCall && es[i].input(
            "file_path"@,
        ) == Some(path)
}

proof fn lemma_was_named(es: Seq<EventV>, path: Seq<char>)
    requires
        es.len() > 0,
    ensures
        was_named(es, path) <==> was_named(es.drop_last(), path) || (es.last().kind
            == EventKind::ToolCall && es.last().input("file_path"@) == Some(path)),
{
    let t = es.drop_last();
    if was_named(t, path) {
        let i = choose|i: int|
            0 <= i < t.len() && (#[trigger] t[i]).kind == EventKind::ToolCall && t[i].input(
                "file_path"@,
            ) == Some(path);
        assert(es[i].kind == EventKind::ToolCall);
    }
    if es.last().kind == EventKind::ToolCall && es.last().input("file_path"@) == Some(path) {
        assert(es[es.len() - 1].kind == EventKind::ToolCall);
    }
    if was_named(es, path) {
        let i = choose|i: int|
            0 <= i < es.len() && (#[trigger] es[i]).kind == EventKind::ToolCall && es[i].input(
                "file_path"@,
            ) == Some(path);
        if i < t.len() {
            assert(t[i].kind == EventKind::ToolCall);
        }
    }
}

/// The files of events are those that their tool calls name, each once.
pub proof fn files_are_those_named(es: Seq<EventV>)
    ensures
        files_of(es).no_duplicates(),
        forall|path: Seq<char>| #[trigger] files_of(es).contains(path) <==> was_named(es, path),
    decreases es.len(),
{
    if es.len() > 0 {
        let t = es.drop_last();
        let before = files_of(t);
        files_are_those_named(t);
        match es.last().input("file_path"@) {
            Some(path) => {
                lemma_named_once(before, path);
            },
            None => {},
        }
        assert forall|path: Seq<char>| #[trigger] files_of(es).contains(path) <==> was_named(
            es,
            path,
        ) by {
            lemma_was_named(es, path);
            assert(before.contains(path) <==> was_named(t, path));
        }
    } else {
        assert forall|path: Seq<char>| #[trigger] files_of(es).contains(path) <==> was_named(
            es,
            path,
        ) by {}
    }
}

/// What a ledger counts of a session: it counts as one, as one without usage where it has
/// none, for the lines that could not be read, and for what its events count for.
pub proof fn sessions_count_for_what_they_are(s: SessionInputV)
    ensures
        ({
            let m = metrics_of(s);
            let c = activity_of(s.events);
            &&& m.counts.sessions == 1
            &&& m.counts.usage_unavailable == (if s.usage is None {
                1nat
            } else {
                0
            })
            &&& m.counts.corrupt_lines == s.skipped_lines
            &&& m.counts.prompts == c.prompts && m.counts.tool_calls == c.tool_calls
                && m.counts.commands == c.commands
            &&& m.counts.critical == c.critical && m.counts.warning == c.warning
            &&& m.counts.test == c.test && m.counts.build == c.build && m.counts.lint == c.lint
            &&& m.counts.ok == c.ok && m.counts.failed == c.failed && m.counts.no_result
                == c.no_result
            &&& s.usage is None ==> m.per_model.len() == 0
            &&& s.usage matches Some(u) ==> m.per_model == u.per_model
        }),
{
    activity_is_counted_over_events_and_rows(s.events);
}

/// The duration of a session is the time from its first event to its last.
pub proof fn sessions_last_from_first_to_last(s: SessionInputV)
    ensures
        metrics_of(s).duration_ms >= 0,
        s.events.len() > 0 && s.events[s.events.len() - 1].ts >= s.events[0].ts
            ==> metrics_of(s).duration_ms == s.events[s.events.len() - 1].ts - s.events[0].ts,
        s.events.len() == 0 || s.events[s.events.len() - 1].ts < s.events[0].ts
            ==> metrics_of(s).duration_ms == 0,
{
}

/// The files of a session are those that its tool calls name, each once.
pub proof fn sessions_touch_the_files_they_name(s: SessionInputV)
    ensures
        metrics_of(s).files.no_duplicates(),
        forall|path: Seq<char>| #[trigger]
            metrics_of(s).files.contains(path) <==> was_named(s.events, path),
{
    files_are_those_named(s.events);
}

/// The project of a session is its first working directory.
pub proof fn sessions_belong_to_their_first_directory(s: SessionInputV, i: int)
    requires
        0 <= i < s.events.len(),
        s.events[i].payload.text_at("cwd"@) is Some,
        forall|j: int| 0 <= j < i ==> (#[trigger] s.events[j]).payload.text_at("cwd"@) is None,
    ensures
        metrics_of(s).key == s.events[i].payload.text_at("cwd"@),
        metrics_of(s).counts.unknown == 0,
{
    activity_is_counted_over_events_and_rows(s.events);
    the_first_working_directory_comes_first(s.events, i);
}

/// A session without a working directory is of no known project, and counts as such.
pub proof fn sessions_without_a_directory_are_of_no_project(s: SessionInputV)
    requires
        forall|i: int|
            0 <= i < s.events.len() ==> (#[trigger] s.events[i]).payload.text_at("cwd"@) is None,
    ensures
        metrics_of(s).key is None,
        metrics_of(s).counts.unknown == 1,
        metrics_of(s).counts.multi_cwd == 0,
{
    activity_is_counted_over_events_and_rows(s.events);
    working_directories_are_those_named(s.events);
    let c = cwds_of(s.events);
    if c.len() > 0 {
        assert(c.contains(c[0]));
        assert(was_in(s.events, c[0]));
    }
}

/// A session counts as one in several working directories exactly if two of its events
/// name different ones.
pub proof fn sessions_in_several_directories_are_told(s: SessionInputV)
    ensures
        metrics_of(s).counts.multi_cwd == (if exists|i: int, j: int|
            0 <= i < s.events.len() && 0 <= j < s.events.len() && (
            #[trigger] s.events[i]).payload.text_at("cwd"@) is Some && (
            #[trigger] s.events[j]).payload.text_at("cwd"@) is Some && s.events[i].payload.text_at(
                "cwd"@,
            ) != s.events[j].payload.text_at("cwd"@) {
            1nat
        } else {
            0
        }),
{
    activity_is_counted_over_events_and_rows(s.events);
    working_directories_are_those_named(s.events);
    lemma_several(s.events);
}

proof fn lemma_several(es: Seq<EventV>)
    requires
        cwds_of(es).no_duplicates(),
        forall|cwd: Seq<char>| #[trigger] cwds_of(es).contains(cwd) <==> was_in(es, cwd),
    ensures
        cwds_of(es).len() > 1 <==> exists|i: int, j: int|
            0 <= i < es.len() && 0 <= j < es.len() && (#[trigger] es[i]).payload.text_at(
                "cwd"@,
            ) is Some && (#[trigger] es[j]).payload.text_at("cwd"@) is Some
                && es[i].payload.text_at("cwd"@) != es[j].payload.text_at("cwd"@),
{
    let c = cwds_of(es);
    if c.len() > 1 {
        assert(c.contains(c[0]) && c.contains(c[1]));
        assert(was_in(es, c[0]) && was_in(es, c[1]));
        let i = choose|i: int|
            0 <= i < es.len() && (#[trigger] es[i]).payload.text_at("cwd"@) == Some(c[0]);
        let j = choose|j: int|
            0 <= j < es.len() && (#[trigger] es[j]).payload.text_at("cwd"@) == Some(c[1]);
        assert(es[i].payload.text_at("cwd"@) != es[j].payload.text_at("cwd"@));
    }
    if exists|i: int, j: int|
        0 <= i < es.len() && 0 <= j < es.len() && (#[trigger] es[i]).payload.text_at("cwd"@) is Some
            && (#[trigger] es[j]).payload.text_at("cwd"@) is Some && es[i].payload.text_at("cwd"@)
            != es[j].payload.text_at("cwd"@) {
        let (i, j) = choose|i: int, j: int|
            0 <= i < es.len() && 0 <= j < es.len() && (#[trigger] es[i]).payload.text_at(
                "cwd"@,
            ) is Some && (#[trigger] es[j]).payload.text_at("cwd"@) is Some
                && es[i].payload.text_at("cwd"@) != es[j].payload.text_at("cwd"@);
        let a = es[i].payload.text_at("cwd"@)->0;
        let b = es[j].payload.text_at("cwd"@)->0;
        assert(was_in(es, a) && was_in(es, b));
        assert(c.contains(a) && c.contains(b));
        let x = c.index_of(a);
        let y = c.index_of(b);
        assert(c[x] == a && c[y] == b);
    }
}

// ---------------------------------------------------------------------------
// Several sessions
// ---------------------------------------------------------------------------

/// Whether counts are the sums of the counts of sessions.
pub open spec fn counts_add_up(ms: Seq<MetricsV>, c: CountsV) -> bool {
    &&& c.sessions == sum_of(ms, |m: MetricsV| m.counts.sessions as int)
    &&& c.prompts == sum_of(ms, |m: MetricsV| m.counts.prompts as int)
    &&& c.tool_calls == sum_of(ms, |m: MetricsV| m.counts.tool_calls as int)
    &&& c.commands == sum_of(ms, |m: MetricsV| m.counts.commands as int)
    &&& c.critical == sum_of(ms, |m: MetricsV| m.counts.critical as int)
    &&& c.warning == sum_of(ms, |m: MetricsV| m.counts.warning as int)
    &&& c.test == sum_of(ms, |m: MetricsV| m.counts.test as int)
    &&& c.build == sum_of(ms, |m: MetricsV| m.counts.build as int)
    &&& c.lint == sum_of(ms, |m: MetricsV| m.counts.lint as int)
    &&& c.ok == sum_of(ms, |m: MetricsV| m.counts.ok as int)
    &&& c.failed == sum_of(ms, |m: MetricsV| m.counts.failed as int)
    &&& c.no_result == sum_of(ms, |m: MetricsV| m.counts.no_result as int)
    &&& c.usage_unavailable == sum_of(ms, |m: MetricsV| m.counts.usage_unavailable as int)
    &&& c.multi_cwd == sum_of(ms, |m: MetricsV| m.counts.multi_cwd as int)
    &&& c.unknown == sum_of(ms, |m: MetricsV| m.counts.unknown as int)
    &&& c.corrupt_lines == sum_of(ms, |m: MetricsV| m.counts.corrupt_lines as int)
}

/// Whether sessions have no negative duration.
pub open spec fn spans_are_fine(ms: Seq<MetricsV>) -> bool {
    forall|i: int| 0 <= i < ms.len() ==> (#[trigger] ms[i]).duration_ms >= 0
}

/// What several sessions come to: the sums of their counts and of their durations, the
/// latter up to the greatest number; and the files that any of them names, each once.
pub proof fn sessions_add_up(ms: Seq<MetricsV>)
    requires
        spans_are_fine(ms),
    ensures
        counts_add_up(ms, acc_of(ms).counts),
        acc_of(ms).duration_ms == (if sum_of(ms, |m: MetricsV| m.duration_ms) > i64::MAX {
            i64::MAX as int
        } else {
            sum_of(ms, |m: MetricsV| m.duration_ms)
        }),
        sum_of(ms, |m: MetricsV| m.duration_ms) >= 0,
        acc_of(ms).files.no_duplicates(),
        forall|path: Seq<char>| #[trigger]
            acc_of(ms).files.contains(path) <==> exists|i: int|
                0 <= i < ms.len() && (#[trigger] ms[i]).files.contains(path),
    decreases ms.len(),
{
    let a = acc_of(ms);
    if ms.len() > 0 {
        let t = ms.drop_last();
        let m = ms.last();
        let n = ms.len() - 1;
        assert forall|i: int| 0 <= i < t.len() implies (#[trigger] t[i]).duration_ms >= 0 by {
            assert(ms[i].duration_ms >= 0);
        }
        assert(ms[n].duration_ms >= 0);
        sessions_add_up(t);
        let b = acc_of(t);
        lemma_names_as_a_set(b.files, m.files);
        assert forall|path: Seq<char>| #[trigger] a.files.contains(path) <==> exists|i: int|
            0 <= i < ms.len() && (#[trigger] ms[i]).files.contains(path) by {
            assert(a.files.to_set().contains(path) <==> b.files.to_set().union(
                m.files.to_set(),
            ).contains(path));
            if b.files.contains(path) {
                let i = choose|i: int| 0 <= i < t.len() && (#[trigger] t[i]).files.contains(path);
                assert(ms[i].files.contains(path));
            }
            if m.files.contains(path) {
                assert(ms[n].files.contains(path));
            }
            if exists|i: int| 0 <= i < ms.len() && (#[trigger] ms[i]).files.contains(path) {
                let i = choose|i: int| 0 <= i < ms.len() && (#[trigger] ms[i]).files.contains(path);
                if i < n {
                    assert(t[i].files.contains(path));
                }
            }
        }
    } else {
        assert forall|path: Seq<char>| #[trigger] a.files.contains(path) <==> exists|i: int|
            0 <= i < ms.len() && (#[trigger] ms[i]).files.contains(path) by {}
    }
}

/// The sessions that are in a window: all of them, or those that began at its lower bound
/// or later. A session began when it was recorded to have, or else with its first event.
pub open spec fn began_within(ss: Seq<SessionInputV>, since_ms: Option<i64>) -> Seq<SessionInputV> {
    ss.filter(
        |s: SessionInputV|
            match since_ms {
                None => true,
                Some(since) => {
                    ||| s.created_ts matches Some(t) && t >= since
                    ||| s.created_ts is None && s.events.len() > 0 && s.events[0].ts >= since
                },
            },
    )
}

/// A ledger takes what it takes of the sessions in the window, in their order, and of no
/// other.
pub proof fn the_window_picks_the_sessions(ss: Seq<SessionInputV>, since_ms: Option<i64>)
    ensures
        metrics_in(ss, since_ms) == began_within(ss, since_ms).map_values(
            |s: SessionInputV| metrics_of(s),
        ),
        spans_are_fine(metrics_in(ss, since_ms)),
    decreases ss.len(),
{
    reveal(Seq::filter);
    let f = |s: SessionInputV| metrics_of(s);
    let all = began_within(ss, since_ms);
    if ss.len() > 0 {
        let t = ss.drop_last();
        the_window_picks_the_sessions(t, since_ms);
        let before = began_within(t, since_ms);
        if in_window(ss.last(), since_ms) {
            assert(all == before.push(ss.last()));
            assert(all.map_values(f) =~= before.map_values(f).push(metrics_of(ss.last())));
        } else {
            assert(all == before);
        }
    } else {
        assert(all.map_values(f) =~= Seq::<MetricsV>::empty());
    }
}

/// The sessions of a project are those with its working directory.
pub open spec fn of_project(ms: Seq<MetricsV>, key: Option<Seq<char>>) -> Seq<MetricsV> {
    ms.filter(|m: MetricsV| m.key == key)
}

proof fn lemma_of_project(ms: Seq<MetricsV>, key: Option<Seq<char>>)
    ensures
        sessions_of(ms, key) == of_project(ms, key),
        spans_are_fine(ms) ==> spans_are_fine(of_project(ms, key)),
    decreases ms.len(),
{
    reveal(Seq::filter);
    if ms.len() > 0 {
        lemma_of_project(ms.drop_last(), key);
        if spans_are_fine(ms) {
            assert forall|i: int| 0 <= i < ms.drop_last().len() implies (
            #[trigger] ms.drop_last()[i]).duration_ms >= 0 by {
                assert(ms[i].duration_ms >= 0);
            }
            assert(ms[ms.len() - 1].duration_ms >= 0);
        }
    } else {
        assert(sessions_of(ms, key) =~= of_project(ms, key));
    }
}

/// Whether the totals of models are what sessions report: each model that one of them
/// names, in the order of the names, with the sum of what is reported for it.
pub open spec fn tokens_add_up(
    ms: Seq<MetricsV>,
    per_model: Seq<TotalsV>,
    models_used: Seq<Seq<char>>,
) -> bool {
    let us = usages_of(ms);
    &&& names_ordered(models_used)
    &&& models_used.len() == per_model.len()
    &&& forall|i: int|
        0 <= i < per_model.len() ==> models_used[i] == (#[trigger] per_model[i]).model
            && per_model[i].tokens == tokens_for(us, per_model[i].model)
    &&& forall|model: Seq<char>| #[trigger]
        models_used.contains(model) <==> exists|i: int|
            0 <= i < us.len() && (#[trigger] us[i]).model == model
}

/// Whether the ledger of a project is what its sessions come to.
pub open spec fn project_adds_up(ms: Seq<MetricsV>, p: ProjectV) -> bool {
    let span = sum_of(ms, |m: MetricsV| m.duration_ms);
    &&& p.sessions == sum_of(ms, |m: MetricsV| m.counts.sessions as int)
    &&& p.duration_ms == (if span > i64::MAX {
        i64::MAX as int
    } else {
        span
    })
    &&& p.prompts == sum_of(ms, |m: MetricsV| m.counts.prompts as int)
    &&& p.tool_calls == sum_of(ms, |m: MetricsV| m.counts.tool_calls as int)
    &&& p.commands == sum_of(ms, |m: MetricsV| m.counts.commands as int)
    &&& p.flags.critical == sum_of(ms, |m: MetricsV| m.counts.critical as int)
    &&& p.flags.warning == sum_of(ms, |m: MetricsV| m.counts.warning as int)
    &&& p.test_activity.test == sum_of(ms, |m: MetricsV| m.counts.test as int)
    &&& p.test_activity.build == sum_of(ms, |m: MetricsV| m.counts.build as int)
    &&& p.test_activity.lint == sum_of(ms, |m: MetricsV| m.counts.lint as int)
    &&& p.test_activity.ok == sum_of(ms, |m: MetricsV| m.counts.ok as int)
    &&& p.test_activity.failed == sum_of(ms, |m: MetricsV| m.counts.failed as int)
    &&& p.test_activity.no_result == sum_of(ms, |m: MetricsV| m.counts.no_result as int)
    &&& p.sessions_usage_unavailable == sum_of(
        ms,
        |m: MetricsV| m.counts.usage_unavailable as int,
    )
    &&& p.multi_cwd_sessions == sum_of(ms, |m: MetricsV| m.counts.multi_cwd as int)
    &&& tokens_add_up(ms, p.per_model, p.models_used)
}

/// Whether a number is the number of the files that sessions name.
pub open spec fn counts_files(ms: Seq<MetricsV>, n: int) -> bool {
    exists|files: Seq<Seq<char>>|
        files.no_duplicates() && #[trigger] files.len() == n && forall|path: Seq<char>| #[trigger]
            files.contains(path) <==> exists|i: int|
                0 <= i < ms.len() && (#[trigger] ms[i]).files.contains(path)
}

proof fn lemma_tokens(ms: Seq<MetricsV>)
    ensures
        tokens_add_up(ms, acc_of(ms).models, crate::digest::model_names(acc_of(ms).models)),
{
    let us = usages_of(ms);
    lemma_models_of(ms);
    totals_hold_each_model(us);
    let ts = acc_of(ms).models;
    let names = crate::digest::model_names(ts);
    assert forall|model: Seq<char>| #[trigger] names.contains(model) <==> exists|i: int|
        0 <= i < us.len() && (#[trigger] us[i]).model == model by {
        assert(names.contains(model) <==> is_reported(us, model));
    }
}

/// The numbers of a part of some sessions are no greater than those of all of them.
proof fn lemma_part_within(ms: Seq<MetricsV>, key: Option<Seq<char>>)
    ensures
        acc_of(sessions_of(ms, key)).counts.within(acc_of(ms).counts),
    decreases ms.len(),
{
    if ms.len() > 0 {
        let t = ms.drop_last();
        lemma_part_within(t, key);
        if ms.last().key == key {
            assert(sessions_of(t, key).push(ms.last()).drop_last() =~= sessions_of(t, key));
        }
    }
}

/// The number of files can be told where every list of them was held: it is no greater
/// than the greatest number.
pub open spec fn files_can_be_told(ms: Seq<MetricsV>) -> bool {
    acc_of(ms).files.len() <= usize::MAX
}

/// Every project of a ledger is what its sessions in the window come to, which are those
/// of its working directory, or those without one; it is called by the last part of its
/// path.
pub proof fn projects_are_what_their_sessions_come_to(
    ss: Seq<SessionInputV>,
    now_ms: i64,
    since_ms: Option<i64>,
    mode: WindowMode,
    i: int,
)
    requires
        digest_fits(ss, since_ms),
        0 <= i < digest_of(ss, now_ms, since_ms, mode).projects.len(),
    ensures
        ({
            let p = digest_of(ss, now_ms, since_ms, mode).projects[i];
            let ms = began_within(ss, since_ms).map_values(|s: SessionInputV| metrics_of(s));
            let mine = of_project(
                ms,
                if p.is_unknown {
                    None
                } else {
                    Some(p.path)
                },
            );
            &&& mine.len() > 0
            &&& project_adds_up(mine, p)
            &&& files_can_be_told(mine) ==> counts_files(mine, p.files_touched as int)
            &&& p.is_unknown ==> p.name == "unknown project"@ && p.path == "unknown project"@
            &&& !p.is_unknown ==> p.name == last_component(p.path)
        }),
{
    broadcast use vstd::seq_lib::group_to_multiset_ensures;

    let lt = |a: ProjectV, b: ProjectV| project_before(a, b);
    let ms = metrics_in(ss, since_ms);
    let gs = grouped(ms);
    let ps = projects_of(gs);
    let ranked = ranked_projects(ps);
    the_window_picks_the_sessions(ss, since_ms);
    every_session_is_in_one_project(ms);
    ledger_order_is_an_order();
    sorted_by_sorts(ps, lt);
    let p = ranked[i];
    assert(ranked.to_multiset().count(p) > 0);
    let k = ps.index_of(p);
    let key = gs[k].key;
    let mine = sessions_of(ms, key);
    assert(gs[k].members == mine);
    lemma_of_project(ms, key);
    sessions_add_up(mine);
    lemma_tokens(mine);
    lemma_part_within(ms, key);
    let acc = acc_of(mine);
    assert(acc.files.len() <= usize::MAX ==> counts_files(mine, acc.files.len() as int));
}

/// Every session in the window is in a project of the ledger, and no two projects are of
/// the same working directory.
pub proof fn every_session_has_its_project(
    ss: Seq<SessionInputV>,
    now_ms: i64,
    since_ms: Option<i64>,
    mode: WindowMode,
    s: SessionInputV,
)
    requires
        began_within(ss, since_ms).contains(s),
    ensures
        ({
            let ps = digest_of(ss, now_ms, since_ms, mode).projects;
            &&& exists|i: int|
                0 <= i < ps.len() && (if (#[trigger] ps[i]).is_unknown {
                    metrics_of(s).key is None
                } else {
                    metrics_of(s).key == Some(ps[i].path)
                })
            &&& forall|i: int, j: int|
                0 <= i < j < ps.len() ==> (#[trigger] ps[i]).is_unknown != (
                #[trigger] ps[j]).is_unknown || ps[i].path != ps[j].path
        }),
{
    broadcast use vstd::seq_lib::group_to_multiset_ensures;

    let lt = |a: ProjectV, b: ProjectV| project_before(a, b);
    let ms = metrics_in(ss, since_ms);
    let gs = grouped(ms);
    let ps = projects_of(gs);
    let ranked = ranked_projects(ps);
    let all = began_within(ss, since_ms);
    the_window_picks_the_sessions(ss, since_ms);
    every_session_is_in_one_project(ms);
    ledger_order_is_an_order();
    sorted_by_sorts(ps, lt);
    let n = all.index_of(s);
    assert(ms[n] == metrics_of(s));
    lemma_group_found(gs, ms[n].key);
    let k = group_at(gs, ms[n].key);
    assert(ps[k] == ps[k]);
    assert(ps.contains(ps[k]));
    assert(ps.to_multiset().count(ps[k]) > 0);
    let i = ranked.index_of(ps[k]);
    assert(ranked[i] == ps[k]);
    assert(ps[k].is_unknown == (gs[k].key is None));
    let shown = digest_of(ss, now_ms, since_ms, mode).projects;
    assert(shown[i] == ps[k]);
    lemma_ranked_differ(ms);
}

proof fn lemma_ranked_differ(ms: Seq<MetricsV>)
    ensures
        forall|i: int, j: int|
            0 <= i < j < ranked_projects(projects_of(grouped(ms))).len() ==> (
            #[trigger] ranked_projects(projects_of(grouped(ms)))[i]).is_unknown != (
            #[trigger] ranked_projects(projects_of(grouped(ms)))[j]).is_unknown || ranked_projects(
                projects_of(grouped(ms)),
            )[i].path != ranked_projects(projects_of(grouped(ms)))[j].path,
{
    broadcast use vstd::seq_lib::group_to_multiset_ensures;

    let lt = |a: ProjectV, b: ProjectV| project_before(a, b);
    let gs = grouped(ms);
    let ps = projects_of(gs);
    let ranked = ranked_projects(ps);
    every_session_is_in_one_project(ms);
    ledger_order_is_an_order();
    sorted_by_sorts(ps, lt);
    assert forall|i: int, j: int|
        0 <= i < gs.len() && 0 <= j < gs.len() && (#[trigger] ps[i]).is_unknown == (
        #[trigger] ps[j]).is_unknown && ps[i].path == ps[j].path implies i == j by {
        assert(gs[i].key == gs[j].key);
        if i < j {
            assert(gs[i].key != gs[j].key);
        } else if j < i {
            assert(gs[j].key != gs[i].key);
        }
    }
    assert(ps.no_duplicates());
    ps.lemma_multiset_has_no_duplicates();
    ranked.lemma_multiset_has_no_duplicates_conv();
    assert forall|i: int, j: int| 0 <= i < j < ranked.len() implies (#[trigger] ranked[i]).is_unknown
        != (#[trigger] ranked[j]).is_unknown || ranked[i].path != ranked[j].path by {
        assert(ranked.to_multiset().count(ranked[i]) > 0);
        assert(ranked.to_multiset().count(ranked[j]) > 0);
        let x = ps.index_of(ranked[i]);
        let y = ps.index_of(ranked[j]);
        assert(ps[x] == ranked[i] && ps[y] == ranked[j]);
    }
}

/// The projects of a ledger stand in this order: the known ones before the unknown one,
/// those with more sessions before those with fewer, and else by their paths.
pub proof fn projects_stand_in_order(
    ss: Seq<SessionInputV>,
    now_ms: i64,
    since_ms: Option<i64>,
    mode: WindowMode,
    i: int,
    j: int,
)
    requires
        0 <= i < j < digest_of(ss, now_ms, since_ms, mode).projects.len(),
    ensures
        ({
            let a = digest_of(ss, now_ms, since_ms, mode).projects[i];
            let b = digest_of(ss, now_ms, since_ms, mode).projects[j];
            &&& !a.is_unknown
            &&& !b.is_unknown ==> a.sessions > b.sessions || a.sessions == b.sessions && text_lt(
                a.path,
                b.path,
            )
        }),
{
    broadcast use vstd::seq_lib::group_to_multiset_ensures;

    let lt = |a: ProjectV, b: ProjectV| project_before(a, b);
    let ms = metrics_in(ss, since_ms);
    let gs = grouped(ms);
    let ps = projects_of(gs);
    let ranked = ranked_projects(ps);
    ledger_order_is_an_order();
    sorted_by_sorts(ps, lt);
    lemma_ranked_differ(ms);
    let a = ranked[i];
    let b = ranked[j];
    assert(!lt(b, a));
    assert(a.is_unknown != b.is_unknown || a.path != b.path);
    text_lt_total(a.path, b.path);
    assert(ranked.to_multiset().count(a) > 0);
    assert(ranked.to_multiset().count(b) > 0);
    let x = ps.index_of(a);
    let y = ps.index_of(b);
    assert(ps[x] == a && ps[y] == b);
    if a.is_unknown && b.is_unknown {
        assert(a.path == "unknown project"@ && b.path == "unknown project"@);
    }
}

/// The totals of a ledger are what all sessions in the window come to, and its window is
/// the one that was asked for.
pub proof fn totals_are_what_all_sessions_come_to(
    ss: Seq<SessionInputV>,
    now_ms: i64,
    since_ms: Option<i64>,
    mode: WindowMode,
)
    requires
        digest_fits(ss, since_ms),
    ensures
        ({
            let d = digest_of(ss, now_ms, since_ms, mode);
            let ms = began_within(ss, since_ms).map_values(|s: SessionInputV| metrics_of(s));
            let t = d.totals;
            let span = sum_of(ms, |m: MetricsV| m.duration_ms);
            &&& d.window.now_ms == now_ms && d.window.since_ms == since_ms
            &&& t.sessions == began_within(ss, since_ms).len()
            &&& t.duration_ms == (if span > i64::MAX {
                i64::MAX as int
            } else {
                span
            })
            &&& t.prompts == sum_of(ms, |m: MetricsV| m.counts.prompts as int)
            &&& t.tool_calls == sum_of(ms, |m: MetricsV| m.counts.tool_calls as int)
            &&& t.commands == sum_of(ms, |m: MetricsV| m.counts.commands as int)
            &&& t.flags.critical == sum_of(ms, |m: MetricsV| m.counts.critical as int)
            &&& t.flags.warning == sum_of(ms, |m: MetricsV| m.counts.warning as int)
            &&& t.test_activity.test == sum_of(ms, |m: MetricsV| m.counts.test as int)
            &&& t.test_activity.build == sum_of(ms, |m: MetricsV| m.counts.build as int)
            &&& t.test_activity.lint == sum_of(ms, |m: MetricsV| m.counts.lint as int)
            &&& t.test_activity.ok == sum_of(ms, |m: MetricsV| m.counts.ok as int)
            &&& t.test_activity.failed == sum_of(ms, |m: MetricsV| m.counts.failed as int)
            &&& t.test_activity.no_result == sum_of(ms, |m: MetricsV| m.counts.no_result as int)
            &&& t.test_activity.ok + t.test_activity.failed + t.test_activity.no_result
                == t.test_activity.test + t.test_activity.build + t.test_activity.lint
            &&& tokens_add_up(ms, t.per_model, t.models_used)
            &&& files_can_be_told(ms) ==> counts_files(ms, t.files_touched as int)
            &&& d.projects.len() <= usize::MAX ==> t.projects == d.projects.len()
            &&& d.honesty.sessions_usage_unavailable == sum_of(
                ms,
                |m: MetricsV| m.counts.usage_unavailable as int,
            )
            &&& d.honesty.unknown_project_sessions == sum_of(
                ms,
                |m: MetricsV| m.counts.unknown as int,
            )
            &&& d.honesty.multi_cwd_sessions == sum_of(
                ms,
                |m: MetricsV| m.counts.multi_cwd as int,
            )
            &&& d.honesty.corrupt_lines == sum_of(ms, |m: MetricsV| m.counts.corrupt_lines as int)
        }),
{
    let ms = metrics_in(ss, since_ms);
    the_window_picks_the_sessions(ss, since_ms);
    sessions_add_up(ms);
    lemma_tokens(ms);
    lemma_outcomes_add_up(began_within(ss, since_ms));
    crate::order::lemma_sorted_len(
        projects_of(grouped(ms)),
        |a: ProjectV, b: ProjectV| project_before(a, b),
    );
    let acc = acc_of(ms);
    assert(acc.files.len() <= usize::MAX ==> counts_files(ms, acc.files.len() as int));
}

proof fn lemma_outcomes_add_up(ss: Seq<SessionInputV>)
    ensures
        ({
            let ms = ss.map_values(|s: SessionInputV| metrics_of(s));
            &&& sum_of(ms, |m: MetricsV| m.counts.sessions as int) == ss.len()
            &&& sum_of(ms, |m: MetricsV| m.counts.ok as int) + sum_of(
                ms,
                |m: MetricsV| m.counts.failed as int,
            ) + sum_of(ms, |m: MetricsV| m.counts.no_result as int) == sum_of(
                ms,
                |m: MetricsV| m.counts.test as int,
            ) + sum_of(ms, |m: MetricsV| m.counts.build as int) + sum_of(
                ms,
                |m: MetricsV| m.counts.lint as int,
            )
        }),
    decreases ss.len(),
{
    let f = |s: SessionInputV| metrics_of(s);
    if ss.len() > 0 {
        let t = ss.drop_last();
        lemma_outcomes_add_up(t);
        assert(ss.map_values(f).drop_last() =~= t.map_values(f));
        assert(ss.map_values(f).last() == metrics_of(ss.last()));
        sessions_count_for_what_they_are(ss.last());
        activity_is_counted_over_events_and_rows(ss.last().events);
    }
}

} // verus!
