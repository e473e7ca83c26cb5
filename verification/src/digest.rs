//! The ledger across sessions: facts for each project in a time window.
//!
//! A session is in the window where its start is, and then counts as a whole. It
//! belongs to the project of its first working directory. A session without a
//! record of its usage adds no tokens, and is counted as such: that is not the
//! same as a session of zero tokens.
use vstd::multiset::Multiset;
use vstd::prelude::*;
use vstd::seq_lib::{commutative_foldl, lemma_fold_left_permutation};

use crate::doc::{add_lines, line, lines_text, no_lines, own_line, render_lines};
use crate::event::{event_views, AgentEvent, EventKind, EventV};
use crate::ledger::{
    activity_of, add_counts, count_activity, no_counts, zero_counts, Counts, CountsV, FlagCounts,
    TestActivity,
};
use crate::ls::span_fits;
use crate::named::{
    find_name, lemma_found_iff, lemma_insert_ordered, lemma_name_rank, name_found, name_rank,
    names_in, names_ordered, Named,
};
use crate::num::{decimal, decimal_u128, decimal_u64, decimal_usize};
use crate::order::{
    is_order, is_sorted, lemma_same_items, lemma_sorted_map, own_order, sort, sorted_by,
    sorted_by_sorts, sorted_lists_are_unique, text_less, text_lt, text_lt_total, text_lt_transitive,
    Ordered,
};
use crate::project::{basename, last_component};
use crate::relative::capped_ms;
use crate::selector::{cwds_of, summarize};
use crate::split::{join, joined};
use crate::text::{clone_opt, list_has, opt_view, same_opt, views};
use crate::timefmt::{duration_text, format_duration_ms, format_utc, utc_text};
use crate::usage::{
    capped_add, counts_sum, usage_views, ModelUsage, ModelUsageV, SessionUsage, SessionUsageV,
    TokenCounts,
};
use crate::window::{WindowKind, WindowMode};

verus! {

/// What was read of a session.
#[derive(Debug)]
pub struct SessionInput {
    /// Session id.
    pub session_id: String,
    /// Recorded session start, if available.
    pub created_ts: Option<i64>,
    /// The events, in file order.
    pub events: Vec<AgentEvent>,
    /// The number of lines that could not be read.
    pub skipped_lines: usize,
    /// The recorded usage, or none where it is not available.
    pub usage: Option<SessionUsage>,
}

/// The contents of a [`SessionInput`].
pub ghost struct SessionInputV {
    pub session_id: Seq<char>,
    pub created_ts: Option<i64>,
    pub events: Seq<EventV>,
    pub skipped_lines: nat,
    pub usage: Option<SessionUsageV>,
}

impl View for SessionInput {
    type V = SessionInputV;

    open spec fn view(&self) -> SessionInputV {
        SessionInputV {
            session_id: self.session_id@,
            created_ts: self.created_ts,
            events: event_views(self.events@),
            skipped_lines: self.skipped_lines as nat,
            usage: match self.usage {
                Some(u) => Some(u@),
                None => None,
            },
        }
    }
}

/// The contents of what was read of sessions.
pub open spec fn input_views(v: Seq<SessionInput>) -> Seq<SessionInputV> {
    Seq::new(v.len(), |i: int| v[i]@)
}

// ---------------------------------------------------------------------------
// Tokens of models
// ---------------------------------------------------------------------------

/// Token totals of one model, over several sessions.
#[derive(Debug, Clone, PartialEq, Eq)]
pub struct ModelTokenTotals {
    /// The model.
    pub model: String,
    /// Sum of the input tokens.
    pub input_tokens: u64,
    /// Sum of the output tokens.
    pub output_tokens: u64,
    /// Sum of the cache creation tokens.
    pub cache_creation_input_tokens: u64,
    /// Sum of the cache read tokens.
    pub cache_read_input_tokens: u64,
}

/// The contents of [`ModelTokenTotals`].
pub ghost struct TotalsV {
    pub model: Seq<char>,
    pub tokens: TokenCounts,
}

impl View for ModelTokenTotals {
    type V = TotalsV;

    open spec fn view(&self) -> TotalsV {
        TotalsV {
            model: self.model@,
            tokens: TokenCounts {
                input_tokens: self.input_tokens,
                output_tokens: self.output_tokens,
                cache_creation_input_tokens: self.cache_creation_input_tokens,
                cache_read_input_tokens: self.cache_read_input_tokens,
            },
        }
    }
}

impl Named for ModelTokenTotals {
    open spec fn key(self) -> Seq<char> {
        self.model@
    }

    fn key_text(&self) -> (r: &str) {
        self.model.as_str()
    }
}

/// The contents of a list of totals.
pub open spec fn totals_views(v: Seq<ModelTokenTotals>) -> Seq<TotalsV> {
    Seq::new(v.len(), |i: int| v[i]@)
}

/// The models of totals.
pub open spec fn model_names(ts: Seq<TotalsV>) -> Seq<Seq<char>> {
    Seq::new(ts.len(), |i: int| ts[i].model)
}

/// The totals with the usage of one more session.
pub open spec fn with_usage(ts: Seq<TotalsV>, u: ModelUsageV) -> Seq<TotalsV> {
    let k = name_rank(model_names(ts), u.model);
    if name_found(model_names(ts), u.model) {
        ts.update(k, TotalsV { model: u.model, tokens: counts_sum(ts[k].tokens, u.tokens) })
    } else {
        ts.insert(k, TotalsV { model: u.model, tokens: u.tokens })
    }
}

/// The totals with more usages.
pub open spec fn with_usages(ts: Seq<TotalsV>, us: Seq<ModelUsageV>) -> Seq<TotalsV>
    decreases us.len(),
{
    if us.len() == 0 {
        ts
    } else {
        with_usage(with_usages(ts, us.drop_last()), us.last())
    }
}

fn add_usage(ts: &mut Vec<ModelTokenTotals>, u: &ModelUsage)
    ensures
        totals_views(final(ts)@) == with_usage(totals_views(old(ts)@), u@),
{
    let ghost all = totals_views(ts@);
    proof {
        assert(names_in(ts@) =~= model_names(all));
        lemma_name_rank(model_names(all), u.model@);
    }
    let (k, found): (usize, bool) = find_name(ts, u.model.as_str());
    if found {
        let t = ModelTokenTotals {
            model: u.model.clone(),
            input_tokens: capped_add(ts[k].input_tokens, u.input_tokens),
            output_tokens: capped_add(ts[k].output_tokens, u.output_tokens),
            cache_creation_input_tokens: capped_add(
                ts[k].cache_creation_input_tokens,
                u.cache_creation_input_tokens,
            ),
            cache_read_input_tokens: capped_add(
                ts[k].cache_read_input_tokens,
                u.cache_read_input_tokens,
            ),
        };
        let ghost tv = t@;
        ts.set(k, t);
        proof {
            assert(totals_views(ts@) =~= all.update(k as int, tv));
        }
    } else {
        let t = ModelTokenTotals {
            model: u.model.clone(),
            input_tokens: u.input_tokens,
            output_tokens: u.output_tokens,
            cache_creation_input_tokens: u.cache_creation_input_tokens,
            cache_read_input_tokens: u.cache_read_input_tokens,
        };
        let ghost tv = t@;
        ts.insert(k, t);
        proof {
            assert(totals_views(ts@) =~= all.insert(k as int, tv));
        }
    }
}

fn add_usages(ts: &mut Vec<ModelTokenTotals>, us: &Vec<ModelUsage>)
    ensures
        totals_views(final(ts)@) == with_usages(totals_views(old(ts)@), usage_views(us@)),
{
    let ghost t0 = totals_views(ts@);
    let ghost uv = usage_views(us@);
    for i in 0..us.len()
        invariant
            uv == usage_views(us@),
            totals_views(ts@) == with_usages(t0, uv.take(i as int)),
    {
        proof {
            assert(uv.take(i + 1).drop_last() =~= uv.take(i as int));
            assert(uv.take(i + 1).last() == us@[i as int]@);
        }
        add_usage(ts, &us[i]);
    }
    proof {
        assert(uv.take(uv.len() as int) =~= uv);
    }
}

// ---------------------------------------------------------------------------
// One session
// ---------------------------------------------------------------------------

/// The names with one more, unless it is one of them.
pub open spec fn with_name(names: Seq<Seq<char>>, name: Seq<char>) -> Seq<Seq<char>> {
    if names.contains(name) {
        names
    } else {
        names.push(name)
    }
}

/// The names with more, each once.
pub open spec fn with_names(names: Seq<Seq<char>>, more: Seq<Seq<char>>) -> Seq<Seq<char>>
    decreases more.len(),
{
    if more.len() == 0 {
        names
    } else {
        with_name(with_names(names, more.drop_last()), more.last())
    }
}

/// The files that tool calls name, each once.
pub open spec fn files_of(es: Seq<EventV>) -> Seq<Seq<char>>
    decreases es.len(),
{
    if es.len() == 0 {
        Seq::<Seq<char>>::empty()
    } else {
        let before = files_of(es.drop_last());
        match es.last().input("file_path"@) {
            Some(path) => if es.last().kind == EventKind::ToolCall {
                with_name(before, path)
            } else {
                before
            },
            None => before,
        }
    }
}

/// What a ledger takes of one session.
pub ghost struct MetricsV {
    /// The project: the first working directory, if there is one.
    pub key: Option<Seq<char>>,
    pub counts: CountsV,
    pub duration_ms: int,
    pub files: Seq<Seq<char>>,
    pub per_model: Seq<ModelUsageV>,
}

/// The start of a session: as recorded, or else the time of its first event.
pub open spec fn start_of(s: SessionInputV) -> Option<i64> {
    match s.created_ts {
        Some(t) => Some(t),
        None => if s.events.len() > 0 {
            Some(s.events[0].ts)
        } else {
            None
        },
    }
}

/// Whether a session is in the window. One of which no start is known is in no
/// window that has a lower bound.
pub open spec fn in_window(s: SessionInputV, since_ms: Option<i64>) -> bool {
    match since_ms {
        None => true,
        Some(since) => match start_of(s) {
            Some(t) => t >= since,
            None => false,
        },
    }
}

/// The span from the first to the last event, if that is later.
pub open spec fn wall_span(es: Seq<EventV>) -> int {
    if es.len() > 0 && es.last().ts > es.first().ts {
        es.last().ts - es.first().ts
    } else {
        0
    }
}

/// What a ledger counts of a session besides its events.
pub open spec fn session_counts(s: SessionInputV) -> CountsV {
    CountsV {
        sessions: 1,
        usage_unavailable: if s.usage is None {
            1
        } else {
            0
        },
        multi_cwd: if cwds_of(s.events).len() > 1 {
            1
        } else {
            0
        },
        unknown: if cwds_of(s.events).len() == 0 {
            1
        } else {
            0
        },
        corrupt_lines: s.skipped_lines,
        ..no_counts()
    }
}

/// What a ledger takes of a session.
pub open spec fn metrics_of(s: SessionInputV) -> MetricsV {
    MetricsV {
        key: if cwds_of(s.events).len() > 0 {
            Some(cwds_of(s.events)[0])
        } else {
            None
        },
        counts: activity_of(s.events).plus(session_counts(s)),
        duration_ms: wall_span(s.events),
        files: files_of(s.events),
        per_model: match s.usage {
            Some(u) => u.per_model,
            None => Seq::<ModelUsageV>::empty(),
        },
    }
}

/// What a ledger takes of the sessions in the window.
pub open spec fn metrics_in(ss: Seq<SessionInputV>, since_ms: Option<i64>) -> Seq<MetricsV>
    decreases ss.len(),
{
    if ss.len() == 0 {
        Seq::<MetricsV>::empty()
    } else {
        let before = metrics_in(ss.drop_last(), since_ms);
        if in_window(ss.last(), since_ms) {
            before.push(metrics_of(ss.last()))
        } else {
            before
        }
    }
}

struct SessionMetrics<'a> {
    key: Option<String>,
    counts: Counts,
    duration_ms: i64,
    files: Vec<String>,
    usage: &'a Option<SessionUsage>,
}

spec fn metrics_view(m: SessionMetrics<'_>) -> MetricsV {
    MetricsV {
        key: opt_view(m.key),
        counts: m.counts@,
        duration_ms: m.duration_ms as int,
        files: views(m.files@),
        per_model: match *m.usage {
            Some(u) => usage_views(u.per_model@),
            None => Seq::<ModelUsageV>::empty(),
        },
    }
}

fn add_name(names: &mut Vec<String>, name: &str)
    ensures
        views(final(names)@) == with_name(views(old(names)@), name@),
{
    let ghost n0 = views(names@);
    if !list_has(names, name) {
        names.push(name.to_owned());
        proof {
            assert(views(names@) =~= n0.push(name@));
        }
    }
}

fn add_names(names: &mut Vec<String>, more: &Vec<String>)
    ensures
        views(final(names)@) == with_names(views(old(names)@), views(more@)),
{
    let ghost n0 = views(names@);
    let ghost mv = views(more@);
    for i in 0..more.len()
        invariant
            mv == views(more@),
            views(names@) == with_names(n0, mv.take(i as int)),
    {
        proof {
            assert(mv.take(i + 1).drop_last() =~= mv.take(i as int));
            assert(mv.take(i + 1).last() == more@[i as int]@);
        }
        add_name(names, more[i].as_str());
    }
    proof {
        assert(mv.take(mv.len() as int) =~= mv);
    }
}

fn collect_files(events: &[AgentEvent]) -> (out: Vec<String>)
    ensures
        views(out@) == files_of(event_views(events@)),
{
    let ghost ev = event_views(events@);
    let mut out: Vec<String> = Vec::new();
    proof {
        assert(views(out@) =~= files_of(ev.take(0)));
    }
    for i in 0..events.len()
        invariant
            ev == event_views(events@),
            views(out@) == files_of(ev.take(i as int)),
    {
        proof {
            assert(ev.take(i + 1).drop_last() =~= ev.take(i as int));
            assert(ev.take(i + 1).last() == events@[i as int]@);
        }
        match (events[i].kind, events[i].tool_input_str("file_path")) {
            (EventKind::ToolCall, Some(path)) => {
                add_name(&mut out, path);
            },
            _ => {},
        }
    }
    proof {
        assert(ev.take(ev.len() as int) =~= ev);
    }
    out
}

/// Tells whether a session is in the window.
pub fn is_included(input: &SessionInput, since_ms: Option<i64>) -> (r: bool)
    ensures
        r == in_window(input@, since_ms),
{
    match since_ms {
        None => true,
        Some(since) => match input.created_ts {
            Some(t) => t >= since,
            None => if input.events.len() > 0 {
                input.events[0].ts >= since
            } else {
                false
            },
        },
    }
}

/// Takes of a session what a ledger takes, if the numbers can be told.
fn session_metrics<'a>(input: &'a SessionInput) -> (r: Option<SessionMetrics<'a>>)
    ensures
        match r {
            Some(m) => metrics_view(m) == metrics_of(input@) && metrics_of(input@).counts.fits()
                && span_fits(input@.events),
            None => !metrics_of(input@).counts.fits() || !span_fits(input@.events),
        },
{
    let summary = summarize(
        input.session_id.as_str(),
        input.created_ts,
        input.events.as_slice(),
    );
    let n: usize = summary.cwds.len();
    proof {
        assert(views(summary.cwds@).len() == n);
    }
    let key: Option<String> = if n > 0 {
        Some(summary.cwds[0].clone())
    } else {
        None
    };
    let duration_ms: i64 = match (summary.first_event_ts, summary.last_event_ts) {
        (Some(first), Some(last)) => {
            let d: i128 = last as i128 - first as i128;
            if d < i64::MIN as i128 || d > i64::MAX as i128 {
                return None;
            }
            if d > 0 {
                d as i64
            } else {
                0
            }
        },
        _ => 0,
    };
    let activity = match count_activity(input.events.as_slice()) {
        Some(c) => c,
        None => {
            return None;
        },
    };
    let mut own = zero_counts();
    own.sessions = 1;
    own.usage_unavailable = if input.usage.is_none() {
        1
    } else {
        0
    };
    own.multi_cwd = if n > 1 {
        1
    } else {
        0
    };
    own.unknown = if n == 0 {
        1
    } else {
        0
    };
    own.corrupt_lines = input.skipped_lines;
    proof {
        assert(own@ == session_counts(input@));
    }
    match add_counts(&activity, &own) {
        Some(counts) => Some(
            SessionMetrics {
                key,
                counts,
                duration_ms,
                files: collect_files(input.events.as_slice()),
                usage: &input.usage,
            },
        ),
        None => None,
    }
}

// ---------------------------------------------------------------------------
// Several sessions
// ---------------------------------------------------------------------------

/// What several sessions come to.
#[verifier::ext_equal]
pub ghost struct AccV {
    pub counts: CountsV,
    pub duration_ms: int,
    pub files: Seq<Seq<char>>,
    pub models: Seq<TotalsV>,
}

/// What no session comes to.
pub open spec fn empty_acc() -> AccV {
    AccV {
        counts: no_counts(),
        duration_ms: 0,
        files: Seq::<Seq<char>>::empty(),
        models: Seq::<TotalsV>::empty(),
    }
}

/// What sessions come to with one more.
pub open spec fn acc_with(a: AccV, m: MetricsV) -> AccV {
    AccV {
        counts: a.counts.plus(m.counts),
        duration_ms: capped_ms(a.duration_ms + m.duration_ms),
        files: with_names(a.files, m.files),
        models: with_usages(a.models, m.per_model),
    }
}

/// What sessions come to.
pub open spec fn acc_of(ms: Seq<MetricsV>) -> AccV
    decreases ms.len(),
{
    if ms.len() == 0 {
        empty_acc()
    } else {
        acc_with(acc_of(ms.drop_last()), ms.last())
    }
}

/// The sessions of one project.
pub ghost struct GroupV {
    pub key: Option<Seq<char>>,
    pub members: Seq<MetricsV>,
}

/// The position of the project `key`, or the number of projects.
pub open spec fn group_at(gs: Seq<GroupV>, key: Option<Seq<char>>) -> int
    decreases gs.len(),
{
    if gs.len() == 0 || gs[0].key == key {
        0
    } else {
        1 + group_at(gs.skip(1), key)
    }
}

/// The projects with one more session.
pub open spec fn with_member(gs: Seq<GroupV>, m: MetricsV) -> Seq<GroupV> {
    let k = group_at(gs, m.key);
    if k < gs.len() {
        gs.update(k, GroupV { key: m.key, members: gs[k].members.push(m) })
    } else {
        gs.push(GroupV { key: m.key, members: seq![m] })
    }
}

/// The projects of sessions, in the order in which they were first seen.
pub open spec fn grouped(ms: Seq<MetricsV>) -> Seq<GroupV>
    decreases ms.len(),
{
    if ms.len() == 0 {
        Seq::<GroupV>::empty()
    } else {
        with_member(grouped(ms.drop_last()), ms.last())
    }
}

/// Whether every number of the ledger can be told.
pub open spec fn digest_fits(ss: Seq<SessionInputV>, since_ms: Option<i64>) -> bool {
    &&& forall|i: int|
        0 <= i < ss.len() && in_window(#[trigger] ss[i], since_ms) ==> span_fits(ss[i].events)
    &&& acc_of(metrics_in(ss, since_ms)).counts.fits()
}

struct ProjectAcc {
    key: Option<String>,
    counts: Counts,
    duration_ms: i64,
    files: Vec<String>,
    models: Vec<ModelTokenTotals>,
}

spec fn acc_view(a: ProjectAcc) -> AccV {
    AccV {
        counts: a.counts@,
        duration_ms: a.duration_ms as int,
        files: views(a.files@),
        models: totals_views(a.models@),
    }
}

fn new_acc(key: Option<String>) -> (a: ProjectAcc)
    ensures
        acc_view(a) == empty_acc(),
        a.key == key,
{
    let a = ProjectAcc {
        key,
        counts: zero_counts(),
        duration_ms: 0,
        files: Vec::new(),
        models: Vec::new(),
    };
    proof {
        assert(acc_view(a) =~= empty_acc());
    }
    a
}

fn add_metrics(a: &mut ProjectAcc, m: &SessionMetrics<'_>)
    requires
        old(a).counts@.plus(m.counts@).fits(),
        m.duration_ms >= 0,
        old(a).duration_ms >= 0,
    ensures
        acc_view(*final(a)) == acc_with(acc_view(*old(a)), metrics_view(*m)),
        final(a).key == old(a).key,
        final(a).duration_ms >= 0,
{
    match add_counts(&a.counts, &m.counts) {
        Some(c) => {
            a.counts = c;
        },
        None => {},
    }
    if a.duration_ms > i64::MAX - m.duration_ms {
        a.duration_ms = i64::MAX;
    } else {
        a.duration_ms = a.duration_ms + m.duration_ms;
    }
    add_names(&mut a.files, &m.files);
    match m.usage {
        Some(u) => {
            add_usages(&mut a.models, &u.per_model);
        },
        None => {},
    }
}

spec fn acc_matches(a: ProjectAcc, g: GroupV) -> bool {
    opt_view(a.key) == g.key && acc_view(a) == acc_of(g.members) && a.duration_ms >= 0
}

spec fn accs_match(accs: Seq<ProjectAcc>, gs: Seq<GroupV>) -> bool {
    accs.len() == gs.len() && forall|i: int|
        0 <= i < accs.len() ==> acc_matches(#[trigger] accs[i], gs[i])
}

proof fn lemma_group_at(gs: Seq<GroupV>, key: Option<Seq<char>>, k: int)
    requires
        0 <= k <= gs.len(),
        forall|j: int| 0 <= j < k ==> (#[trigger] gs[j]).key != key,
        k < gs.len() ==> gs[k].key == key,
    ensures
        group_at(gs, key) == k,
    decreases k,
{
    if k > 0 {
        assert(gs[0].key != key);
        let t = gs.skip(1);
        assert forall|j: int| 0 <= j < k - 1 implies (#[trigger] t[j]).key != key by {
            assert(t[j] == gs[j + 1]);
        }
        lemma_group_at(t, key, k - 1);
    }
}

fn find_group(accs: &Vec<ProjectAcc>, key: &Option<String>, Ghost(gs): Ghost<Seq<GroupV>>) -> (k:
    usize)
    requires
        accs_match(accs@, gs),
    ensures
        k == group_at(gs, opt_view(*key)),
        k <= accs@.len(),
        k < accs@.len() ==> opt_view(accs@[k as int].key) == opt_view(*key),
{
    let mut k: usize = 0;
    while k < accs.len() && !same_opt(&accs[k].key, key)
        invariant
            k <= accs@.len(),
            accs_match(accs@, gs),
            forall|j: int| 0 <= j < k ==> (#[trigger] gs[j]).key != opt_view(*key),
        decreases accs@.len() - k,
    {
        proof {
            assert(acc_matches(accs@[k as int], gs[k as int]));
        }
        k = k + 1;
    }
    proof {
        if k < accs@.len() {
            assert(acc_matches(accs@[k as int], gs[k as int]));
        }
        lemma_group_at(gs, opt_view(*key), k as int);
    }
    k
}

proof fn lemma_counts_grow(ss: Seq<SessionInputV>, since_ms: Option<i64>, k: int)
    requires
        0 <= k <= ss.len(),
    ensures
        acc_of(metrics_in(ss.take(k), since_ms)).counts.within(
            acc_of(metrics_in(ss, since_ms)).counts,
        ),
    decreases ss.len(),
{
    if k < ss.len() {
        lemma_counts_grow(ss.drop_last(), since_ms, k);
        assert(ss.drop_last().take(k) =~= ss.take(k));
        if in_window(ss.last(), since_ms) {
            let b = metrics_in(ss.drop_last(), since_ms);
            assert(b.push(metrics_of(ss.last())).drop_last() =~= b);
        }
    } else {
        assert(ss.take(k) =~= ss);
    }
}

/// Adds a session to the projects and to the whole.
fn take_up(
    accs: &mut Vec<ProjectAcc>,
    all: &mut ProjectAcc,
    m: SessionMetrics<'_>,
    Ghost(ms): Ghost<Seq<MetricsV>>,
)
    requires
        accs_match(old(accs)@, grouped(ms)),
        acc_view(*old(all)) == acc_of(ms),
        old(all).duration_ms >= 0,
        m.duration_ms >= 0,
        acc_of(ms).counts.plus(m.counts@).fits(),
        forall|i: int|
            0 <= i < old(accs)@.len() ==> (#[trigger] old(accs)@[i]).counts@.within(
                acc_of(ms).counts,
            ),
    ensures
        accs_match(final(accs)@, grouped(ms.push(metrics_view(m)))),
        acc_view(*final(all)) == acc_of(ms.push(metrics_view(m))),
        final(all).duration_ms >= 0,
        forall|i: int|
            0 <= i < final(accs)@.len() ==> (#[trigger] final(accs)@[i]).counts@.within(
                acc_of(ms.push(metrics_view(m))).counts,
            ),
{
    let ghost mv = metrics_view(m);
    let ghost gs = grouped(ms);
    let ghost ms2 = ms.push(mv);
    proof {
        assert(ms2.drop_last() =~= ms);
        assert(ms2.last() == mv);
    }
    add_metrics(all, &m);
    let k: usize = find_group(accs, &m.key, Ghost(gs));
    if k < accs.len() {
        let ghost a0 = accs@;
        proof {
            assert(acc_matches(a0[k as int], gs[k as int]));
            assert(a0[k as int].counts@.within(acc_of(ms).counts));
        }
        let mut a = accs.remove(k);
        add_metrics(&mut a, &m);
        let ghost av = a;
        accs.insert(k, a);
        proof {
            let g2 = GroupV { key: mv.key, members: gs[k as int].members.push(mv) };
            assert(gs[k as int].members.push(mv).drop_last() =~= gs[k as int].members);
            assert(acc_matches(av, g2));
            assert(accs@ =~= a0.update(k as int, av));
            assert(grouped(ms2) == gs.update(k as int, g2));
            assert forall|i: int| 0 <= i < accs@.len() implies acc_matches(
                #[trigger] accs@[i],
                grouped(ms2)[i],
            ) by {
                if i != k {
                    assert(acc_matches(a0[i], gs[i]));
                }
            }
            assert forall|i: int| 0 <= i < accs@.len() implies (
            #[trigger] accs@[i]).counts@.within(acc_of(ms2).counts) by {
                if i != k {
                    assert(a0[i].counts@.within(acc_of(ms).counts));
                }
            }
        }
    } else {
        let ghost a0 = accs@;
        let mut a = new_acc(clone_opt(&m.key));
        add_metrics(&mut a, &m);
        let ghost av = a;
        accs.push(a);
        proof {
            let g2 = GroupV { key: mv.key, members: seq![mv] };
            assert(seq![mv].drop_last() =~= Seq::<MetricsV>::empty());
            assert(acc_of(Seq::<MetricsV>::empty()) == empty_acc());
            assert(acc_matches(av, g2));
            assert(grouped(ms2) == gs.push(g2));
            assert forall|i: int| 0 <= i < accs@.len() implies acc_matches(
                #[trigger] accs@[i],
                grouped(ms2)[i],
            ) by {
                if i < a0.len() {
                    assert(acc_matches(a0[i], gs[i]));
                }
            }
            assert forall|i: int| 0 <= i < accs@.len() implies (
            #[trigger] accs@[i]).counts@.within(acc_of(ms2).counts) by {
                if i < a0.len() {
                    assert(a0[i].counts@.within(acc_of(ms).counts));
                }
            }
        }
    }
}

/// Adds up the sessions in the window, for each project and for the whole, if the
/// numbers can be told.
fn gather(inputs: &[SessionInput], since_ms: Option<i64>) -> (r: Option<
    (Vec<ProjectAcc>, ProjectAcc),
>)
    ensures
        match r {
            Some((accs, all)) => digest_fits(input_views(inputs@), since_ms) && accs_match(
                accs@,
                grouped(metrics_in(input_views(inputs@), since_ms)),
            ) && acc_view(all) == acc_of(metrics_in(input_views(inputs@), since_ms)),
            None => !digest_fits(input_views(inputs@), since_ms),
        },
{
    let ghost iv = input_views(inputs@);
    let mut accs: Vec<ProjectAcc> = Vec::new();
    let mut all = new_acc(None);
    proof {
        assert(metrics_in(iv.take(0), since_ms) =~= Seq::<MetricsV>::empty());
        assert(accs_match(accs@, grouped(metrics_in(iv.take(0), since_ms))));
    }
    for i in 0..inputs.len()
        invariant
            iv == input_views(inputs@),
            accs_match(accs@, grouped(metrics_in(iv.take(i as int), since_ms))),
            acc_view(all) == acc_of(metrics_in(iv.take(i as int), since_ms)),
            all.duration_ms >= 0,
            all.counts@.fits(),
            forall|k: int| 0 <= k < accs@.len() ==> (#[trigger] accs@[k]).counts@.within(
                all.counts@,
            ),
            forall|k: int|
                0 <= k < i && in_window(#[trigger] iv[k], since_ms) ==> span_fits(iv[k].events),
    {
        let ghost ms = metrics_in(iv.take(i as int), since_ms);
        proof {
            assert(iv.take(i + 1).drop_last() =~= iv.take(i as int));
            assert(iv.take(i + 1).last() == inputs@[i as int]@);
            assert(iv[i as int] == inputs@[i as int]@);
            lemma_counts_grow(iv, since_ms, i + 1);
        }
        if is_included(&inputs[i], since_ms) {
            proof {
                let m = metrics_of(iv[i as int]);
                assert(ms.push(m).drop_last() =~= ms);
                assert(acc_of(ms.push(m)).counts == acc_of(ms).counts.plus(m.counts));
            }
            let m = match session_metrics(&inputs[i]) {
                Some(m) => m,
                None => {
                    return None;
                },
            };
            if add_counts(&all.counts, &m.counts).is_none() {
                return None;
            }
            take_up(&mut accs, &mut all, m, Ghost(ms));
        }
    }
    proof {
        assert(iv.take(iv.len() as int) =~= iv);
    }
    Some((accs, all))
}

/// Tells whether every number of the ledger can be told.
pub fn digest_can_be_told(inputs: &[SessionInput], since_ms: Option<i64>) -> (r: bool)
    ensures
        r == digest_fits(input_views(inputs@), since_ms),
{
    gather(inputs, since_ms).is_some()
}

// ---------------------------------------------------------------------------
// The report
// ---------------------------------------------------------------------------

/// The ledger of one project.
#[derive(Debug, PartialEq, Eq)]
pub struct ProjectDigest {
    /// Display name: the last component of the path.
    pub name: String,
    /// The working directory, or `unknown project`.
    pub path: String,
    /// Whether no working directory is known.
    pub is_unknown: bool,
    /// Sessions.
    pub sessions: usize,
    /// Sum of the spans of the sessions.
    pub duration_ms: i64,
    /// Prompts of the user.
    pub prompts: usize,
    /// Tool calls.
    pub tool_calls: usize,
    /// Commands.
    pub commands: usize,
    /// Distinct files named.
    pub files_touched: usize,
    /// Flags of commands.
    pub flags: FlagCounts,
    /// Test-like commands.
    pub test_activity: TestActivity,
    /// Token totals of each model.
    pub per_model: Vec<ModelTokenTotals>,
    /// The models, in order.
    pub models_used: Vec<String>,
    /// Sessions without a record of their usage.
    pub sessions_usage_unavailable: usize,
    /// Sessions in more than one working directory.
    pub multi_cwd_sessions: usize,
}

/// The contents of a [`ProjectDigest`].
pub ghost struct ProjectV {
    pub name: Seq<char>,
    pub path: Seq<char>,
    pub is_unknown: bool,
    pub sessions: usize,
    pub duration_ms: i64,
    pub prompts: usize,
    pub tool_calls: usize,
    pub commands: usize,
    pub files_touched: usize,
    pub flags: FlagCounts,
    pub test_activity: TestActivity,
    pub per_model: Seq<TotalsV>,
    pub models_used: Seq<Seq<char>>,
    pub sessions_usage_unavailable: usize,
    pub multi_cwd_sessions: usize,
}

impl View for ProjectDigest {
    type V = ProjectV;

    open spec fn view(&self) -> ProjectV {
        ProjectV {
            name: self.name@,
            path: self.path@,
            is_unknown: self.is_unknown,
            sessions: self.sessions,
            duration_ms: self.duration_ms,
            prompts: self.prompts,
            tool_calls: self.tool_calls,
            commands: self.commands,
            files_touched: self.files_touched,
            flags: self.flags,
            test_activity: self.test_activity,
            per_model: totals_views(self.per_model@),
            models_used: views(self.models_used@),
            sessions_usage_unavailable: self.sessions_usage_unavailable,
            multi_cwd_sessions: self.multi_cwd_sessions,
        }
    }
}

/// The contents of a list of projects.
pub open spec fn project_views(v: Seq<ProjectDigest>) -> Seq<ProjectV> {
    Seq::new(v.len(), |i: int| v[i]@)
}

/// The sums over the window.
#[derive(Debug, PartialEq, Eq)]
pub struct OverallTotals {
    /// Projects.
    pub projects: usize,
    /// Sessions.
    pub sessions: usize,
    /// Sum of the spans of the sessions.
    pub duration_ms: i64,
    /// Prompts of the user.
    pub prompts: usize,
    /// Tool calls.
    pub tool_calls: usize,
    /// Commands.
    pub commands: usize,
    /// Distinct files named.
    pub files_touched: usize,
    /// Flags of commands.
    pub flags: FlagCounts,
    /// Test-like commands.
    pub test_activity: TestActivity,
    /// Token totals of each model.
    pub per_model: Vec<ModelTokenTotals>,
    /// The models, in order.
    pub models_used: Vec<String>,
}

/// The contents of [`OverallTotals`].
pub ghost struct OverallV {
    pub projects: usize,
    pub sessions: usize,
    pub duration_ms: i64,
    pub prompts: usize,
    pub tool_calls: usize,
    pub commands: usize,
    pub files_touched: usize,
    pub flags: FlagCounts,
    pub test_activity: TestActivity,
    pub per_model: Seq<TotalsV>,
    pub models_used: Seq<Seq<char>>,
}

impl View for OverallTotals {
    type V = OverallV;

    open spec fn view(&self) -> OverallV {
        OverallV {
            projects: self.projects,
            sessions: self.sessions,
            duration_ms: self.duration_ms,
            prompts: self.prompts,
            tool_calls: self.tool_calls,
            commands: self.commands,
            files_touched: self.files_touched,
            flags: self.flags,
            test_activity: self.test_activity,
            per_model: totals_views(self.per_model@),
            models_used: views(self.models_used@),
        }
    }
}

/// What a reader of the numbers has to know.
#[derive(Debug, Clone, Copy, PartialEq, Eq, Structural)]
pub struct HonestySurfaces {
    /// Sessions without a record of their usage.
    pub sessions_usage_unavailable: usize,
    /// Sessions of no known project.
    pub unknown_project_sessions: usize,
    /// Sessions in more than one working directory.
    pub multi_cwd_sessions: usize,
    /// Lines that could not be read.
    pub corrupt_lines: usize,
}

/// The window of a ledger.
#[derive(Debug, Clone, Copy, PartialEq, Eq, Structural)]
pub struct WindowDescriptor {
    /// The selector.
    pub kind: WindowKind,
    /// The lower bound, or none for all history.
    pub since_ms: Option<i64>,
    /// The upper bound.
    pub now_ms: i64,
}

/// The ledger.
#[derive(Debug, PartialEq, Eq)]
pub struct DigestReport {
    /// The window.
    pub window: WindowDescriptor,
    /// The projects, the most active first, the unknown one last.
    pub projects: Vec<ProjectDigest>,
    /// The sums over the window.
    pub totals: OverallTotals,
    /// What a reader of the numbers has to know.
    pub honesty: HonestySurfaces,
}

/// The contents of a [`DigestReport`].
pub ghost struct DigestV {
    pub window: WindowDescriptor,
    pub projects: Seq<ProjectV>,
    pub totals: OverallV,
    pub honesty: HonestySurfaces,
}

impl View for DigestReport {
    type V = DigestV;

    open spec fn view(&self) -> DigestV {
        DigestV {
            window: self.window,
            projects: project_views(self.projects@),
            totals: self.totals@,
            honesty: self.honesty,
        }
    }
}

/// The flags of counts.
pub open spec fn flags_in(c: CountsV) -> FlagCounts {
    FlagCounts { critical: c.critical as usize, warning: c.warning as usize }
}

/// The test-like commands of counts.
pub open spec fn tests_in(c: CountsV) -> TestActivity {
    TestActivity {
        test: c.test as usize,
        build: c.build as usize,
        lint: c.lint as usize,
        ok: c.ok as usize,
        failed: c.failed as usize,
        no_result: c.no_result as usize,
    }
}

/// The ledger of a project, from what its sessions come to.
pub open spec fn project_of(key: Option<Seq<char>>, a: AccV) -> ProjectV {
    ProjectV {
        name: match key {
            Some(path) => last_component(path),
            None => "unknown project"@,
        },
        path: match key {
            Some(path) => path,
            None => "unknown project"@,
        },
        is_unknown: key is None,
        sessions: a.counts.sessions as usize,
        duration_ms: a.duration_ms as i64,
        prompts: a.counts.prompts as usize,
        tool_calls: a.counts.tool_calls as usize,
        commands: a.counts.commands as usize,
        files_touched: a.files.len() as usize,
        flags: flags_in(a.counts),
        test_activity: tests_in(a.counts),
        per_model: a.models,
        models_used: model_names(a.models),
        sessions_usage_unavailable: a.counts.usage_unavailable as usize,
        multi_cwd_sessions: a.counts.multi_cwd as usize,
    }
}

/// The ledgers of projects, in order.
pub open spec fn projects_of(gs: Seq<GroupV>) -> Seq<ProjectV> {
    Seq::new(gs.len(), |i: int| project_of(gs[i].key, acc_of(gs[i].members)))
}

/// Whether `a` stands before `b`: the unknown project last, then the one with
/// more sessions first, then by path.
pub open spec fn project_before(a: ProjectV, b: ProjectV) -> bool {
    if a.is_unknown != b.is_unknown {
        b.is_unknown
    } else if a.sessions != b.sessions {
        a.sessions > b.sessions
    } else {
        text_lt(a.path, b.path)
    }
}

/// The projects in the order of the ledger.
pub open spec fn ranked_projects(ps: Seq<ProjectV>) -> Seq<ProjectV> {
    sorted_by(ps, |a: ProjectV, b: ProjectV| project_before(a, b))
}

/// The sums over the window, from what all its sessions come to.
pub open spec fn overall_of(projects: int, a: AccV) -> OverallV {
    OverallV {
        projects: projects as usize,
        sessions: a.counts.sessions as usize,
        duration_ms: a.duration_ms as i64,
        prompts: a.counts.prompts as usize,
        tool_calls: a.counts.tool_calls as usize,
        commands: a.counts.commands as usize,
        files_touched: a.files.len() as usize,
        flags: flags_in(a.counts),
        test_activity: tests_in(a.counts),
        per_model: a.models,
        models_used: model_names(a.models),
    }
}

/// What a reader has to know, from what all sessions of the window come to.
pub open spec fn honesty_of(a: AccV) -> HonestySurfaces {
    HonestySurfaces {
        sessions_usage_unavailable: a.counts.usage_unavailable as usize,
        unknown_project_sessions: a.counts.unknown as usize,
        multi_cwd_sessions: a.counts.multi_cwd as usize,
        corrupt_lines: a.counts.corrupt_lines as usize,
    }
}

/// The ledger of sessions.
pub open spec fn digest_of(
    ss: Seq<SessionInputV>,
    now_ms: i64,
    since_ms: Option<i64>,
    mode: WindowMode,
) -> DigestV {
    let ms = metrics_in(ss, since_ms);
    let gs = grouped(ms);
    DigestV {
        window: WindowDescriptor { kind: mode.spec_kind(), since_ms, now_ms },
        projects: ranked_projects(projects_of(gs)),
        totals: overall_of(gs.len() as int, acc_of(ms)),
        honesty: honesty_of(acc_of(ms)),
    }
}

impl Ordered for ProjectDigest {
    open spec fn before(a: Self, b: Self) -> bool {
        project_before(a@, b@)
    }

    fn comes_before(&self, other: &Self) -> (r: bool) {
        if self.is_unknown != other.is_unknown {
            other.is_unknown
        } else if self.sessions != other.sessions {
            self.sessions > other.sessions
        } else {
            text_less(self.path.as_str(), other.path.as_str())
        }
    }
}

fn names_of(models: &Vec<ModelTokenTotals>) -> (out: Vec<String>)
    ensures
        views(out@) == model_names(totals_views(models@)),
{
    let mut out: Vec<String> = Vec::new();
    for i in 0..models.len()
        invariant
            out@.len() == i,
            forall|k: int| 0 <= k < i ==> (#[trigger] out@[k])@ == models@[k].model@,
    {
        out.push(models[i].model.clone());
    }
    proof {
        assert(views(out@) =~= model_names(totals_views(models@)));
    }
    out
}

fn finalize(a: ProjectAcc) -> (r: ProjectDigest)
    ensures
        r@ == project_of(opt_view(a.key), acc_view(a)),
{
    let is_unknown = a.key.is_none();
    let (name, path): (String, String) = match &a.key {
        Some(path) => (basename(path.as_str()), path.clone()),
        None => ("unknown project".to_owned(), "unknown project".to_owned()),
    };
    let models_used = names_of(&a.models);
    proof {
        assert(views(a.files@).len() == a.files@.len());
    }
    ProjectDigest {
        name,
        path,
        is_unknown,
        sessions: a.counts.sessions,
        duration_ms: a.duration_ms,
        prompts: a.counts.prompts,
        tool_calls: a.counts.tool_calls,
        commands: a.counts.commands,
        files_touched: a.files.len(),
        flags: a.counts.flags,
        test_activity: a.counts.test_activity,
        per_model: a.models,
        models_used,
        sessions_usage_unavailable: a.counts.usage_unavailable,
        multi_cwd_sessions: a.counts.multi_cwd,
    }
}

fn overall_totals(projects: usize, a: ProjectAcc) -> (r: OverallTotals)
    ensures
        r@ == overall_of(projects as int, acc_view(a)),
{
    let models_used = names_of(&a.models);
    proof {
        assert(views(a.files@).len() == a.files@.len());
    }
    OverallTotals {
        projects,
        sessions: a.counts.sessions,
        duration_ms: a.duration_ms,
        prompts: a.counts.prompts,
        tool_calls: a.counts.tool_calls,
        commands: a.counts.commands,
        files_touched: a.files.len(),
        flags: a.counts.flags,
        test_activity: a.counts.test_activity,
        per_model: a.models,
        models_used,
    }
}

/// Puts the projects in the order of the ledger.
pub fn sort_projects(projects: Vec<ProjectDigest>) -> (out: Vec<ProjectDigest>)
    ensures
        project_views(out@) == ranked_projects(project_views(projects@)),
        out@.len() == projects@.len(),
{
    proof {
        let f = |x: ProjectDigest| x@;
        let lt2 = |a: ProjectV, b: ProjectV| project_before(a, b);
        assert(projects@.map_values(f) =~= project_views(projects@));
        lemma_sorted_map(projects@, f, own_order::<ProjectDigest>(), lt2);
        crate::order::lemma_sorted_len(projects@, own_order::<ProjectDigest>());
        let sorted = sorted_by(projects@, own_order::<ProjectDigest>());
        assert(project_views(sorted) =~= sorted.map_values(f));
    }
    sort(projects)
}

/// Makes the ledger of the sessions that are in the window.
pub fn build_digest(
    inputs: &[SessionInput],
    now_ms: i64,
    since_ms: Option<i64>,
    mode: WindowMode,
) -> (r: DigestReport)
    requires
        digest_fits(input_views(inputs@), since_ms),
    ensures
        r@ == digest_of(input_views(inputs@), now_ms, since_ms, mode),
{
    let ghost ms = metrics_in(input_views(inputs@), since_ms);
    let ghost gs = grouped(ms);
    let (accs, all): (Vec<ProjectAcc>, ProjectAcc) = match gather(inputs, since_ms) {
        Some(x) => x,
        None => (Vec::new(), new_acc(None)),
    };
    let ghost av = accs@;
    let mut projects: Vec<ProjectDigest> = Vec::new();
    for a in it: accs
        invariant
            it.seq() == av,
            accs_match(av, gs),
            projects@.len() == it.index(),
            forall|k: int|
                0 <= k < projects@.len() ==> (#[trigger] projects@[k])@ == project_of(
                    gs[k].key,
                    acc_of(gs[k].members),
                ),
    {
        proof {
            assert(acc_matches(av[it.index() as int], gs[it.index() as int]));
        }
        projects.push(finalize(a));
    }
    proof {
        assert(project_views(projects@) =~= projects_of(gs));
    }
    let projects = sort_projects(projects);
    let honesty = HonestySurfaces {
        sessions_usage_unavailable: all.counts.usage_unavailable,
        unknown_project_sessions: all.counts.unknown,
        multi_cwd_sessions: all.counts.multi_cwd,
        corrupt_lines: all.counts.corrupt_lines,
    };
    let totals = overall_totals(projects.len(), all);
    DigestReport {
        window: WindowDescriptor { kind: mode.kind(), since_ms, now_ms },
        projects,
        totals,
        honesty,
    }
}

// ---------------------------------------------------------------------------
// Markdown
// ---------------------------------------------------------------------------

/// The window in words.
pub open spec fn window_sentence_of(w: WindowDescriptor) -> Seq<char> {
    let now = utc_text(w.now_ms as int);
    match w.since_ms {
        None => "all recorded history, through "@ + now + " (UTC)"@,
        Some(since) => match w.kind {
            WindowKind::Today => "UTC today, "@ + utc_text(since as int) + " to "@ + now,
            WindowKind::Week => "last 7 UTC calendar days, "@ + utc_text(since as int) + " to "@
                + now,
            WindowKind::Since => "since "@ + utc_text(since as int) + " to "@ + now + " (UTC)"@,
            WindowKind::All => utc_text(since as int) + " to "@ + now + " (UTC)"@,
        },
    }
}

/// The flags in words.
pub open spec fn flag_line_of(f: FlagCounts) -> Seq<char> {
    "Command flags by matcher severity: critical "@ + decimal(f.critical as nat) + ", warning "@
        + decimal(f.warning as nat)
}

/// The test-like commands in words.
pub open spec fn test_line_of(t: TestActivity) -> Seq<char> {
    let total = (t.test + t.build + t.lint) as nat;
    if total == 0 {
        "Test-like commands recorded: 0"@
    } else {
        "Test-like commands recorded: "@ + decimal(total) + " (test "@ + decimal(t.test as nat)
            + ", build "@ + decimal(t.build as nat) + ", lint "@ + decimal(t.lint as nat)
            + ") — status: "@ + decimal(t.ok as nat) + " ok, "@ + decimal(t.failed as nat)
            + " failed, "@ + decimal(t.no_result as nat) + " no-result"@
    }
}

/// The totals of a model in words.
pub open spec fn model_line_of(t: TotalsV) -> Seq<char> {
    "  - "@ + t.model + ": input "@ + decimal(t.tokens.input_tokens as nat) + ", output "@
        + decimal(t.tokens.output_tokens as nat) + ", cache-creation "@ + decimal(
        t.tokens.cache_creation_input_tokens as nat,
    ) + ", cache-read "@ + decimal(t.tokens.cache_read_input_tokens as nat)
}

/// The totals of models in words.
pub open spec fn model_lines_of(ts: Seq<TotalsV>) -> Seq<Seq<char>> {
    if ts.len() == 0 {
        seq!["  - _No usage sidecars available._"@]
    } else {
        Seq::new(ts.len(), |i: int| model_line_of(ts[i]))
    }
}

/// The lines that tell what sessions come to.
pub open spec fn activity_lines_of(
    sessions: usize,
    duration_ms: i64,
    prompts: usize,
    tool_calls: usize,
    commands: usize,
    files_touched: usize,
    flags: FlagCounts,
    tests: TestActivity,
) -> Seq<Seq<char>> {
    seq![
        "- Sessions: "@ + decimal(sessions as nat),
        "- Duration (summed wall-span): "@ + duration_text(duration_ms as int),
        "- Prompts (user, hook-sourced): "@ + decimal(prompts as nat),
        "- Tool calls: "@ + decimal(tool_calls as nat),
        "- Commands (Bash): "@ + decimal(commands as nat),
        "- Files touched (distinct): "@ + decimal(files_touched as nat),
        "- "@ + flag_line_of(flags),
        "- "@ + test_line_of(tests),
    ]
}

/// The section of the sums.
pub open spec fn totals_lines_of(t: OverallV) -> Seq<Seq<char>> {
    seq!["## Overall totals"@, ""@, "- Projects: "@ + decimal(t.projects as nat)]
        + activity_lines_of(
        t.sessions,
        t.duration_ms,
        t.prompts,
        t.tool_calls,
        t.commands,
        t.files_touched,
        t.flags,
        t.test_activity,
    ) + seq!["- Token totals from available usage sidecars:"@] + model_lines_of(t.per_model) + seq![
        ""@,
    ]
}

/// The line of the models of a project, where it has any.
pub open spec fn models_used_lines(models: Seq<Seq<char>>) -> Seq<Seq<char>> {
    if models.len() == 0 {
        Seq::<Seq<char>>::empty()
    } else {
        seq!["- Models used: "@ + joined(models, ", "@)]
    }
}

/// The part of a project.
pub open spec fn project_lines_of(p: ProjectV) -> Seq<Seq<char>> {
    seq!["### "@ + p.name + " (`"@ + p.path + "`)"@, ""@] + activity_lines_of(
        p.sessions,
        p.duration_ms,
        p.prompts,
        p.tool_calls,
        p.commands,
        p.files_touched,
        p.flags,
        p.test_activity,
    ) + models_used_lines(p.models_used) + seq!["- Token totals from available usage sidecars:"@]
        + model_lines_of(p.per_model) + seq![
        "- Usage unavailable: "@ + decimal(p.sessions_usage_unavailable as nat) + " session(s)"@,
        "- Multi-cwd sessions: "@ + decimal(p.multi_cwd_sessions as nat)
            + " (attributed to their first observed cwd)"@,
        ""@,
    ]
}

/// The parts of projects.
pub open spec fn all_projects_lines(ps: Seq<ProjectV>) -> Seq<Seq<char>>
    decreases ps.len(),
{
    if ps.len() == 0 {
        Seq::<Seq<char>>::empty()
    } else {
        all_projects_lines(ps.drop_last()) + project_lines_of(ps.last())
    }
}

/// The section of the projects.
pub open spec fn projects_lines_of(ps: Seq<ProjectV>) -> Seq<Seq<char>> {
    if ps.len() == 0 {
        seq!["## Projects"@, ""@, "_No sessions in this window._"@, ""@]
    } else {
        seq!["## Projects"@, ""@] + all_projects_lines(ps)
    }
}

/// The section of what a reader has to know.
pub open spec fn honesty_lines_of(h: HonestySurfaces) -> Seq<Seq<char>> {
    seq![
        "## Honesty surfaces"@,
        ""@,
        "- Usage unavailable: "@ + decimal(h.sessions_usage_unavailable as nat)
            + " session(s) — token totals exclude these; an absent sidecar is not zero tokens."@,
        "- Unknown-project sessions: "@ + decimal(h.unknown_project_sessions as nat)
            + " — no cwd was observed in the session's events."@,
        "- Multi-cwd sessions: "@ + decimal(h.multi_cwd_sessions as nat)
            + " — attributed to their first observed cwd; the count is disclosed per project."@,
        "- Corrupt/skipped lines: "@ + decimal(h.corrupt_lines as nat)
            + " — unreadable JSONL lines across included sessions."@,
        ""@,
    ]
}

/// The section on what the ledger covers.
pub open spec fn digest_scope() -> Seq<Seq<char>> {
    seq![
        "## Scope"@,
        ""@,
        "- This digest is FACTS ONLY: counts, durations, and token totals. It makes no judgment about efficiency, model choice, or command class — that belongs to the agent/audit layer, not the CLI."@,
        "- Command flag counts are destructive-class pattern-matcher hits over recorded command text, not policy judgments or verdicts."@,
        "- Test-like command counts are a best-effort classifier over recorded command text (a runner not in the table is not counted); a `no-result` is an unpaired call whose outcome was not observed, never a failure."@,
        "- A session is included when its start falls inside the window; its whole totals are counted. Usage sidecars are per-session and cannot be sliced to a sub-window."@,
        "- Duration is each session's wall-span (first to last recorded event): it includes idle time between turns, and concurrent sessions' spans overlap, so the summed figure is span coverage, NOT additive time worked (it can exceed real elapsed time)."@,
        "- All times are UTC."@,
    ]
}

/// The lines of a ledger.
pub open spec fn digest_lines(r: DigestV) -> Seq<Seq<char>> {
    seq![
        "# Delegation digest"@,
        ""@,
        "_A factual, cross-session ledger of what your agents did, grouped by project. Observation only: every number derives from recorded hook events._"@,
        ""@,
        "Digest window: "@ + window_sentence_of(r.window),
        ""@,
    ] + totals_lines_of(r.totals) + projects_lines_of(r.projects) + honesty_lines_of(r.honesty)
        + digest_scope()
}

fn window_sentence(w: &WindowDescriptor) -> (out: String)
    ensures
        out@ == window_sentence_of(*w),
{
    let now = format_utc(w.now_ms);
    match w.since_ms {
        None => "all recorded history, through ".to_owned().concat(now.as_str()).concat(" (UTC)"),
        Some(since) => {
            let from = format_utc(since);
            match w.kind {
                WindowKind::Today => "UTC today, ".to_owned().concat(from.as_str()).concat(
                    " to ",
                ).concat(now.as_str()),
                WindowKind::Week => "last 7 UTC calendar days, ".to_owned().concat(
                    from.as_str(),
                ).concat(" to ").concat(now.as_str()),
                WindowKind::Since => "since ".to_owned().concat(from.as_str()).concat(
                    " to ",
                ).concat(now.as_str()).concat(" (UTC)"),
                WindowKind::All => from.concat(" to ").concat(now.as_str()).concat(" (UTC)"),
            }
        },
    }
}

fn flag_line(f: &FlagCounts) -> (out: String)
    ensures
        out@ == flag_line_of(*f),
{
    "Command flags by matcher severity: critical ".to_owned().concat(
        decimal_usize(f.critical).as_str(),
    ).concat(", warning ").concat(decimal_usize(f.warning).as_str())
}

fn test_activity_line(t: &TestActivity) -> (out: String)
    ensures
        out@ == test_line_of(*t),
{
    let total: u128 = t.test as u128 + t.build as u128 + t.lint as u128;
    if total == 0 {
        return "Test-like commands recorded: 0".to_owned();
    }
    "Test-like commands recorded: ".to_owned().concat(decimal_u128(total).as_str()).concat(
        " (test ",
    ).concat(decimal_usize(t.test).as_str()).concat(", build ").concat(
        decimal_usize(t.build).as_str(),
    ).concat(", lint ").concat(decimal_usize(t.lint).as_str()).concat(") — status: ").concat(
        decimal_usize(t.ok).as_str(),
    ).concat(" ok, ").concat(decimal_usize(t.failed).as_str()).concat(" failed, ").concat(
        decimal_usize(t.no_result).as_str(),
    ).concat(" no-result")
}

fn model_line(t: &ModelTokenTotals) -> (out: String)
    ensures
        out@ == model_line_of(t@),
{
    "  - ".to_owned().concat(t.model.as_str()).concat(": input ").concat(
        decimal_u64(t.input_tokens).as_str(),
    ).concat(", output ").concat(decimal_u64(t.output_tokens).as_str()).concat(
        ", cache-creation ",
    ).concat(decimal_u64(t.cache_creation_input_tokens).as_str()).concat(", cache-read ").concat(
        decimal_u64(t.cache_read_input_tokens).as_str(),
    )
}

fn render_model_totals(models: &Vec<ModelTokenTotals>) -> (out: Vec<String>)
    ensures
        views(out@) == model_lines_of(totals_views(models@)),
{
    let mut out = no_lines();
    let ghost tv = totals_views(models@);
    if models.len() == 0 {
        line(&mut out, "  - _No usage sidecars available._");
        proof {
            assert(views(out@) =~= model_lines_of(tv));
        }
        return out;
    }
    proof {
        assert(model_lines_of(tv).take(0) =~= Seq::<Seq<char>>::empty());
    }
    for i in 0..models.len()
        invariant
            models@.len() > 0,
            tv == totals_views(models@),
            views(out@) == model_lines_of(tv).take(i as int),
    {
        own_line(&mut out, model_line(&models[i]));
        proof {
            assert(views(out@) =~= model_lines_of(tv).take(i + 1));
        }
    }
    proof {
        assert(model_lines_of(tv).take(tv.len() as int) =~= model_lines_of(tv));
    }
    out
}

fn labelled(label: &str, n: usize) -> (out: String)
    ensures
        out@ == label@ + decimal(n as nat),
{
    label.to_owned().concat(decimal_usize(n).as_str())
}

fn render_activity(
    sessions: usize,
    duration_ms: i64,
    prompts: usize,
    tool_calls: usize,
    commands: usize,
    files_touched: usize,
    flags: &FlagCounts,
    tests: &TestActivity,
) -> (out: Vec<String>)
    ensures
        views(out@) == activity_lines_of(
            sessions,
            duration_ms,
            prompts,
            tool_calls,
            commands,
            files_touched,
            *flags,
            *tests,
        ),
{
    let mut out = no_lines();
    own_line(&mut out, labelled("- Sessions: ", sessions));
    own_line(
        &mut out,
        "- Duration (summed wall-span): ".to_owned().concat(
            format_duration_ms(duration_ms).as_str(),
        ),
    );
    own_line(&mut out, labelled("- Prompts (user, hook-sourced): ", prompts));
    own_line(&mut out, labelled("- Tool calls: ", tool_calls));
    own_line(&mut out, labelled("- Commands (Bash): ", commands));
    own_line(&mut out, labelled("- Files touched (distinct): ", files_touched));
    own_line(&mut out, "- ".to_owned().concat(flag_line(flags).as_str()));
    own_line(&mut out, "- ".to_owned().concat(test_activity_line(tests).as_str()));
    proof {
        assert(views(out@) =~= activity_lines_of(
            sessions,
            duration_ms,
            prompts,
            tool_calls,
            commands,
            files_touched,
            *flags,
            *tests,
        ));
    }
    out
}

fn one_line_list(s: &str) -> (out: Vec<String>)
    ensures
        views(out@) == seq![s@],
{
    let mut out = no_lines();
    line(&mut out, s);
    proof {
        assert(views(out@) =~= seq![s@]);
    }
    out
}

fn render_totals(t: &OverallTotals) -> (out: Vec<String>)
    ensures
        views(out@) == totals_lines_of(t@),
{
    let mut out = no_lines();
    line(&mut out, "## Overall totals");
    line(&mut out, "");
    own_line(&mut out, labelled("- Projects: ", t.projects));
    proof {
        assert(views(out@) =~= seq![
            "## Overall totals"@,
            ""@,
            "- Projects: "@ + decimal(t.projects as nat),
        ]);
    }
    add_lines(
        &mut out,
        render_activity(
            t.sessions,
            t.duration_ms,
            t.prompts,
            t.tool_calls,
            t.commands,
            t.files_touched,
            &t.flags,
            &t.test_activity,
        ),
    );
    add_lines(&mut out, one_line_list("- Token totals from available usage sidecars:"));
    add_lines(&mut out, render_model_totals(&t.per_model));
    add_lines(&mut out, one_line_list(""));
    out
}

fn render_project(p: &ProjectDigest) -> (out: Vec<String>)
    ensures
        views(out@) == project_lines_of(p@),
{
    let mut out = no_lines();
    own_line(
        &mut out,
        "### ".to_owned().concat(p.name.as_str()).concat(" (`").concat(p.path.as_str()).concat(
            "`)",
        ),
    );
    line(&mut out, "");
    proof {
        assert(views(out@) =~= seq!["### "@ + p.name@ + " (`"@ + p.path@ + "`)"@, ""@]);
    }
    add_lines(
        &mut out,
        render_activity(
            p.sessions,
            p.duration_ms,
            p.prompts,
            p.tool_calls,
            p.commands,
            p.files_touched,
            &p.flags,
            &p.test_activity,
        ),
    );
    let mut models = no_lines();
    proof {
        assert(views(p.models_used@).len() == p.models_used@.len());
    }
    if p.models_used.len() > 0 {
        own_line(
            &mut models,
            "- Models used: ".to_owned().concat(join(&p.models_used, ", ").as_str()),
        );
    }
    proof {
        assert(views(models@) =~= models_used_lines(views(p.models_used@)));
    }
    add_lines(&mut out, models);
    add_lines(&mut out, one_line_list("- Token totals from available usage sidecars:"));
    add_lines(&mut out, render_model_totals(&p.per_model));
    let mut tail = no_lines();
    own_line(
        &mut tail,
        labelled("- Usage unavailable: ", p.sessions_usage_unavailable).concat(" session(s)"),
    );
    own_line(
        &mut tail,
        labelled("- Multi-cwd sessions: ", p.multi_cwd_sessions).concat(
            " (attributed to their first observed cwd)",
        ),
    );
    line(&mut tail, "");
    proof {
        assert(views(tail@) =~= seq![
            "- Usage unavailable: "@ + decimal(p.sessions_usage_unavailable as nat)
                + " session(s)"@,
            "- Multi-cwd sessions: "@ + decimal(p.multi_cwd_sessions as nat)
                + " (attributed to their first observed cwd)"@,
            ""@,
        ]);
    }
    add_lines(&mut out, tail);
    out
}

fn render_projects(ps: &Vec<ProjectDigest>) -> (out: Vec<String>)
    ensures
        views(out@) == projects_lines_of(project_views(ps@)),
{
    let mut out = no_lines();
    let ghost pv = project_views(ps@);
    line(&mut out, "## Projects");
    line(&mut out, "");
    let ghost head = views(out@);
    if ps.len() == 0 {
        line(&mut out, "_No sessions in this window._");
        line(&mut out, "");
        proof {
            assert(views(out@) =~= projects_lines_of(pv));
        }
        return out;
    }
    proof {
        assert(head =~= seq!["## Projects"@, ""@]);
        assert(head + all_projects_lines(pv.take(0)) =~= head);
    }
    for i in 0..ps.len()
        invariant
            pv == project_views(ps@),
            views(out@) == head + all_projects_lines(pv.take(i as int)),
    {
        proof {
            assert(pv.take(i + 1).drop_last() =~= pv.take(i as int));
            assert(pv.take(i + 1).last() == ps@[i as int]@);
        }
        add_lines(&mut out, render_project(&ps[i]));
        proof {
            assert(views(out@) =~= head + all_projects_lines(pv.take(i + 1)));
        }
    }
    proof {
        assert(pv.take(pv.len() as int) =~= pv);
    }
    out
}

fn render_honesty(h: &HonestySurfaces) -> (out: Vec<String>)
    ensures
        views(out@) == honesty_lines_of(*h),
{
    let mut out = no_lines();
    line(&mut out, "## Honesty surfaces");
    line(&mut out, "");
    own_line(
        &mut out,
        labelled("- Usage unavailable: ", h.sessions_usage_unavailable).concat(
            " session(s) — token totals exclude these; an absent sidecar is not zero tokens.",
        ),
    );
    own_line(
        &mut out,
        labelled("- Unknown-project sessions: ", h.unknown_project_sessions).concat(
            " — no cwd was observed in the session's events.",
        ),
    );
    own_line(
        &mut out,
        labelled("- Multi-cwd sessions: ", h.multi_cwd_sessions).concat(
            " — attributed to their first observed cwd; the count is disclosed per project.",
        ),
    );
    own_line(
        &mut out,
        labelled("- Corrupt/skipped lines: ", h.corrupt_lines).concat(
            " — unreadable JSONL lines across included sessions.",
        ),
    );
    line(&mut out, "");
    proof {
        assert(views(out@) =~= honesty_lines_of(*h));
    }
    out
}

fn render_scope() -> (out: Vec<String>)
    ensures
        views(out@) == digest_scope(),
{
    let mut out = no_lines();
    line(&mut out, "## Scope");
    line(&mut out, "");
    line(
        &mut out,
        "- This digest is FACTS ONLY: counts, durations, and token totals. It makes no judgment about efficiency, model choice, or command class — that belongs to the agent/audit layer, not the CLI.",
    );
    line(
        &mut out,
        "- Command flag counts are destructive-class pattern-matcher hits over recorded command text, not policy judgments or verdicts.",
    );
    line(
        &mut out,
        "- Test-like command counts are a best-effort classifier over recorded command text (a runner not in the table is not counted); a `no-result` is an unpaired call whose outcome was not observed, never a failure.",
    );
    line(
        &mut out,
        "- A session is included when its start falls inside the window; its whole totals are counted. Usage sidecars are per-session and cannot be sliced to a sub-window.",
    );
    line(
        &mut out,
        "- Duration is each session's wall-span (first to last recorded event): it includes idle time between turns, and concurrent sessions' spans overlap, so the summed figure is span coverage, NOT additive time worked (it can exceed real elapsed time).",
    );
    line(&mut out, "- All times are UTC.");
    proof {
        assert(views(out@) =~= digest_scope());
    }
    out
}

/// Renders a ledger as a markdown document.
pub fn to_markdown(report: &DigestReport) -> (out: String)
    ensures
        out@ == lines_text(digest_lines(report@)),
{
    let mut all = no_lines();
    line(&mut all, "# Delegation digest");
    line(&mut all, "");
    line(
        &mut all,
        "_A factual, cross-session ledger of what your agents did, grouped by project. Observation only: every number derives from recorded hook events._",
    );
    line(&mut all, "");
    own_line(
        &mut all,
        "Digest window: ".to_owned().concat(window_sentence(&report.window).as_str()),
    );
    line(&mut all, "");
    proof {
        assert(views(all@) =~= seq![
            "# Delegation digest"@,
            ""@,
            "_A factual, cross-session ledger of what your agents did, grouped by project. Observation only: every number derives from recorded hook events._"@,
            ""@,
            "Digest window: "@ + window_sentence_of(report@.window),
            ""@,
        ]);
    }
    add_lines(&mut all, render_totals(&report.totals));
    add_lines(&mut all, render_projects(&report.projects));
    add_lines(&mut all, render_honesty(&report.honesty));
    add_lines(&mut all, render_scope());
    render_lines(&all)
}

// ---------------------------------------------------------------------------
// Laws
// ---------------------------------------------------------------------------

/// The sessions of a project, in order.
pub open spec fn sessions_of(ms: Seq<MetricsV>, key: Option<Seq<char>>) -> Seq<MetricsV>
    decreases ms.len(),
{
    if ms.len() == 0 {
        ms
    } else if ms.last().key == key {
        sessions_of(ms.drop_last(), key).push(ms.last())
    } else {
        sessions_of(ms.drop_last(), key)
    }
}

pub proof fn lemma_group_found(gs: Seq<GroupV>, key: Option<Seq<char>>)
    ensures
        0 <= group_at(gs, key) <= gs.len(),
        group_at(gs, key) < gs.len() ==> gs[group_at(gs, key)].key == key,
        forall|j: int| 0 <= j < group_at(gs, key) ==> (#[trigger] gs[j]).key != key,
    decreases gs.len(),
{
    if gs.len() > 0 && gs[0].key != key {
        lemma_group_found(gs.skip(1), key);
        assert forall|j: int| 0 <= j < group_at(gs, key) implies (#[trigger] gs[j]).key != key by {
            if j > 0 {
                assert(gs.skip(1)[j - 1] == gs[j]);
            }
        }
    }
}

/// Every session is in exactly one project, that of its first working directory,
/// and a project holds exactly its sessions.
pub proof fn every_session_is_in_one_project(ms: Seq<MetricsV>)
    ensures
        forall|i: int|
            0 <= i < grouped(ms).len() ==> (#[trigger] grouped(ms)[i]).members.len() > 0
                && grouped(ms)[i].members == sessions_of(ms, grouped(ms)[i].key),
        forall|i: int, j: int|
            0 <= i < j < grouped(ms).len() ==> (#[trigger] grouped(ms)[i]).key != (
            #[trigger] grouped(ms)[j]).key,
        forall|k: int|
            0 <= k < ms.len() ==> group_at(grouped(ms), (#[trigger] ms[k]).key) < grouped(
                ms,
            ).len(),
    decreases ms.len(),
{
    if ms.len() > 0 {
        let t = ms.drop_last();
        let m = ms.last();
        every_session_is_in_one_project(t);
        let gs = grouped(t);
        let out = grouped(ms);
        let k = group_at(gs, m.key);
        lemma_group_found(gs, m.key);
        assert forall|i: int| 0 <= i < out.len() implies (#[trigger] out[i]).members.len() > 0
            && out[i].members == sessions_of(ms, out[i].key) by {
            if i != k && i < gs.len() {
                assert(out[i] == gs[i]);
                if k < gs.len() {
                    if i < k {
                        assert(gs[i].key != gs[k].key);
                    } else {
                        assert(gs[k].key != gs[i].key);
                    }
                } else {
                    assert(gs[i].key != m.key);
                }
            } else if i == k && k < gs.len() {
                assert(gs[k].members == sessions_of(t, gs[k].key));
            } else {
                lemma_no_sessions(t, gs, m.key);
                assert(out[i].members =~= sessions_of(ms, out[i].key));
            }
        }
        assert forall|i: int, j: int| 0 <= i < j < out.len() implies (#[trigger] out[i]).key != (
        #[trigger] out[j]).key by {
            if j < gs.len() {
                assert(gs[i].key != gs[j].key);
            } else {
                assert(gs[i].key != m.key);
            }
        }
        assert forall|n: int| 0 <= n < ms.len() implies group_at(out, (#[trigger] ms[n]).key)
            < out.len() by {
            let key = ms[n].key;
            lemma_group_found(out, key);
            let at = group_at(out, key);
            if n < t.len() {
                assert(t[n] == ms[n]);
                assert(group_at(gs, t[n].key) < gs.len());
                lemma_group_found(gs, key);
                let b = group_at(gs, key);
                assert(out[b].key == key);
                if at > b {
                    assert(out[b].key != key);
                }
            } else {
                assert(out[k].key == key);
                if at > k {
                    assert(out[k].key != key);
                }
            }
        }
    }
}

proof fn lemma_no_sessions(ms: Seq<MetricsV>, gs: Seq<GroupV>, key: Option<Seq<char>>)
    requires
        gs == grouped(ms),
        group_at(gs, key) == gs.len(),
        forall|k: int|
            0 <= k < ms.len() ==> group_at(gs, (#[trigger] ms[k]).key) < gs.len(),
    ensures
        sessions_of(ms, key).len() == 0,
{
    assert forall|k: int| 0 <= k < ms.len() implies (#[trigger] ms[k]).key != key by {}
    lemma_no_matches(ms, key);
}

proof fn lemma_no_matches(ms: Seq<MetricsV>, key: Option<Seq<char>>)
    requires
        forall|k: int| 0 <= k < ms.len() ==> (#[trigger] ms[k]).key != key,
    ensures
        sessions_of(ms, key).len() == 0,
    decreases ms.len(),
{
    if ms.len() > 0 {
        assert(ms[ms.len() - 1].key != key);
        assert forall|k: int| 0 <= k < ms.drop_last().len() implies (
        #[trigger] ms.drop_last()[k]).key != key by {
            assert(ms.drop_last()[k] == ms[k]);
        }
        lemma_no_matches(ms.drop_last(), key);
    }
}

/// The counts of all projects together.
pub open spec fn groups_sum(gs: Seq<GroupV>) -> CountsV
    decreases gs.len(),
{
    if gs.len() == 0 {
        no_counts()
    } else {
        groups_sum(gs.drop_last()).plus(acc_of(gs.last().members).counts)
    }
}

proof fn lemma_groups_sum_update(gs: Seq<GroupV>, k: int, m: MetricsV)
    requires
        0 <= k < gs.len(),
    ensures
        groups_sum(gs.update(k, GroupV { key: m.key, members: gs[k].members.push(m) }))
            == groups_sum(gs).plus(m.counts),
    decreases gs.len(),
{
    let g = GroupV { key: m.key, members: gs[k].members.push(m) };
    let u = gs.update(k, g);
    if k == gs.len() - 1 {
        assert(u.drop_last() =~= gs.drop_last());
        assert(g.members.drop_last() =~= gs[k].members);
        assert(groups_sum(u) =~= groups_sum(gs).plus(m.counts));
    } else {
        lemma_groups_sum_update(gs.drop_last(), k, m);
        assert(u.drop_last() =~= gs.drop_last().update(k, g));
        assert(u.last() == gs.last());
        assert(groups_sum(u) =~= groups_sum(gs).plus(m.counts));
    }
}

/// The counts of the whole window are the sums of the counts of the projects.
pub proof fn projects_add_up(ms: Seq<MetricsV>)
    ensures
        groups_sum(grouped(ms)) == acc_of(ms).counts,
    decreases ms.len(),
{
    if ms.len() > 0 {
        let t = ms.drop_last();
        let m = ms.last();
        projects_add_up(t);
        let gs = grouped(t);
        lemma_group_found(gs, m.key);
        let k = group_at(gs, m.key);
        if k < gs.len() {
            lemma_groups_sum_update(gs, k, m);
        } else {
            let g = GroupV { key: m.key, members: seq![m] };
            assert(gs.push(g).drop_last() =~= gs);
            assert(seq![m].drop_last() =~= Seq::<MetricsV>::empty());
            assert(acc_of(Seq::<MetricsV>::empty()) == empty_acc());
            assert(acc_of(seq![m]) == acc_with(empty_acc(), m));
            assert(acc_of(seq![m]).counts =~= m.counts);
        }
    }
}

/// The number of sessions of all projects together.
pub open spec fn reported_sessions(ps: Seq<ProjectV>) -> int
    decreases ps.len(),
{
    if ps.len() == 0 {
        0
    } else {
        reported_sessions(ps.drop_last()) + ps.last().sessions
    }
}

proof fn lemma_reported_placed(
    t: Seq<ProjectV>,
    x: ProjectV,
    lt: spec_fn(ProjectV, ProjectV) -> bool,
)
    ensures
        reported_sessions(crate::order::placed(t, x, lt)) == reported_sessions(t) + x.sessions,
    decreases t.len(),
{
    if t.len() == 0 || !lt(x, t.last()) {
        assert(t.push(x).drop_last() =~= t);
    } else {
        lemma_reported_placed(t.drop_last(), x, lt);
        let p = crate::order::placed(t.drop_last(), x, lt);
        assert(p.push(t.last()).drop_last() =~= p);
    }
}

proof fn lemma_reported_sorted(ps: Seq<ProjectV>, lt: spec_fn(ProjectV, ProjectV) -> bool)
    ensures
        reported_sessions(sorted_by(ps, lt)) == reported_sessions(ps),
    decreases ps.len(),
{
    if ps.len() > 0 {
        lemma_reported_sorted(ps.drop_last(), lt);
        lemma_reported_placed(sorted_by(ps.drop_last(), lt), ps.last(), lt);
    }
}

proof fn lemma_reported_groups(gs: Seq<GroupV>)
    requires
        groups_sum(gs).sessions <= usize::MAX,
    ensures
        reported_sessions(projects_of(gs)) == groups_sum(gs).sessions,
    decreases gs.len(),
{
    if gs.len() > 0 {
        lemma_reported_groups(gs.drop_last());
        assert(projects_of(gs).drop_last() =~= projects_of(gs.drop_last()));
        assert(projects_of(gs).last() == project_of(gs.last().key, acc_of(gs.last().members)));
    }
}

/// The sessions of the projects of a ledger are all the sessions that it counts.
pub proof fn reported_sessions_add_up(
    ss: Seq<SessionInputV>,
    now_ms: i64,
    since_ms: Option<i64>,
    mode: WindowMode,
)
    requires
        digest_fits(ss, since_ms),
    ensures
        reported_sessions(digest_of(ss, now_ms, since_ms, mode).projects) == digest_of(
            ss,
            now_ms,
            since_ms,
            mode,
        ).totals.sessions,
        digest_of(ss, now_ms, since_ms, mode).totals.sessions == metrics_in(ss, since_ms).len(),
{
    let ms = metrics_in(ss, since_ms);
    projects_add_up(ms);
    lemma_reported_groups(grouped(ms));
    lemma_reported_sorted(
        projects_of(grouped(ms)),
        |a: ProjectV, b: ProjectV| project_before(a, b),
    );
    lemma_session_count(ss, since_ms);
}

proof fn lemma_session_count(ss: Seq<SessionInputV>, since_ms: Option<i64>)
    ensures
        acc_of(metrics_in(ss, since_ms)).counts.sessions == metrics_in(ss, since_ms).len(),
    decreases ss.len(),
{
    if ss.len() > 0 {
        lemma_session_count(ss.drop_last(), since_ms);
        if in_window(ss.last(), since_ms) {
            let b = metrics_in(ss.drop_last(), since_ms);
            assert(b.push(metrics_of(ss.last())).drop_last() =~= b);
            lemma_activity_has_no_sessions(ss.last().events);
        }
    }
}

proof fn lemma_activity_has_no_sessions(es: Seq<EventV>)
    ensures
        activity_of(es).sessions == 0,
{
    lemma_events_have_no_sessions(es);
    lemma_runs_have_no_sessions(crate::claim::runs_of(crate::timeline::timeline_of(es)));
}

proof fn lemma_events_have_no_sessions(es: Seq<EventV>)
    ensures
        crate::ledger::events_counts(es).sessions == 0,
    decreases es.len(),
{
    if es.len() > 0 {
        lemma_events_have_no_sessions(es.drop_last());
    }
}

proof fn lemma_runs_have_no_sessions(rs: Seq<crate::claim::TestRunV>)
    ensures
        crate::ledger::runs_counts(rs).sessions == 0,
    decreases rs.len(),
{
    if rs.len() > 0 {
        lemma_runs_have_no_sessions(rs.drop_last());
    }
}

/// The order of the ledger is an order.
pub proof fn ledger_order_is_an_order()
    ensures
        is_order(|a: ProjectV, b: ProjectV| project_before(a, b)),
{
    let lt = |a: ProjectV, b: ProjectV| project_before(a, b);
    assert forall|a: ProjectV| !#[trigger] lt(a, a) by {
        text_lt_total(a.path, a.path);
    }
    assert forall|a: ProjectV, b: ProjectV| #[trigger] lt(a, b) implies !lt(b, a) by {
        text_lt_total(a.path, b.path);
    }
    assert forall|a: ProjectV, b: ProjectV, c: ProjectV| #[trigger]
        lt(a, b) && !lt(c, b) implies #[trigger] lt(a, c) by {
        text_lt_total(b.path, c.path);
        if text_lt(a.path, b.path) && text_lt(b.path, c.path) {
            text_lt_transitive(a.path, b.path, c.path);
        }
    }
}

/// The projects of a ledger are all projects: the known ones first, those with
/// more sessions ahead of those with fewer.
pub proof fn the_unknown_project_comes_last(ps: Seq<ProjectV>, i: int, j: int)
    requires
        0 <= i < j < ranked_projects(ps).len(),
    ensures
        ranked_projects(ps).to_multiset() == ps.to_multiset(),
        ranked_projects(ps)[i].is_unknown ==> ranked_projects(ps)[j].is_unknown,
        ranked_projects(ps)[i].is_unknown == ranked_projects(ps)[j].is_unknown
            ==> ranked_projects(ps)[i].sessions >= ranked_projects(ps)[j].sessions,
{
    let lt = |a: ProjectV, b: ProjectV| project_before(a, b);
    ledger_order_is_an_order();
    sorted_by_sorts(ps, lt);
    assert(!lt(ranked_projects(ps)[j], ranked_projects(ps)[i]));
}

/// A session without a record of its usage adds no tokens, and is counted as one
/// without; one with a record is not, however few tokens it has.
pub proof fn unavailable_usage_is_not_zero_usage(a: AccV, s: SessionInputV)
    ensures
        s.usage is None ==> acc_with(a, metrics_of(s)).models == a.models,
        s.usage is None ==> acc_with(a, metrics_of(s)).counts.usage_unavailable
            == a.counts.usage_unavailable + 1,
        s.usage is Some ==> acc_with(a, metrics_of(s)).counts.usage_unavailable
            == a.counts.usage_unavailable,
{
    lemma_activity_has_usage(s.events);
}

proof fn lemma_activity_has_usage(es: Seq<EventV>)
    ensures
        activity_of(es).usage_unavailable == 0,
{
    lemma_events_have_usage(es);
    lemma_runs_have_usage(crate::claim::runs_of(crate::timeline::timeline_of(es)));
}

proof fn lemma_events_have_usage(es: Seq<EventV>)
    ensures
        crate::ledger::events_counts(es).usage_unavailable == 0,
    decreases es.len(),
{
    if es.len() > 0 {
        lemma_events_have_usage(es.drop_last());
    }
}

proof fn lemma_runs_have_usage(rs: Seq<crate::claim::TestRunV>)
    ensures
        crate::ledger::runs_counts(rs).usage_unavailable == 0,
    decreases rs.len(),
{
    if rs.len() > 0 {
        lemma_runs_have_usage(rs.drop_last());
    }
}

/// The tokens that usages report for a model, the greatest number standing for
/// all greater ones.
pub open spec fn tokens_for(us: Seq<ModelUsageV>, model: Seq<char>) -> TokenCounts
    decreases us.len(),
{
    if us.len() == 0 {
        TokenCounts {
            input_tokens: 0,
            output_tokens: 0,
            cache_creation_input_tokens: 0,
            cache_read_input_tokens: 0,
        }
    } else if us.last().model == model {
        counts_sum(tokens_for(us.drop_last(), model), us.last().tokens)
    } else {
        tokens_for(us.drop_last(), model)
    }
}

/// Whether `model` is one that usages report.
pub open spec fn is_reported(us: Seq<ModelUsageV>, model: Seq<char>) -> bool {
    exists|i: int| 0 <= i < us.len() && (#[trigger] us[i]).model == model
}

proof fn lemma_unreported(us: Seq<ModelUsageV>, model: Seq<char>)
    requires
        !is_reported(us, model),
    ensures
        tokens_for(us, model) == tokens_for(Seq::<ModelUsageV>::empty(), model),
    decreases us.len(),
{
    if us.len() > 0 {
        assert(us[us.len() - 1].model != model);
        assert forall|i: int| 0 <= i < us.drop_last().len() implies (
        #[trigger] us.drop_last()[i]).model != model by {
            assert(us[i].model != model);
        }
        lemma_unreported(us.drop_last(), model);
    }
}

/// The totals hold each model that was reported, in the order of the names, once,
/// with the sum of what was reported for it.
pub proof fn totals_hold_each_model(us: Seq<ModelUsageV>)
    ensures
        ({
            let ts = with_usages(Seq::<TotalsV>::empty(), us);
            &&& names_ordered(model_names(ts))
            &&& forall|model: Seq<char>|
                #[trigger] model_names(ts).contains(model) <==> is_reported(us, model)
            &&& forall|i: int|
                0 <= i < ts.len() ==> (#[trigger] ts[i]).tokens == tokens_for(us, ts[i].model)
        }),
    decreases us.len(),
{
    let ts = with_usages(Seq::<TotalsV>::empty(), us);
    if us.len() > 0 {
        let v = us.drop_last();
        let u = us.last();
        totals_hold_each_model(v);
        let t0 = with_usages(Seq::<TotalsV>::empty(), v);
        let n0 = model_names(t0);
        lemma_name_rank(n0, u.model);
        lemma_found_iff(n0, u.model);
        let k = name_rank(n0, u.model);
        assert(us[us.len() - 1].model == u.model);
        if name_found(n0, u.model) {
            assert(t0[k].model == n0[k]);
            assert(model_names(ts) =~= n0);
        } else {
            assert(!n0.contains(u.model));
            lemma_unreported(v, u.model);
            lemma_insert_ordered(n0, u.model);
            assert(model_names(ts) =~= n0.insert(k, u.model));
        }
        assert forall|model: Seq<char>| #[trigger] model_names(ts).contains(model) <==> is_reported(
            us,
            model,
        ) by {
            lemma_names_step(t0, ts, us, u, k, model);
        }
        assert forall|i: int| 0 <= i < ts.len() implies (#[trigger] ts[i]).tokens == tokens_for(
            us,
            ts[i].model,
        ) by {
            if name_found(n0, u.model) {
                if i != k {
                    assert(ts[i] == t0[i]);
                    if i < k {
                        assert(text_lt(n0[i], n0[k]));
                    } else {
                        assert(text_lt(n0[k], n0[i]));
                    }
                    text_lt_total(n0[i], n0[k]);
                    assert(n0[i] == t0[i].model);
                }
            } else {
                if i < k {
                    assert(ts[i] == t0[i]);
                    assert(n0[i] == t0[i].model);
                    assert(n0.contains(n0[i]));
                } else if i > k {
                    assert(ts[i] == t0[i - 1]);
                    assert(n0[i - 1] == t0[i - 1].model);
                    assert(n0.contains(n0[i - 1]));
                } else {
                    assert(ts[k].tokens == u.tokens);
                }
            }
        }
    } else {
        assert(model_names(ts).len() == 0);
        assert forall|model: Seq<char>| #[trigger] model_names(ts).contains(model) <==> is_reported(
            us,
            model,
        ) by {
        }
    }
}

proof fn lemma_names_step(
    t0: Seq<TotalsV>,
    ts: Seq<TotalsV>,
    us: Seq<ModelUsageV>,
    u: ModelUsageV,
    k: int,
    model: Seq<char>,
)
    requires
        us.len() > 0,
        u == us.last(),
        0 <= k <= t0.len(),
        model_names(ts) == (if name_found(model_names(t0), u.model) {
            model_names(t0)
        } else {
            model_names(t0).insert(k, u.model)
        }),
        name_found(model_names(t0), u.model) ==> model_names(t0).contains(u.model),
        forall|m: Seq<char>|
            #[trigger] model_names(t0).contains(m) <==> is_reported(us.drop_last(), m),
    ensures
        model_names(ts).contains(model) <==> is_reported(us, model),
{
    let n0 = model_names(t0);
    let n = model_names(ts);
    let v = us.drop_last();
    if n.contains(model) {
        let i = choose|i: int| 0 <= i < n.len() && n[i] == model;
        if !name_found(n0, u.model) && i == k {
            assert(us[us.len() - 1].model == model);
        } else {
            if name_found(n0, u.model) {
                assert(n0[i] == model);
            } else if i < k {
                assert(n0[i] == model);
            } else {
                assert(n0[i - 1] == model);
            }
            assert(n0.contains(model));
            assert(is_reported(v, model));
            let j = choose|j: int| 0 <= j < v.len() && (#[trigger] v[j]).model == model;
            assert(us[j].model == model);
        }
    }
    if is_reported(us, model) {
        let j = choose|j: int| 0 <= j < us.len() && (#[trigger] us[j]).model == model;
        if j < v.len() {
            assert(v[j].model == model);
            assert(is_reported(v, model));
            assert(n0.contains(model));
            let i = choose|i: int| 0 <= i < n0.len() && n0[i] == model;
            if name_found(n0, u.model) || i < k {
                assert(n[i] == model);
            } else {
                assert(n[i + 1] == model);
            }
        } else {
            assert(model == u.model);
            if !name_found(n0, u.model) {
                assert(n[k] == model);
            }
        }
    }
}

/// The usages of sessions, one session after the other.
pub open spec fn usages_of(ms: Seq<MetricsV>) -> Seq<ModelUsageV>
    decreases ms.len(),
{
    if ms.len() == 0 {
        Seq::<ModelUsageV>::empty()
    } else {
        usages_of(ms.drop_last()) + ms.last().per_model
    }
}

proof fn lemma_usages_append(ts: Seq<TotalsV>, a: Seq<ModelUsageV>, b: Seq<ModelUsageV>)
    ensures
        with_usages(ts, a + b) == with_usages(with_usages(ts, a), b),
    decreases b.len(),
{
    if b.len() == 0 {
        assert(a + b =~= a);
    } else {
        lemma_usages_append(ts, a, b.drop_last());
        assert((a + b).drop_last() =~= a + b.drop_last());
    }
}

pub proof fn lemma_models_of(ms: Seq<MetricsV>)
    ensures
        acc_of(ms).models == with_usages(Seq::<TotalsV>::empty(), usages_of(ms)),
    decreases ms.len(),
{
    if ms.len() > 0 {
        lemma_models_of(ms.drop_last());
        lemma_usages_append(
            Seq::<TotalsV>::empty(),
            usages_of(ms.drop_last()),
            ms.last().per_model,
        );
    }
}

proof fn lemma_sums_in_any_order(a: TokenCounts, b: TokenCounts, c: TokenCounts)
    ensures
        counts_sum(counts_sum(a, b), c) == counts_sum(a, counts_sum(b, c)),
        counts_sum(a, b) == counts_sum(b, a),
{
}

proof fn lemma_reports_append(a: Seq<ModelUsageV>, b: Seq<ModelUsageV>, model: Seq<char>)
    ensures
        tokens_for(a + b, model) == counts_sum(tokens_for(a, model), tokens_for(b, model)),
        is_reported(a + b, model) <==> is_reported(a, model) || is_reported(b, model),
    decreases b.len(),
{
    let s = a + b;
    if b.len() == 0 {
        assert(s =~= a);
    } else {
        lemma_reports_append(a, b.drop_last(), model);
        assert(s.drop_last() =~= a + b.drop_last());
        lemma_sums_in_any_order(
            tokens_for(a, model),
            tokens_for(b.drop_last(), model),
            b.last().tokens,
        );
    }
    if is_reported(a, model) {
        let i = choose|i: int| 0 <= i < a.len() && (#[trigger] a[i]).model == model;
        assert(s[i].model == model);
    }
    if is_reported(b, model) {
        let i = choose|i: int| 0 <= i < b.len() && (#[trigger] b[i]).model == model;
        assert(s[a.len() + i].model == model);
    }
    if is_reported(s, model) {
        let i = choose|i: int| 0 <= i < s.len() && (#[trigger] s[i]).model == model;
        if i < a.len() {
            assert(a[i].model == model);
        } else {
            assert(b[i - a.len()].model == model);
        }
    }
}

pub proof fn lemma_names_as_a_set(names: Seq<Seq<char>>, more: Seq<Seq<char>>)
    requires
        names.no_duplicates(),
    ensures
        with_names(names, more).no_duplicates(),
        with_names(names, more).to_set() == names.to_set().union(more.to_set()),
    decreases more.len(),
{
    let out = with_names(names, more);
    if more.len() == 0 {
        assert(out.to_set() =~= names.to_set().union(more.to_set()));
    } else {
        let rest = more.drop_last();
        let x = more.last();
        lemma_names_as_a_set(names, rest);
        let before = with_names(names, rest);
        assert forall|y: Seq<char>| #[trigger] more.to_set().contains(y) <==> rest.to_set().contains(
            y,
        ) || y == x by {
            if more.contains(y) {
                let i = more.index_of(y);
                if i < rest.len() {
                    assert(rest[i] == y);
                }
            }
            if rest.contains(y) {
                let i = rest.index_of(y);
                assert(more[i] == y);
            }
            assert(more[more.len() - 1] == x);
        }
        assert forall|y: Seq<char>| #[trigger] out.to_set().contains(y) <==> before.to_set().contains(
            y,
        ) || y == x by {
            if !before.contains(x) {
                if before.contains(y) {
                    let i = before.index_of(y);
                    assert(out[i] == y);
                }
                assert(out[before.len() as int] == x);
                if out.contains(y) {
                    let i = out.index_of(y);
                    if i < before.len() {
                        assert(before[i] == y);
                    }
                }
            }
        }
        assert(out.to_set() =~= names.to_set().union(more.to_set()));
    }
}

/// What of several sessions does not hang on their order: the counts, the duration,
/// which files they name, and what they report of one model.
#[verifier::ext_equal]
ghost struct SummaryV {
    counts: CountsV,
    duration_ms: int,
    files: Set<Seq<char>>,
    tokens: TokenCounts,
    reported: bool,
}

spec fn empty_summary() -> SummaryV {
    SummaryV {
        counts: no_counts(),
        duration_ms: 0,
        files: Set::<Seq<char>>::empty(),
        tokens: TokenCounts {
            input_tokens: 0,
            output_tokens: 0,
            cache_creation_input_tokens: 0,
            cache_read_input_tokens: 0,
        },
        reported: false,
    }
}

/// A summary with one more session.
spec fn summed_up(model: Seq<char>) -> spec_fn(SummaryV, MetricsV) -> SummaryV {
    |v: SummaryV, m: MetricsV|
        SummaryV {
            counts: v.counts.plus(m.counts),
            duration_ms: if m.duration_ms >= 0 {
                capped_ms(v.duration_ms + m.duration_ms)
            } else {
                v.duration_ms
            },
            files: v.files.union(m.files.to_set()),
            tokens: counts_sum(v.tokens, tokens_for(m.per_model, model)),
            reported: v.reported || is_reported(m.per_model, model),
        }
}

proof fn lemma_summed_up_in_any_order(model: Seq<char>)
    ensures
        commutative_foldl(summed_up(model)),
{
    let f = summed_up(model);
    assert forall|x: MetricsV, y: MetricsV, v: SummaryV| #[trigger] f(f(v, x), y) == f(
        f(v, y),
        x,
    ) by {
        let p = tokens_for(x.per_model, model);
        let q = tokens_for(y.per_model, model);
        lemma_sums_in_any_order(v.tokens, p, q);
        lemma_sums_in_any_order(v.tokens, q, p);
        lemma_sums_in_any_order(p, q, q);
        assert(f(f(v, x), y).files =~= f(f(v, y), x).files);
        assert(f(f(v, x), y).counts =~= f(f(v, y), x).counts);
        assert(f(f(v, x), y) =~= f(f(v, y), x));
    }
}

/// Whether no session has a negative duration.
spec fn durations_fit(ms: Seq<MetricsV>) -> bool {
    forall|i: int| 0 <= i < ms.len() ==> (#[trigger] ms[i]).duration_ms >= 0
}

proof fn lemma_summary(ms: Seq<MetricsV>, model: Seq<char>)
    requires
        durations_fit(ms),
    ensures
        ({
            let v = ms.fold_left(empty_summary(), summed_up(model));
            &&& acc_of(ms).counts == v.counts
            &&& acc_of(ms).duration_ms == v.duration_ms
            &&& acc_of(ms).files.no_duplicates()
            &&& acc_of(ms).files.to_set() == v.files
            &&& tokens_for(usages_of(ms), model) == v.tokens
            &&& is_reported(usages_of(ms), model) == v.reported
        }),
    decreases ms.len(),
{
    if ms.len() == 0 {
        assert(acc_of(ms).files.to_set() =~= Set::<Seq<char>>::empty());
    } else {
        let t = ms.drop_last();
        let m = ms.last();
        assert forall|i: int| 0 <= i < t.len() implies (#[trigger] t[i]).duration_ms >= 0 by {
            assert(t[i] == ms[i]);
        }
        assert(ms[ms.len() - 1].duration_ms >= 0);
        lemma_summary(t, model);
        lemma_names_as_a_set(acc_of(t).files, m.files);
        lemma_reports_append(usages_of(t), m.per_model, model);
    }
}

/// Two lists of names in order, each name once, with the same names are the same.
proof fn lemma_ordered_names_are_unique(a: Seq<Seq<char>>, b: Seq<Seq<char>>)
    requires
        names_ordered(a),
        names_ordered(b),
        forall|x: Seq<char>| #[trigger] a.contains(x) <==> b.contains(x),
    ensures
        a == b,
{
    let lt = |a: Seq<char>, b: Seq<char>| text_lt(a, b);
    lemma_names_stand_once(a);
    lemma_names_stand_once(b);
    lemma_same_items(a, b);
    assert forall|i: int, j: int|
        0 <= i < a.len() && 0 <= j < a.len() && !lt(#[trigger] a[i], #[trigger] a[j]) && !lt(
            a[j],
            a[i],
        ) implies a[i] == a[j] by {
        text_lt_total(a[i], a[j]);
    }
    sorted_lists_are_unique(a, b, lt);
}

proof fn lemma_names_stand_once(a: Seq<Seq<char>>)
    requires
        names_ordered(a),
    ensures
        a.no_duplicates(),
        is_sorted(a, |a: Seq<char>, b: Seq<char>| text_lt(a, b)),
{
    assert forall|i: int, j: int| 0 <= i < j < a.len() implies #[trigger] a[i] != #[trigger] a[j]
        && !text_lt(a[j], a[i]) by {
        text_lt_total(a[i], a[j]);
    }
}

/// What sessions come to does not hang on their order, but for that of their files.
proof fn lemma_acc_in_any_order(a: Seq<MetricsV>, b: Seq<MetricsV>)
    requires
        durations_fit(a),
        durations_fit(b),
        a.to_multiset() == b.to_multiset(),
    ensures
        acc_of(a).counts == acc_of(b).counts,
        acc_of(a).duration_ms == acc_of(b).duration_ms,
        acc_of(a).files.len() == acc_of(b).files.len(),
        acc_of(a).models == acc_of(b).models,
{
    let ua = usages_of(a);
    let ub = usages_of(b);
    let ta = with_usages(Seq::<TotalsV>::empty(), ua);
    let tb = with_usages(Seq::<TotalsV>::empty(), ub);
    lemma_models_of(a);
    lemma_models_of(b);
    totals_hold_each_model(ua);
    totals_hold_each_model(ub);
    assert forall|model: Seq<char>|
        acc_of(a).counts == acc_of(b).counts && acc_of(a).duration_ms == acc_of(b).duration_ms
            && acc_of(a).files.len() == acc_of(b).files.len() && #[trigger] tokens_for(ua, model)
            == tokens_for(ub, model) && is_reported(ua, model) == is_reported(ub, model) by {
        lemma_summary(a, model);
        lemma_summary(b, model);
        lemma_summed_up_in_any_order(model);
        lemma_fold_left_permutation(a, b, summed_up(model), empty_summary());
        acc_of(a).files.unique_seq_to_set();
        acc_of(b).files.unique_seq_to_set();
    }
    assert(tokens_for(ua, Seq::empty()) == tokens_for(ub, Seq::empty()));
    let na = model_names(ta);
    let nb = model_names(tb);
    assert forall|x: Seq<char>| #[trigger] na.contains(x) <==> nb.contains(x) by {
        assert(tokens_for(ua, x) == tokens_for(ub, x));
    }
    lemma_ordered_names_are_unique(na, nb);
    assert forall|i: int| 0 <= i < ta.len() implies ta[i] == tb[i] by {
        assert(na[i] == ta[i].model);
        assert(nb[i] == tb[i].model);
        assert(ta[i].tokens == tokens_for(ua, ta[i].model));
        assert(tb[i].tokens == tokens_for(ub, tb[i].model));
    }
    assert(na.len() == nb.len());
    assert(ta =~= tb);
}

/// A session more in a collection of sessions, if it is of the project `key`.
spec fn collected(key: Option<Seq<char>>) -> spec_fn(Multiset<MetricsV>, MetricsV) -> Multiset<
    MetricsV,
> {
    |v: Multiset<MetricsV>, m: MetricsV|
        if m.key == key {
            v.insert(m)
        } else {
            v
        }
}

proof fn lemma_collected(ms: Seq<MetricsV>, key: Option<Seq<char>>)
    ensures
        sessions_of(ms, key).to_multiset() == ms.fold_left(
            Multiset::<MetricsV>::empty(),
            collected(key),
        ),
    decreases ms.len(),
{
    broadcast use vstd::seq_lib::group_to_multiset_ensures;

    if ms.len() > 0 {
        lemma_collected(ms.drop_last(), key);
    } else {
        assert(sessions_of(ms, key) =~= Seq::<MetricsV>::empty());
        assert(sessions_of(ms, key).to_multiset() =~= Multiset::<MetricsV>::empty());
    }
}

proof fn lemma_sessions_in_any_order(
    a: Seq<MetricsV>,
    b: Seq<MetricsV>,
    key: Option<Seq<char>>,
)
    requires
        a.to_multiset() == b.to_multiset(),
    ensures
        sessions_of(a, key).to_multiset() == sessions_of(b, key).to_multiset(),
{
    let f = collected(key);
    assert forall|x: MetricsV, y: MetricsV, v: Multiset<MetricsV>| #[trigger] f(f(v, x), y) == f(
        f(v, y),
        x,
    ) by {
        assert(f(f(v, x), y) =~= f(f(v, y), x));
    }
    lemma_collected(a, key);
    lemma_collected(b, key);
    lemma_fold_left_permutation(a, b, f, Multiset::<MetricsV>::empty());
}

/// A session more in a collection of what a ledger takes, if it is in the window.
spec fn taken(since_ms: Option<i64>) -> spec_fn(Multiset<MetricsV>, SessionInputV) -> Multiset<
    MetricsV,
> {
    |v: Multiset<MetricsV>, s: SessionInputV|
        if in_window(s, since_ms) {
            v.insert(metrics_of(s))
        } else {
            v
        }
}

proof fn lemma_taken(ss: Seq<SessionInputV>, since_ms: Option<i64>)
    ensures
        metrics_in(ss, since_ms).to_multiset() == ss.fold_left(
            Multiset::<MetricsV>::empty(),
            taken(since_ms),
        ),
        durations_fit(metrics_in(ss, since_ms)),
    decreases ss.len(),
{
    broadcast use vstd::seq_lib::group_to_multiset_ensures;

    if ss.len() > 0 {
        lemma_taken(ss.drop_last(), since_ms);
    } else {
        assert(metrics_in(ss, since_ms).to_multiset() =~= Multiset::<MetricsV>::empty());
    }
}

proof fn lemma_taken_in_any_order(
    a: Seq<SessionInputV>,
    b: Seq<SessionInputV>,
    since_ms: Option<i64>,
)
    requires
        a.to_multiset() == b.to_multiset(),
    ensures
        metrics_in(a, since_ms).to_multiset() == metrics_in(b, since_ms).to_multiset(),
{
    let f = taken(since_ms);
    assert forall|x: SessionInputV, y: SessionInputV, v: Multiset<MetricsV>| #[trigger]
        f(f(v, x), y) == f(f(v, y), x) by {
        assert(f(f(v, x), y) =~= f(f(v, y), x));
    }
    lemma_taken(a, since_ms);
    lemma_taken(b, since_ms);
    lemma_fold_left_permutation(a, b, f, Multiset::<MetricsV>::empty());
}

/// The sessions of a project are some of the sessions, and are of that project.
proof fn lemma_sessions_are_of(ms: Seq<MetricsV>, key: Option<Seq<char>>)
    ensures
        forall|i: int|
            0 <= i < sessions_of(ms, key).len() ==> ms.contains(
                #[trigger] sessions_of(ms, key)[i],
            ) && sessions_of(ms, key)[i].key == key,
    decreases ms.len(),
{
    if ms.len() > 0 {
        let t = ms.drop_last();
        let out = sessions_of(ms, key);
        lemma_sessions_are_of(t, key);
        assert forall|i: int| 0 <= i < out.len() implies ms.contains(#[trigger] out[i])
            && out[i].key == key by {
            if i < sessions_of(t, key).len() {
                assert(out[i] == sessions_of(t, key)[i]);
                let k = t.index_of(out[i]);
                assert(ms[k] == out[i]);
            } else {
                assert(ms[ms.len() - 1] == out[i]);
            }
        }
    }
}

/// Every project of sessions is one of the same sessions in another order.
proof fn lemma_projects_in_any_order(a: Seq<MetricsV>, b: Seq<MetricsV>, i: int)
    requires
        durations_fit(a),
        durations_fit(b),
        a.to_multiset() == b.to_multiset(),
        0 <= i < grouped(a).len(),
    ensures
        projects_of(grouped(b)).contains(projects_of(grouped(a))[i]),
{
    broadcast use vstd::seq_lib::group_to_multiset_ensures;

    let ga = grouped(a);
    let gb = grouped(b);
    let key = ga[i].key;
    every_session_is_in_one_project(a);
    every_session_is_in_one_project(b);
    let sa = sessions_of(a, key);
    let sb = sessions_of(b, key);
    lemma_sessions_are_of(a, key);
    lemma_sessions_are_of(b, key);
    lemma_sessions_in_any_order(a, b, key);
    assert(ga[i].members == sa);
    let m = sa[0];
    assert(a.to_multiset().count(m) > 0);
    let n = b.index_of(m);
    assert(b[n] == m);
    lemma_group_found(gb, key);
    let j = group_at(gb, key);
    assert(group_at(gb, b[n].key) < gb.len());
    assert(gb[j].members == sb);
    assert(durations_fit(sa)) by {
        assert forall|k: int| 0 <= k < sa.len() implies (#[trigger] sa[k]).duration_ms >= 0 by {
            assert(a.contains(sa[k]));
            assert(a[a.index_of(sa[k])].duration_ms >= 0);
        }
    }
    assert(durations_fit(sb)) by {
        assert forall|k: int| 0 <= k < sb.len() implies (#[trigger] sb[k]).duration_ms >= 0 by {
            assert(b.contains(sb[k]));
            assert(b[b.index_of(sb[k])].duration_ms >= 0);
        }
    }
    lemma_acc_in_any_order(sa, sb);
    assert(projects_of(gb)[j] == projects_of(ga)[i]);
}

/// No two projects of sessions have the same path, but for the unknown one.
proof fn lemma_projects_differ(ms: Seq<MetricsV>)
    ensures
        projects_of(grouped(ms)).no_duplicates(),
        forall|i: int, j: int|
            0 <= i < grouped(ms).len() && 0 <= j < grouped(ms).len() && (#[trigger] projects_of(
                grouped(ms),
            )[i]).is_unknown == (#[trigger] projects_of(grouped(ms))[j]).is_unknown && projects_of(
                grouped(ms),
            )[i].path == projects_of(grouped(ms))[j].path ==> i == j,
{
    let gs = grouped(ms);
    let ps = projects_of(gs);
    every_session_is_in_one_project(ms);
    assert forall|i: int, j: int|
        0 <= i < gs.len() && 0 <= j < gs.len() && (#[trigger] ps[i]).is_unknown == (
        #[trigger] ps[j]).is_unknown && ps[i].path == ps[j].path implies i == j by {
        assert(gs[i].key == gs[j].key);
        if i < j {
            assert(gs[i].key != gs[j].key);
        } else if j < i {
            assert(gs[j].key != gs[i].key);
        }
    }
}

/// The ranking of projects does not hang on the order of the sessions.
proof fn lemma_ranking_in_any_order(a: Seq<MetricsV>, b: Seq<MetricsV>)
    requires
        durations_fit(a),
        durations_fit(b),
        a.to_multiset() == b.to_multiset(),
    ensures
        ranked_projects(projects_of(grouped(a))) == ranked_projects(projects_of(grouped(b))),
        grouped(a).len() == grouped(b).len(),
{
    broadcast use vstd::seq_lib::group_to_multiset_ensures;

    let lt = |a: ProjectV, b: ProjectV| project_before(a, b);
    let pa = projects_of(grouped(a));
    let pb = projects_of(grouped(b));
    let ra = ranked_projects(pa);
    let rb = ranked_projects(pb);
    lemma_projects_differ(a);
    lemma_projects_differ(b);
    assert forall|p: ProjectV| #[trigger] pa.contains(p) <==> pb.contains(p) by {
        if pa.contains(p) {
            lemma_projects_in_any_order(a, b, pa.index_of(p));
        }
        if pb.contains(p) {
            lemma_projects_in_any_order(b, a, pb.index_of(p));
        }
    }
    lemma_same_items(pa, pb);
    vstd::seq_lib::to_multiset_len(pa);
    vstd::seq_lib::to_multiset_len(pb);
    ledger_order_is_an_order();
    sorted_by_sorts(pa, lt);
    sorted_by_sorts(pb, lt);
    assert forall|i: int, j: int|
        0 <= i < ra.len() && 0 <= j < ra.len() && !lt(#[trigger] ra[i], #[trigger] ra[j]) && !lt(
            ra[j],
            ra[i],
        ) implies ra[i] == ra[j] by {
        text_lt_total(ra[i].path, ra[j].path);
        assert(ra.to_multiset().count(ra[i]) > 0);
        assert(ra.to_multiset().count(ra[j]) > 0);
        let x = pa.index_of(ra[i]);
        let y = pa.index_of(ra[j]);
        assert(pa[x] == ra[i] && pa[y] == ra[j]);
    }
    sorted_lists_are_unique(ra, rb, lt);
}

/// A ledger does not hang on the order in which its sessions are given: neither
/// whether its numbers can be told, nor anything in it.
pub proof fn the_order_of_sessions_is_no_matter(
    a: Seq<SessionInputV>,
    b: Seq<SessionInputV>,
    now_ms: i64,
    since_ms: Option<i64>,
    mode: WindowMode,
)
    requires
        a.to_multiset() == b.to_multiset(),
    ensures
        digest_fits(a, since_ms) == digest_fits(b, since_ms),
        digest_of(a, now_ms, since_ms, mode) == digest_of(b, now_ms, since_ms, mode),
{
    let ma = metrics_in(a, since_ms);
    let mb = metrics_in(b, since_ms);
    lemma_taken(a, since_ms);
    lemma_taken(b, since_ms);
    lemma_taken_in_any_order(a, b, since_ms);
    lemma_acc_in_any_order(ma, mb);
    lemma_ranking_in_any_order(ma, mb);
    if digest_fits(a, since_ms) {
        lemma_spans_in_any_order(a, b, since_ms);
    }
    if digest_fits(b, since_ms) {
        lemma_spans_in_any_order(b, a, since_ms);
    }
}

proof fn lemma_spans_in_any_order(
    a: Seq<SessionInputV>,
    b: Seq<SessionInputV>,
    since_ms: Option<i64>,
)
    requires
        a.to_multiset() == b.to_multiset(),
        forall|i: int|
            0 <= i < a.len() && in_window(#[trigger] a[i], since_ms) ==> span_fits(a[i].events),
    ensures
        forall|i: int|
            0 <= i < b.len() && in_window(#[trigger] b[i], since_ms) ==> span_fits(b[i].events),
{
    broadcast use vstd::seq_lib::group_to_multiset_ensures;

    assert forall|i: int| 0 <= i < b.len() && in_window(#[trigger] b[i], since_ms) implies span_fits(
        b[i].events,
    ) by {
        assert(b.to_multiset().count(b[i]) > 0);
        let k = a.index_of(b[i]);
        assert(in_window(a[k], since_ms));
    }
}

/// A session whose start is before the window, or is not known, changes nothing of
/// a ledger with a lower bound, whatever it recorded later.
pub proof fn sessions_before_the_window_do_not_count(
    ss: Seq<SessionInputV>,
    s: SessionInputV,
    now_ms: i64,
    since: i64,
    mode: WindowMode,
)
    requires
        start_of(s) is None || start_of(s)->0 < since,
    ensures
        digest_of(ss.push(s), now_ms, Some(since), mode) == digest_of(
            ss,
            now_ms,
            Some(since),
            mode,
        ),
{
    assert(ss.push(s).drop_last() =~= ss);
}

} // verus!
