//! The listing of recorded sessions.
use vstd::prelude::*;

use crate::count::how_many;
use crate::doc::lines_text;
use crate::event::{event_views, EventKind, EventV};
use crate::num::{decimal, decimal_usize};
use crate::order::{
    is_order, lemma_sorted_map, own_order, sort, sorted_by, sorted_by_sorts, text_less, text_lt,
    text_lt_total, text_lt_transitive, Ordered,
};
use crate::selection::{
    hooks_ended_with, sessions_live_by_their_last_event, summaries_tell_of_the_events,
};
use crate::selector::{recorded_views, summarize, RecordedSession, RecordedV};
use crate::table::{grid_view, render_grid, table_lines};
use crate::text::{has_text, occurs_at, views};
use crate::timefmt::{duration_text, format_duration_ms, format_utc, utc_text};

verus! {

/// The number of columns.
pub const COLS: usize = 7;

/// One session in the listing.
#[derive(Debug, Clone, PartialEq, Eq)]
pub struct LsRow {
    /// Session id.
    pub session_id: String,
    /// Whether the session is, as far as can be told, still running.
    pub live: bool,
    /// Start of the session.
    pub started_ms: Option<i64>,
    /// Number of events.
    pub events: usize,
    /// Number of tool calls.
    pub tools: usize,
    /// Span from the first to the last event.
    pub duration_ms: Option<i64>,
    /// Number of lines that could not be read.
    pub corrupt: usize,
}

/// The contents of an [`LsRow`].
pub ghost struct LsRowV {
    pub session_id: Seq<char>,
    pub live: bool,
    pub started_ms: Option<i64>,
    pub events: int,
    pub tools: int,
    pub duration_ms: Option<int>,
    pub corrupt: int,
}

impl View for LsRow {
    type V = LsRowV;

    open spec fn view(&self) -> LsRowV {
        LsRowV {
            session_id: self.session_id@,
            live: self.live,
            started_ms: self.started_ms,
            events: self.events as int,
            tools: self.tools as int,
            duration_ms: match self.duration_ms {
                Some(d) => Some(d as int),
                None => None,
            },
            corrupt: self.corrupt as int,
        }
    }
}

/// The contents of a list of rows.
pub open spec fn ls_views(v: Seq<LsRow>) -> Seq<LsRowV> {
    Seq::new(v.len(), |i: int| v[i]@)
}

// ---------------------------------------------------------------------------
// Rows
// ---------------------------------------------------------------------------

/// Whether the span from the first to the last event is a number that the type
/// of times holds.
pub open spec fn span_fits(events: Seq<EventV>) -> bool {
    events.len() > 0 ==> i64::MIN <= events.last().ts - events.first().ts <= i64::MAX
}

/// The row of a recorded session.
pub open spec fn ls_row_of(r: RecordedV, now_ms: i64, window_ms: i64) -> LsRowV {
    let s = r.summary();
    LsRowV {
        session_id: r.id,
        live: s.live_within(now_ms, window_ms),
        started_ms: s.started(),
        events: s.event_count,
        tools: s.tool_calls,
        duration_ms: if r.events.len() > 0 {
            Some(r.events.last().ts - r.events.first().ts)
        } else {
            None
        },
        corrupt: r.skipped_lines,
    }
}

/// The rows of recorded sessions, in the order of the sessions.
pub open spec fn ls_rows_of(rs: Seq<RecordedV>, now_ms: i64, window_ms: i64) -> Seq<LsRowV> {
    Seq::new(rs.len(), |i: int| ls_row_of(rs[i], now_ms, window_ms))
}

/// Whether the session of `a` started after that of `b`. One of which no start is
/// known counts as the earliest.
pub open spec fn started_after(a: LsRowV, b: LsRowV) -> bool {
    match (a.started_ms, b.started_ms) {
        (Some(x), Some(y)) => x > y,
        (Some(_), None) => true,
        (None, _) => false,
    }
}

/// Whether `a` is listed before `b`: the later start first, then by id.
pub open spec fn listed_before(a: LsRowV, b: LsRowV) -> bool {
    started_after(a, b) || (a.started_ms == b.started_ms && text_lt(a.session_id, b.session_id))
}

/// The rows in the order of the listing.
pub open spec fn listed(rows: Seq<LsRowV>) -> Seq<LsRowV> {
    sorted_by(rows, |a: LsRowV, b: LsRowV| listed_before(a, b))
}

impl Ordered for LsRow {
    open spec fn before(a: Self, b: Self) -> bool {
        listed_before(a@, b@)
    }

    fn comes_before(&self, other: &Self) -> (r: bool) {
        match (self.started_ms, other.started_ms) {
            (Some(x), Some(y)) => x > y || (x == y && text_less(
                self.session_id.as_str(),
                other.session_id.as_str(),
            )),
            (Some(_), None) => true,
            (None, Some(_)) => false,
            (None, None) => text_less(self.session_id.as_str(), other.session_id.as_str()),
        }
    }
}

/// Tests whether the span of each session can be told.
pub fn spans_can_be_told(sessions: &[RecordedSession]) -> (r: bool)
    ensures
        r == (forall|i: int|
            0 <= i < sessions@.len() ==> span_fits(event_views((#[trigger] sessions@[i]).events@))),
{
    for i in 0..sessions.len()
        invariant
            forall|k: int|
                0 <= k < i ==> span_fits(event_views((#[trigger] sessions@[k]).events@)),
    {
        let events = &sessions[i].events;
        let n: usize = events.len();
        let ghost ev = event_views(sessions@[i as int].events@);
        if n > 0 {
            proof {
                assert(ev.last().ts == sessions@[i as int].events@[n - 1].ts);
                assert(ev.first().ts == sessions@[i as int].events@[0].ts);
            }
            let first: i64 = events[0].ts;
            let last: i64 = events[n - 1].ts;
            if last.checked_sub(first).is_none() {
                return false;
            }
        }
    }
    true
}

/// Lists recorded sessions, the latest start first.
pub fn collect_rows(sessions: &[RecordedSession], now_ms: i64, window_ms: i64) -> (out: Vec<LsRow>)
    requires
        forall|i: int|
            0 <= i < sessions@.len() ==> span_fits(event_views((#[trigger] sessions@[i]).events@)),
    ensures
        ls_views(out@) == listed(ls_rows_of(recorded_views(sessions@), now_ms, window_ms)),
{
    let ghost rv = recorded_views(sessions@);
    let mut rows: Vec<LsRow> = Vec::new();
    for i in 0..sessions.len()
        invariant
            rv == recorded_views(sessions@),
            forall|k: int|
                0 <= k < sessions@.len() ==> span_fits(
                    event_views((#[trigger] sessions@[k]).events@),
                ),
            rows@.len() == i,
            forall|k: int|
                0 <= k < i ==> (#[trigger] rows@[k])@ == ls_row_of(rv[k], now_ms, window_ms),
    {
        let s = &sessions[i];
        proof {
            assert(rv[i as int] == sessions@[i as int]@);
            assert(span_fits(event_views(sessions@[i as int].events@)));
        }
        let summary = summarize(s.id.as_str(), s.created_ts, s.events.as_slice());
        let duration_ms: Option<i64> = match (summary.first_event_ts, summary.last_event_ts) {
            (Some(first), Some(last)) => Some(last - first),
            _ => None,
        };
        rows.push(
            LsRow {
                session_id: s.id.clone(),
                live: summary.is_live_within(now_ms, window_ms),
                started_ms: summary.started_ms(),
                events: summary.event_count,
                tools: summary.tool_calls,
                duration_ms,
                corrupt: s.skipped_lines,
            },
        );
    }
    proof {
        let f = |x: LsRow| x@;
        let lt2 = |a: LsRowV, b: LsRowV| listed_before(a, b);
        assert(rows@.map_values(f) =~= ls_rows_of(rv, now_ms, window_ms));
        lemma_sorted_map(rows@, f, own_order::<LsRow>(), lt2);
        let sorted = sorted_by(rows@, own_order::<LsRow>());
        assert(ls_views(sorted) =~= sorted.map_values(f));
    }
    sort(rows)
}

/// The rows of live sessions.
pub open spec fn live_rows(rows: Seq<LsRowV>) -> Seq<LsRowV>
    decreases rows.len(),
{
    if rows.len() == 0 {
        rows
    } else if rows.last().live {
        live_rows(rows.drop_last()).push(rows.last())
    } else {
        live_rows(rows.drop_last())
    }
}

/// Keeps the live sessions.
pub fn only_live(rows: Vec<LsRow>) -> (out: Vec<LsRow>)
    ensures
        ls_views(out@) == live_rows(ls_views(rows@)),
{
    let ghost all = rows@;
    let ghost rv = ls_views(rows@);
    let mut out: Vec<LsRow> = Vec::new();
    proof {
        assert(ls_views(out@) =~= live_rows(rv.take(0)));
    }
    for r in it: rows
        invariant
            it.seq() == all,
            rv == ls_views(all),
            ls_views(out@) == live_rows(rv.take(it.index() as int)),
    {
        proof {
            let i = it.index() as int;
            assert(rv.take(i + 1).drop_last() =~= rv.take(i));
            assert(rv.take(i + 1).last() == r@);
        }
        let ghost out0 = ls_views(out@);
        if r.live {
            let ghost x = r@;
            out.push(r);
            proof {
                assert(ls_views(out@) =~= out0.push(x));
            }
        }
    }
    proof {
        assert(rv.take(rv.len() as int) =~= rv);
    }
    out
}

// ---------------------------------------------------------------------------
// Texts
// ---------------------------------------------------------------------------

/// The headers of the columns.
pub open spec fn headers() -> Seq<Seq<char>> {
    seq!["SESSION"@, "STATE"@, "STARTED"@, "EVENTS"@, "TOOLS"@, "DURATION"@, "CORRUPT"@]
}

/// The cells of a row.
pub open spec fn cells_of(r: LsRowV) -> Seq<Seq<char>> {
    seq![
        r.session_id,
        if r.live {
            "live"@
        } else {
            "idle"@
        },
        match r.started_ms {
            Some(t) => utc_text(t as int),
            None => "-"@,
        },
        decimal(r.events as nat),
        decimal(r.tools as nat),
        match r.duration_ms {
            Some(d) => duration_text(d),
            None => "-"@,
        },
        decimal(r.corrupt as nat),
    ]
}

/// The headers and the cells of the rows.
pub open spec fn grid_of(rows: Seq<LsRowV>) -> Seq<Seq<Seq<char>>> {
    seq![headers()] + Seq::new(rows.len(), |i: int| cells_of(rows[i]))
}

/// What is said where nothing was recorded.
pub open spec fn nothing_recorded() -> Seq<char> {
    "No sessions recorded yet. Run `agent-witness init`, then start a session.\n"@
}

/// The text of a listing.
pub open spec fn listing_text(rows: Seq<LsRowV>) -> Seq<char> {
    if rows.len() == 0 {
        nothing_recorded()
    } else {
        lines_text(table_lines(grid_of(rows)))
    }
}

/// The text of the listing of live sessions.
pub open spec fn live_listing_text(rows: Seq<LsRowV>, total: int) -> Seq<char> {
    if rows.len() == 0 && total > 0 {
        "No live sessions right now ("@ + decimal(total as nat)
            + " recorded). `agent-witness ls` lists them all.\n"@
    } else {
        listing_text(rows)
    }
}

/// The rows of sessions with tool activity.
pub open spec fn active_rows(rows: Seq<LsRowV>) -> Seq<LsRowV>
    decreases rows.len(),
{
    if rows.len() == 0 {
        rows
    } else if rows.last().tools > 0 {
        active_rows(rows.drop_last()).push(rows.last())
    } else {
        active_rows(rows.drop_last())
    }
}

/// The number of sessions without tool activity.
pub open spec fn hidden_count(rows: Seq<LsRowV>) -> int {
    rows.len() - active_rows(rows).len()
}

/// The text of the default listing.
pub open spec fn default_text(rows: Seq<LsRowV>, show_all: bool) -> Seq<char> {
    let active = active_rows(rows);
    let hidden = decimal(hidden_count(rows) as nat);
    if show_all || rows.len() == 0 {
        listing_text(rows)
    } else if active.len() == 0 {
        "No sessions with tool activity ("@ + hidden
            + " recorded with none). Run `agent-witness ls --all` to show them.\n"@
    } else if hidden_count(rows) > 0 {
        listing_text(active) + "\n"@ + hidden
            + " session(s) with no tool activity hidden — run `agent-witness ls --all` to show.\n"@
    } else {
        listing_text(active)
    }
}

fn header_cells() -> (out: Vec<String>)
    ensures
        views(out@) == headers(),
        out@.len() == COLS,
{
    let out: Vec<String> = vec![
        "SESSION".to_owned(),
        "STATE".to_owned(),
        "STARTED".to_owned(),
        "EVENTS".to_owned(),
        "TOOLS".to_owned(),
        "DURATION".to_owned(),
        "CORRUPT".to_owned(),
    ];
    proof {
        assert(views(out@) =~= headers());
    }
    out
}

fn row_cells(r: &LsRow) -> (out: Vec<String>)
    ensures
        views(out@) == cells_of(r@),
        out@.len() == COLS,
{
    let state = if r.live {
        "live".to_owned()
    } else {
        "idle".to_owned()
    };
    let started = match r.started_ms {
        Some(t) => format_utc(t),
        None => "-".to_owned(),
    };
    let duration = match r.duration_ms {
        Some(d) => format_duration_ms(d),
        None => "-".to_owned(),
    };
    let out: Vec<String> = vec![
        r.session_id.clone(),
        state,
        started,
        decimal_usize(r.events),
        decimal_usize(r.tools),
        duration,
        decimal_usize(r.corrupt),
    ];
    proof {
        assert(views(out@) =~= cells_of(r@));
    }
    out
}

/// Renders a listing as an aligned table.
pub fn render_table(rows: &[LsRow]) -> (out: String)
    ensures
        out@ == listing_text(ls_views(rows@)),
{
    if rows.len() == 0 {
        return "No sessions recorded yet. Run `agent-witness init`, then start a session.\n".to_owned();
    }
    let ghost rv = ls_views(rows@);
    let mut grid: Vec<Vec<String>> = Vec::new();
    grid.push(header_cells());
    for i in 0..rows.len()
        invariant
            rv == ls_views(rows@),
            grid@.len() == i + 1,
            views(grid@[0]@) == headers(),
            forall|k: int| 0 <= k < grid@.len() ==> (#[trigger] grid@[k])@.len() == COLS,
            forall|k: int| 1 <= k <= i ==> views((#[trigger] grid@[k])@) == cells_of(rv[k - 1]),
    {
        grid.push(row_cells(&rows[i]));
    }
    proof {
        assert(grid_view(grid@) =~= grid_of(rv));
    }
    render_grid(&grid, COLS)
}

/// Renders the listing of the live sessions among `total_sessions` recorded ones.
/// Where none is live but some were recorded, the text says so.
pub fn render_live_table(live_rows: &[LsRow], total_sessions: usize) -> (out: String)
    ensures
        out@ == live_listing_text(ls_views(live_rows@), total_sessions as int),
{
    proof {
        assert(ls_views(live_rows@).len() == live_rows@.len());
    }
    if live_rows.len() == 0 && total_sessions > 0 {
        return "No live sessions right now (".to_owned().concat(
            decimal_usize(total_sessions).as_str(),
        ).concat(" recorded). `agent-witness ls` lists them all.\n");
    }
    render_table(live_rows)
}

fn copy_row(r: &LsRow) -> (out: LsRow)
    ensures
        out@ == r@,
{
    LsRow {
        session_id: r.session_id.clone(),
        live: r.live,
        started_ms: r.started_ms,
        events: r.events,
        tools: r.tools,
        duration_ms: r.duration_ms,
        corrupt: r.corrupt,
    }
}

/// Renders the default listing: sessions without tool activity are left out, and
/// the text says how many there are, unless all are to be shown.
pub fn render_default(rows: &[LsRow], show_all: bool) -> (out: String)
    ensures
        out@ == default_text(ls_views(rows@), show_all),
{
    let ghost rv = ls_views(rows@);
    if show_all || rows.len() == 0 {
        return render_table(rows);
    }
    let mut active: Vec<LsRow> = Vec::new();
    proof {
        assert(ls_views(active@) =~= active_rows(rv.take(0)));
    }
    for i in 0..rows.len()
        invariant
            rv == ls_views(rows@),
            active@.len() <= i,
            ls_views(active@) == active_rows(rv.take(i as int)),
    {
        proof {
            assert(rv.take(i + 1).drop_last() =~= rv.take(i as int));
            assert(rv.take(i + 1).last() == rows@[i as int]@);
        }
        let ghost a0 = ls_views(active@);
        if rows[i].tools > 0 {
            active.push(copy_row(&rows[i]));
            proof {
                assert(ls_views(active@) =~= a0.push(rv[i as int]));
            }
        }
    }
    proof {
        assert(rv.take(rv.len() as int) =~= rv);
        assert(ls_views(active@).len() == active@.len());
    }
    let hidden: usize = rows.len() - active.len();
    if active.len() == 0 {
        return "No sessions with tool activity (".to_owned().concat(
            decimal_usize(hidden).as_str(),
        ).concat(" recorded with none). Run `agent-witness ls --all` to show them.\n");
    }
    let table = render_table(active.as_slice());
    if hidden > 0 {
        table.concat("\n").concat(decimal_usize(hidden).as_str()).concat(
            " session(s) with no tool activity hidden — run `agent-witness ls --all` to show.\n",
        )
    } else {
        table
    }
}

// ---------------------------------------------------------------------------
// Laws
// ---------------------------------------------------------------------------

/// The order of the listing is an order.
pub proof fn listing_order_is_an_order()
    ensures
        is_order(|a: LsRowV, b: LsRowV| listed_before(a, b)),
{
    let lt = |a: LsRowV, b: LsRowV| listed_before(a, b);
    assert forall|a: LsRowV| !#[trigger] lt(a, a) by {
        text_lt_total(a.session_id, a.session_id);
    }
    assert forall|a: LsRowV, b: LsRowV| #[trigger] lt(a, b) implies !lt(b, a) by {
        text_lt_total(a.session_id, b.session_id);
    }
    assert forall|a: LsRowV, b: LsRowV, c: LsRowV| #[trigger]
        lt(a, b) && !lt(c, b) implies #[trigger] lt(a, c) by {
        text_lt_total(a.session_id, b.session_id);
        text_lt_total(c.session_id, b.session_id);
        if text_lt(a.session_id, b.session_id) && text_lt(b.session_id, c.session_id) {
            text_lt_transitive(a.session_id, b.session_id, c.session_id);
        }
    }
}

/// Listing keeps every session, and puts none before one that started later.
pub proof fn listing_is_sorted(rows: Seq<LsRowV>)
    ensures
        listed(rows).to_multiset() == rows.to_multiset(),
        forall|i: int, j: int|
            #![trigger listed(rows)[i], listed(rows)[j]]
            0 <= i < j < listed(rows).len() ==> !started_after(listed(rows)[j], listed(rows)[i]),
{
    let lt = |a: LsRowV, b: LsRowV| listed_before(a, b);
    listing_order_is_an_order();
    sorted_by_sorts(rows, lt);
    assert forall|i: int, j: int|
        #![trigger listed(rows)[i], listed(rows)[j]]
        0 <= i < j < listed(rows).len() implies !started_after(
        listed(rows)[j],
        listed(rows)[i],
    ) by {
        assert(!lt(listed(rows)[j], listed(rows)[i]));
    }
}

proof fn lemma_active(rows: Seq<LsRowV>)
    ensures
        active_rows(rows).len() <= rows.len(),
        forall|x: LsRowV|
            #[trigger] active_rows(rows).contains(x) <==> (rows.contains(x) && x.tools > 0),
    decreases rows.len(),
{
    if rows.len() > 0 {
        let t = rows.drop_last();
        lemma_active(t);
        let a = active_rows(rows);
        let b = active_rows(t);
        assert(rows =~= t.push(rows.last()));
        assert forall|x: LsRowV| #[trigger] a.contains(x) <==> (rows.contains(x) && x.tools > 0) by {
            if rows.contains(x) {
                let i = choose|i: int| 0 <= i < rows.len() && rows[i] == x;
                if i < t.len() {
                    assert(t[i] == x);
                    assert(t.contains(x));
                }
                if x.tools > 0 {
                    if t.contains(x) {
                        assert(b.contains(x));
                        let k = choose|k: int| 0 <= k < b.len() && b[k] == x;
                        assert(a[k] == x);
                    } else {
                        assert(a.last() == x);
                    }
                }
            }
            if a.contains(x) {
                let k = choose|k: int| 0 <= k < a.len() && a[k] == x;
                if k < b.len() {
                    assert(b[k] == x);
                    assert(b.contains(x));
                    assert(t.contains(x));
                    let i = choose|i: int| 0 <= i < t.len() && t[i] == x;
                    assert(rows[i] == x);
                } else {
                    assert(x == rows.last());
                }
            }
        }
    }
}

/// The default listing leaves out exactly the sessions without tool activity,
/// and where it leaves out any it says how many.
pub proof fn hidden_sessions_are_told(rows: Seq<LsRowV>)
    ensures
        forall|x: LsRowV|
            #[trigger] active_rows(rows).contains(x) <==> (rows.contains(x) && x.tools > 0),
        hidden_count(rows) > 0 ==> has_text(
            default_text(rows, false),
            decimal(hidden_count(rows) as nat),
        ),
{
    lemma_active(rows);
    let h = decimal(hidden_count(rows) as nat);
    let t = default_text(rows, false);
    if hidden_count(rows) > 0 {
        let k: int = if active_rows(rows).len() == 0 {
            "No sessions with tool activity ("@.len() as int
        } else {
            (listing_text(active_rows(rows)) + "\n"@).len() as int
        };
        assert(t.subrange(k, k + h.len()) =~= h);
        assert(occurs_at(t, h, k));
    }
}

/// What is said of recorded sessions that are all idle differs from what is said
/// where nothing was recorded.
pub proof fn idle_is_not_unrecorded(total: int)
    requires
        total > 0,
    ensures
        live_listing_text(Seq::<LsRowV>::empty(), total) != nothing_recorded(),
        live_listing_text(Seq::<LsRowV>::empty(), 0) == nothing_recorded(),
{
    let t = live_listing_text(Seq::<LsRowV>::empty(), total);
    reveal_strlit("No live sessions right now (");
    reveal_strlit("No sessions recorded yet. Run `agent-witness init`, then start a session.\n");
    assert(t[3] == 'l');
    assert(nothing_recorded()[3] == 's');
}

/// A row tells of its session: whether it is live, when it started, how many events and
/// calls it has, the time from its first event to its last, and the lines that could not be
/// read.
pub proof fn rows_tell_of_their_session(r: RecordedV, now_ms: i64, window_ms: i64)
    requires
        window_ms < i64::MAX,
    ensures
        ({
            let row = ls_row_of(r, now_ms, window_ms);
            let n = r.events.len();
            &&& row.session_id == r.id
            &&& row.events == n
            &&& row.tools == how_many(r.events, |e: EventV| e.kind == EventKind::ToolCall)
            &&& row.corrupt == r.skipped_lines
            &&& n == 0 ==> row.duration_ms is None && row.started_ms == r.created_ts && !row.live
            &&& n > 0 ==> row.duration_ms == Some(r.events[n - 1].ts - r.events[0].ts)
            &&& n > 0 && r.created_ts is None ==> row.started_ms == Some(r.events[0].ts)
            &&& r.created_ts is Some ==> row.started_ms == r.created_ts
            &&& n > 0 ==> (row.live <==> now_ms - r.events[n - 1].ts <= window_ms
                && !hooks_ended_with(r.events, EventKind::Stop) && !hooks_ended_with(
                r.events,
                EventKind::SessionEnd,
            ))
        }),
{
    summaries_tell_of_the_events(r.id, r.created_ts, r.events);
    sessions_live_by_their_last_event(r.id, r.created_ts, r.events, now_ms, window_ms);
}

/// The listing of live sessions keeps the live ones, and that of active sessions those with
/// calls, in order.
pub proof fn listings_keep_what_they_are_of(rows: Seq<LsRowV>)
    ensures
        live_rows(rows) == rows.filter(|r: LsRowV| r.live),
        active_rows(rows) == rows.filter(|r: LsRowV| r.tools > 0),
        hidden_count(rows) == rows.len() - how_many(rows, |r: LsRowV| r.tools > 0),
    decreases rows.len(),
{
    reveal(Seq::filter);
    if rows.len() > 0 {
        listings_keep_what_they_are_of(rows.drop_last());
    } else {
        assert(rows =~= rows.filter(|r: LsRowV| r.live));
        assert(rows =~= rows.filter(|r: LsRowV| r.tools > 0));
    }
}

/// Of two sessions that started at one time, the one whose id comes first is listed first,
/// and one of which no start is known is listed behind those of which it is.
pub proof fn equal_starts_go_by_id(rows: Seq<LsRowV>, i: int, j: int)
    requires
        0 <= i < j < listed(rows).len(),
    ensures
        listed(rows)[i].started_ms == listed(rows)[j].started_ms ==> !text_lt(
            listed(rows)[j].session_id,
            listed(rows)[i].session_id,
        ),
        listed(rows)[j].started_ms is Some ==> listed(rows)[i].started_ms is Some
            && listed(rows)[i].started_ms->0 >= listed(rows)[j].started_ms->0,
{
    let lt = |a: LsRowV, b: LsRowV| listed_before(a, b);
    listing_order_is_an_order();
    sorted_by_sorts(rows, lt);
    assert(!lt(listed(rows)[j], listed(rows)[i]));
}

/// A line of a listing tells of its session, under headings: its id, whether it is live, when
/// it started, its events and calls, how long it lasted, and the lines that could not be
/// read.
pub proof fn cells_tell_of_their_row(r: LsRowV)
    ensures
        headers() == seq![
            "SESSION"@,
            "STATE"@,
            "STARTED"@,
            "EVENTS"@,
            "TOOLS"@,
            "DURATION"@,
            "CORRUPT"@,
        ],
        cells_of(r).len() == 7,
        cells_of(r)[0] == r.session_id,
        r.live ==> cells_of(r)[1] == "live"@,
        !r.live ==> cells_of(r)[1] == "idle"@,
        r.started_ms is Some ==> cells_of(r)[2] == utc_text(r.started_ms->0 as int),
        r.started_ms is None ==> cells_of(r)[2] == "-"@,
        cells_of(r)[3] == decimal(r.events as nat),
        cells_of(r)[4] == decimal(r.tools as nat),
        r.duration_ms is Some ==> cells_of(r)[5] == duration_text(r.duration_ms->0),
        r.duration_ms is None ==> cells_of(r)[5] == "-"@,
        cells_of(r)[6] == decimal(r.corrupt as nat),
{
}

/// A listing has a line of headings and a line for each session, in order; with all sessions
/// asked for, it leaves none out.
pub proof fn listings_have_a_line_for_each_session(rows: Seq<LsRowV>, i: int)
    requires
        0 <= i < rows.len(),
    ensures
        listing_text(rows) == lines_text(table_lines(grid_of(rows))),
        table_lines(grid_of(rows)).len() == rows.len() + 1,
        grid_of(rows)[0] == headers(),
        grid_of(rows)[i + 1] == cells_of(rows[i]),
        default_text(rows, true) == listing_text(rows),
        (forall|k: int| 0 <= k < rows.len() ==> (#[trigger] rows[k]).tools > 0) ==> default_text(
            rows,
            false,
        ) == listing_text(rows),
{
    if forall|k: int| 0 <= k < rows.len() ==> (#[trigger] rows[k]).tools > 0 {
        lemma_all_active(rows);
    }
}

proof fn lemma_all_active(rows: Seq<LsRowV>)
    requires
        forall|k: int| 0 <= k < rows.len() ==> (#[trigger] rows[k]).tools > 0,
    ensures
        active_rows(rows) == rows,
    decreases rows.len(),
{
    if rows.len() > 0 {
        let t = rows.drop_last();
        assert forall|k: int| 0 <= k < t.len() implies (#[trigger] t[k]).tools > 0 by {
            assert(rows[k] == t[k]);
        }
        lemma_all_active(t);
        assert(rows[rows.len() - 1].tools > 0);
        assert(t.push(rows.last()) =~= rows);
    }
}

} // verus!
