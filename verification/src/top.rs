//! The view of the sessions that are live now: its rows, its state, and the lines
//! it shows.
use vstd::prelude::*;

use crate::count::{how_many, lemma_how_many};
use crate::event::{event_views, AgentEvent, EventV};
use crate::keys::{
    above, action_of, below, clamp_row, clamped, clipped, list_action, row_above, row_below,
    truncate, Key, ListAction,
};
use crate::num::{decimal, decimal_usize, pad_left, pad_right, padded_left, padded_right};
use crate::order::{is_order, own_order, sort, sorted_by, sorted_by_sorts, text_less, Ordered};
use crate::project::{basename, last_component};
use crate::selector::{
    more_recent, recency_is_an_order, recorded_views, summarize, summary_of, RecordedSession,
    RecordedV, SessionSummary, SummaryV,
};
use crate::text::{opt_view, views};
use crate::timefmt::{duration_text, format_duration_ms};
use crate::timeline::{build_timeline, entry_views, timeline_of, EntryV, ToolStatus};

verus! {

/// Width of the session id.
pub const SESSION_WIDTH: usize = 14;

/// Width of the project.
pub const PROJECT_WIDTH: usize = 18;

/// Width of the running tool.
pub const TOOL_WIDTH: usize = 12;

/// Width of the time since the last activity.
pub const AGE_WIDTH: usize = 9;

/// Width of the time since the start.
pub const ELAPSED_WIDTH: usize = 9;

/// Width of the number of events.
pub const COUNT_WIDTH: usize = 7;

/// One live session.
#[derive(Debug, Clone, PartialEq, Eq)]
pub struct TopRow {
    /// Session id.
    pub session_id: String,
    /// The project, named by the latest working directory.
    pub project: String,
    /// The tool that is running, if any.
    pub running_tool: Option<String>,
    /// Time since the last event.
    pub last_activity_age_ms: Option<i64>,
    /// Time since the start.
    pub elapsed_ms: Option<i64>,
    /// Number of events.
    pub events: usize,
}

/// The contents of a [`TopRow`].
pub ghost struct TopRowV {
    pub session_id: Seq<char>,
    pub project: Seq<char>,
    pub running_tool: Option<Seq<char>>,
    pub last_activity_age_ms: Option<int>,
    pub elapsed_ms: Option<int>,
    pub events: int,
}

/// An optional number.
pub open spec fn opt_ms(v: Option<i64>) -> Option<int> {
    match v {
        Some(n) => Some(n as int),
        None => None,
    }
}

impl View for TopRow {
    type V = TopRowV;

    open spec fn view(&self) -> TopRowV {
        TopRowV {
            session_id: self.session_id@,
            project: self.project@,
            running_tool: opt_view(self.running_tool),
            last_activity_age_ms: opt_ms(self.last_activity_age_ms),
            elapsed_ms: opt_ms(self.elapsed_ms),
            events: self.events as int,
        }
    }
}

/// The contents of a list of rows.
pub open spec fn top_views(v: Seq<TopRow>) -> Seq<TopRowV> {
    Seq::new(v.len(), |i: int| v[i]@)
}

// ---------------------------------------------------------------------------
// Rows
// ---------------------------------------------------------------------------

/// The tag of the latest call without a result.
pub open spec fn running_in(entries: Seq<EntryV>) -> Option<Seq<char>>
    decreases entries.len(),
{
    if entries.len() == 0 {
        None
    } else if entries.last().tool_status == Some(ToolStatus::NoResult) {
        Some(entries.last().tag)
    } else {
        running_in(entries.drop_last())
    }
}

/// The latest working directory.
pub open spec fn latest_cwd(events: Seq<EventV>) -> Option<Seq<char>>
    decreases events.len(),
{
    if events.len() == 0 {
        None
    } else if events.last().text("cwd"@) is Some {
        events.last().text("cwd"@)
    } else {
        latest_cwd(events.drop_last())
    }
}

/// The project of a session.
pub open spec fn project_of(events: Seq<EventV>) -> Seq<char> {
    match latest_cwd(events) {
        Some(cwd) => last_component(cwd),
        None => "-"@,
    }
}

/// The time from `t` to `now_ms`.
pub open spec fn since(now_ms: i64, t: Option<i64>) -> Option<int> {
    match t {
        Some(t) => Some(now_ms - t),
        None => None,
    }
}

/// Whether the time from `t` to `now_ms` is a number that the type of times holds.
pub open spec fn since_fits(now_ms: i64, t: Option<i64>) -> bool {
    match t {
        Some(t) => i64::MIN <= now_ms - t <= i64::MAX,
        None => true,
    }
}

/// The row of a session.
pub open spec fn top_row_of(s: SummaryV, events: Seq<EventV>, now_ms: i64) -> TopRowV {
    TopRowV {
        session_id: s.id,
        project: project_of(events),
        running_tool: running_in(timeline_of(events)),
        last_activity_age_ms: since(now_ms, s.last_event_ts),
        elapsed_ms: since(now_ms, s.started()),
        events: s.event_count,
    }
}

/// The sessions that are live, in order.
pub open spec fn live_sessions(rs: Seq<RecordedV>, now_ms: i64, window_ms: i64) -> Seq<RecordedV>
    decreases rs.len(),
{
    if rs.len() == 0 {
        rs
    } else {
        let before = live_sessions(rs.drop_last(), now_ms, window_ms);
        if rs.last().summary().live_within(now_ms, window_ms) {
            before.push(rs.last())
        } else {
            before
        }
    }
}

/// The live sessions, the most recent first.
pub open spec fn live_ranked(rs: Seq<RecordedV>, now_ms: i64, window_ms: i64) -> Seq<RecordedV> {
    sorted_by(
        live_sessions(rs, now_ms, window_ms),
        |a: RecordedV, b: RecordedV| more_recent(a.summary(), b.summary()),
    )
}

/// The rows of sessions, in order.
pub open spec fn top_rows_of(rs: Seq<RecordedV>, now_ms: i64) -> Seq<TopRowV> {
    Seq::new(rs.len(), |i: int| top_row_of(rs[i].summary(), rs[i].events, now_ms))
}

fn running_tool(events: &[AgentEvent]) -> (r: Option<String>)
    ensures
        opt_view(r) == running_in(timeline_of(event_views(events@))),
{
    let entries = build_timeline(events);
    let ghost ev = entry_views(entries@);
    let mut i: usize = entries.len();
    proof {
        assert(ev.take(i as int) =~= ev);
    }
    while i > 0
        invariant
            i <= entries@.len(),
            ev == entry_views(entries@),
            ev == timeline_of(event_views(events@)),
            running_in(ev) == running_in(ev.take(i as int)),
        decreases i,
    {
        proof {
            assert(ev.take(i as int).drop_last() =~= ev.take(i - 1));
            assert(ev.take(i as int).last() == entries@[i - 1]@);
        }
        i = i - 1;
        match entries[i].tool_status {
            Some(ToolStatus::NoResult) => {
                return Some(entries[i].tag.clone());
            },
            _ => {},
        }
    }
    None
}

fn project_name(events: &[AgentEvent]) -> (r: String)
    ensures
        r@ == project_of(event_views(events@)),
{
    let ghost ev = event_views(events@);
    let mut i: usize = events.len();
    proof {
        assert(ev.take(i as int) =~= ev);
    }
    while i > 0
        invariant
            i <= events@.len(),
            ev == event_views(events@),
            latest_cwd(ev) == latest_cwd(ev.take(i as int)),
        decreases i,
    {
        proof {
            assert(ev.take(i as int).drop_last() =~= ev.take(i - 1));
            assert(ev.take(i as int).last() == events@[i - 1]@);
        }
        i = i - 1;
        match events[i].str_field("cwd") {
            Some(cwd) => {
                return basename(cwd);
            },
            None => {},
        }
    }
    "-".to_owned()
}

/// Makes the row of a live session.
pub fn top_row_from(summary: &SessionSummary, events: &[AgentEvent], now_ms: i64) -> (r: TopRow)
    requires
        since_fits(now_ms, summary@.last_event_ts),
        since_fits(now_ms, summary@.started()),
    ensures
        r@ == top_row_of(summary@, event_views(events@), now_ms),
{
    let last_activity_age_ms: Option<i64> = match summary.last_event_ts {
        Some(t) => Some(now_ms - t),
        None => None,
    };
    let elapsed_ms: Option<i64> = match summary.started_ms() {
        Some(t) => Some(now_ms - t),
        None => None,
    };
    TopRow {
        session_id: summary.id.clone(),
        project: project_name(events),
        running_tool: running_tool(events),
        last_activity_age_ms,
        elapsed_ms,
        events: summary.event_count,
    }
}

/// A live session and its summary.
pub struct Alive<'a> {
    /// The summary.
    pub summary: SessionSummary,
    /// The session.
    pub session: &'a RecordedSession,
}

impl<'a> Ordered for Alive<'a> {
    open spec fn before(a: Self, b: Self) -> bool {
        more_recent(a.summary@, b.summary@)
    }

    fn comes_before(&self, other: &Self) -> (r: bool) {
        let a: i64 = self.summary.recency_ms();
        let b: i64 = other.summary.recency_ms();
        a > b || (a == b && text_less(self.summary.id.as_str(), other.summary.id.as_str()))
    }
}

spec fn alive_ok(a: Alive<'_>) -> bool {
    a.summary@ == a.session@.summary()
}

/// Whether every time that a row would tell fits.
pub open spec fn rows_fit(rs: Seq<RecordedV>, now_ms: i64, window_ms: i64) -> bool {
    forall|i: int|
        0 <= i < rs.len() && (#[trigger] rs[i]).summary().live_within(now_ms, window_ms)
            ==> since_fits(now_ms, rs[i].summary().last_event_ts) && since_fits(
            now_ms,
            rs[i].summary().started(),
        )
}

fn since_can_be_told(now_ms: i64, t: Option<i64>) -> (r: bool)
    ensures
        r == since_fits(now_ms, t),
{
    match t {
        Some(t) => now_ms.checked_sub(t).is_some(),
        None => true,
    }
}

/// Tests whether every time that a row would tell fits.
pub fn rows_can_be_told(sessions: &[RecordedSession], now_ms: i64, window_ms: i64) -> (r: bool)
    ensures
        r == rows_fit(recorded_views(sessions@), now_ms, window_ms),
{
    let ghost rv = recorded_views(sessions@);
    for i in 0..sessions.len()
        invariant
            rv == recorded_views(sessions@),
            forall|k: int|
                0 <= k < i && (#[trigger] rv[k]).summary().live_within(now_ms, window_ms)
                    ==> since_fits(now_ms, rv[k].summary().last_event_ts) && since_fits(
                    now_ms,
                    rv[k].summary().started(),
                ),
    {
        let s = &sessions[i];
        proof {
            assert(rv[i as int] == sessions@[i as int]@);
        }
        let summary = summarize(s.id.as_str(), s.created_ts, s.events.as_slice());
        if summary.is_live_within(now_ms, window_ms) {
            if !since_can_be_told(now_ms, summary.last_event_ts) || !since_can_be_told(
                now_ms,
                summary.started_ms(),
            ) {
                return false;
            }
        }
    }
    true
}

/// Makes the rows of the live sessions, the most recent first.
pub fn collect_top_rows(sessions: &[RecordedSession], now_ms: i64, window_ms: i64) -> (out: Vec<
    TopRow,
>)
    requires
        rows_fit(recorded_views(sessions@), now_ms, window_ms),
    ensures
        top_views(out@) == top_rows_of(
            live_ranked(recorded_views(sessions@), now_ms, window_ms),
            now_ms,
        ),
{
    let ghost rv = recorded_views(sessions@);
    let ghost f = |a: Alive<'_>| a.session@;
    let mut alive: Vec<Alive<'_>> = Vec::new();
    proof {
        assert(alive@.map_values(f) =~= live_sessions(rv.take(0), now_ms, window_ms));
    }
    for i in 0..sessions.len()
        invariant
            rv == recorded_views(sessions@),
            rows_fit(rv, now_ms, window_ms),
            f == (|a: Alive<'_>| a.session@),
            alive@.map_values(f) == live_sessions(rv.take(i as int), now_ms, window_ms),
            forall|k: int|
                0 <= k < alive@.len() ==> alive_ok(#[trigger] alive@[k]) && since_fits(
                    now_ms,
                    alive@[k].summary@.last_event_ts,
                ) && since_fits(now_ms, alive@[k].summary@.started()),
    {
        proof {
            assert(rv.take(i + 1).drop_last() =~= rv.take(i as int));
            assert(rv.take(i + 1).last() == sessions@[i as int]@);
            assert(rv[i as int] == sessions@[i as int]@);
        }
        let session = &sessions[i];
        let summary = summarize(session.id.as_str(), session.created_ts, session.events.as_slice());
        let ghost a0 = alive@;
        if summary.is_live_within(now_ms, window_ms) {
            alive.push(Alive { summary, session });
            proof {
                assert(alive@.map_values(f) =~= a0.map_values(f).push(session@));
            }
        }
    }
    proof {
        assert(rv.take(rv.len() as int) =~= rv);
    }
    rows_of_alive(alive, now_ms)
}

fn rows_of_alive(alive: Vec<Alive<'_>>, now_ms: i64) -> (out: Vec<TopRow>)
    requires
        forall|k: int|
            0 <= k < alive@.len() ==> alive_ok(#[trigger] alive@[k]) && since_fits(
                now_ms,
                alive@[k].summary@.last_event_ts,
            ) && since_fits(now_ms, alive@[k].summary@.started()),
    ensures
        top_views(out@) == top_rows_of(
            sorted_by(
                alive@.map_values(|a: Alive<'_>| a.session@),
                |a: RecordedV, b: RecordedV| more_recent(a.summary(), b.summary()),
            ),
            now_ms,
        ),
{
    let ghost before = alive@;
    let ghost f = |a: Alive<'_>| a.session@;
    let ghost lt2 = |a: RecordedV, b: RecordedV| more_recent(a.summary(), b.summary());
    let ghost p = |a: Alive<'_>|
        alive_ok(a) && since_fits(now_ms, a.summary@.last_event_ts) && since_fits(
            now_ms,
            a.summary@.started(),
        );
    let ranked = sort(alive);
    proof {
        lemma_sorted_within(before, f, own_order::<Alive<'_>>(), lt2, p);
    }
    let mut out: Vec<TopRow> = Vec::new();
    for i in 0..ranked.len()
        invariant
            f == (|a: Alive<'_>| a.session@),
            p == (|a: Alive<'_>|
                alive_ok(a) && since_fits(now_ms, a.summary@.last_event_ts) && since_fits(
                    now_ms,
                    a.summary@.started(),
                )),
            forall|k: int| 0 <= k < ranked@.len() ==> p(#[trigger] ranked@[k]),
            out@.len() == i,
            forall|k: int|
                0 <= k < i ==> (#[trigger] out@[k])@ == top_row_of(
                    ranked@[k].session@.summary(),
                    ranked@[k].session@.events,
                    now_ms,
                ),
    {
        let a = &ranked[i];
        proof {
            assert(p(ranked@[i as int]));
        }
        out.push(top_row_from(&a.summary, a.session.events.as_slice(), now_ms));
    }
    proof {
        assert(top_views(out@) =~= top_rows_of(ranked@.map_values(f), now_ms));
    }
    out
}

/// Sorting commutes with a map that keeps the order of the items at hand, and
/// keeps what holds of each of them.
proof fn lemma_sorted_within<A, B>(
    s: Seq<A>,
    f: spec_fn(A) -> B,
    lt: spec_fn(A, A) -> bool,
    lt2: spec_fn(B, B) -> bool,
    p: spec_fn(A) -> bool,
)
    requires
        forall|k: int| 0 <= k < s.len() ==> p(#[trigger] s[k]),
        forall|a: A, b: A| p(a) && p(b) ==> #[trigger] lt(a, b) == lt2(f(a), f(b)),
    ensures
        sorted_by(s, lt).map_values(f) == sorted_by(s.map_values(f), lt2),
        forall|k: int| 0 <= k < sorted_by(s, lt).len() ==> p(#[trigger] sorted_by(s, lt)[k]),
    decreases s.len(),
{
    if s.len() > 0 {
        let t = s.drop_last();
        lemma_sorted_within(t, f, lt, lt2, p);
        assert(p(s[s.len() - 1]));
        lemma_placed_within(sorted_by(t, lt), s.last(), f, lt, lt2, p);
        assert(s.map_values(f).drop_last() =~= t.map_values(f));
        assert(s.map_values(f).last() == f(s.last()));
    } else {
        assert(s.map_values(f) =~= Seq::<B>::empty());
        assert(sorted_by(s, lt) == s);
    }
}

proof fn lemma_placed_within<A, B>(
    t: Seq<A>,
    x: A,
    f: spec_fn(A) -> B,
    lt: spec_fn(A, A) -> bool,
    lt2: spec_fn(B, B) -> bool,
    p: spec_fn(A) -> bool,
)
    requires
        p(x),
        forall|k: int| 0 <= k < t.len() ==> p(#[trigger] t[k]),
        forall|a: A, b: A| p(a) && p(b) ==> #[trigger] lt(a, b) == lt2(f(a), f(b)),
    ensures
        crate::order::placed(t, x, lt).map_values(f) == crate::order::placed(
            t.map_values(f),
            f(x),
            lt2,
        ),
        forall|k: int|
            0 <= k < crate::order::placed(t, x, lt).len() ==> p(
                #[trigger] crate::order::placed(t, x, lt)[k],
            ),
    decreases t.len(),
{
    let m = t.map_values(f);
    if t.len() > 0 {
        assert(p(t[t.len() - 1]));
        assert(m.last() == f(t.last()));
        assert(lt(x, t.last()) == lt2(f(x), f(t.last())));
    }
    if t.len() == 0 || !lt(x, t.last()) {
        assert(t.push(x).map_values(f) =~= m.push(f(x)));
    } else {
        lemma_placed_within(t.drop_last(), x, f, lt, lt2, p);
        assert(m.drop_last() =~= t.drop_last().map_values(f));
        assert(crate::order::placed(t, x, lt).map_values(f) =~= crate::order::placed(
            t.drop_last(),
            x,
            lt,
        ).map_values(f).push(f(t.last())));
    }
}

// ---------------------------------------------------------------------------
// State
// ---------------------------------------------------------------------------

/// The state of the view.
#[derive(Debug, Clone)]
pub struct TopApp {
    /// The rows, the most recent first.
    pub rows: Vec<TopRow>,
    /// The highlighted row.
    pub selected: usize,
    /// The session to look into.
    pub chosen: Option<String>,
    /// Whether to leave.
    pub should_quit: bool,
}

/// The contents of a [`TopApp`].
pub ghost struct TopAppV {
    pub rows: Seq<TopRowV>,
    pub selected: int,
    pub chosen: Option<Seq<char>>,
    pub should_quit: bool,
}

impl View for TopApp {
    type V = TopAppV;

    open spec fn view(&self) -> TopAppV {
        TopAppV {
            rows: top_views(self.rows@),
            selected: self.selected as int,
            chosen: opt_view(self.chosen),
            should_quit: self.should_quit,
        }
    }
}

/// The state over rows, on row `selected` or else on the last one.
pub open spec fn fresh_top(rows: Seq<TopRowV>, selected: int) -> TopAppV {
    TopAppV { rows, selected: clamped(selected, rows.len() as int), chosen: None, should_quit: false }
}

impl TopAppV {
    /// The state after a key press.
    pub open spec fn pressed(self, key: Key) -> TopAppV {
        match action_of(key) {
            ListAction::Quit => TopAppV { should_quit: true, ..self },
            ListAction::Next => TopAppV {
                selected: below(self.selected, self.rows.len() as int),
                ..self
            },
            ListAction::Previous => TopAppV { selected: above(self.selected), ..self },
            ListAction::Confirm => if self.selected < self.rows.len() {
                TopAppV { chosen: Some(self.rows[self.selected].session_id), ..self }
            } else {
                self
            },
            ListAction::Nothing => self,
        }
    }
}

impl TopApp {
    /// Starts on the first row.
    pub fn new(rows: Vec<TopRow>) -> (r: Self)
        ensures
            r@ == fresh_top(top_views(rows@), 0),
    {
        TopApp { rows, selected: 0, chosen: None, should_quit: false }
    }

    /// Starts over with new rows, on the same row or else on the last one.
    pub fn refreshed(rows: Vec<TopRow>, selected: usize) -> (r: Self)
        ensures
            r@ == fresh_top(top_views(rows@), selected as int),
    {
        let n: usize = rows.len();
        TopApp { rows, selected: clamp_row(selected, n), chosen: None, should_quit: false }
    }
}

/// Applies a key press.
pub fn handle_top_key(app: &mut TopApp, key: Key)
    ensures
        final(app)@ == old(app)@.pressed(key),
{
    match list_action(key) {
        ListAction::Quit => {
            app.should_quit = true;
        },
        ListAction::Next => {
            app.selected = row_below(app.selected, app.rows.len());
        },
        ListAction::Previous => {
            app.selected = row_above(app.selected);
        },
        ListAction::Confirm => {
            if app.selected < app.rows.len() {
                app.chosen = Some(app.rows[app.selected].session_id.clone());
            }
        },
        ListAction::Nothing => {},
    }
}

/// What the view was left for.
#[derive(Debug, Clone, PartialEq, Eq)]
pub enum TopOutcome {
    /// To quit.
    Quit,
    /// To look into a session.
    Drill(String),
}

/// Tells what the view is to be left for, if it is.
pub fn top_outcome(app: &TopApp) -> (r: Option<TopOutcome>)
    ensures
        match r {
            Some(TopOutcome::Drill(id)) => app@.chosen == Some(id@),
            Some(TopOutcome::Quit) => app@.chosen is None && app@.should_quit,
            None => app@.chosen is None && !app@.should_quit,
        },
{
    match &app.chosen {
        Some(id) => Some(TopOutcome::Drill(id.clone())),
        None => if app.should_quit {
            Some(TopOutcome::Quit)
        } else {
            None
        },
    }
}

// ---------------------------------------------------------------------------
// Lines
// ---------------------------------------------------------------------------

/// The line of the header.
pub open spec fn top_header_text(app: TopAppV) -> Seq<char> {
    decimal(app.rows.len()) + " live session(s)"@
}

/// A duration, or a dash.
pub open spec fn age_text(d: Option<int>) -> Seq<char> {
    match d {
        Some(ms) => duration_text(ms),
        None => "-"@,
    }
}

/// The line of a row.
pub open spec fn top_line(row: TopRowV, selected: bool) -> Seq<char> {
    let marker = if selected {
        ">"@
    } else {
        " "@
    };
    let tool = match row.running_tool {
        Some(t) => clipped(t, TOOL_WIDTH as nat),
        None => "-"@,
    };
    marker + " "@ + padded_right(
        clipped(row.session_id, SESSION_WIDTH as nat),
        SESSION_WIDTH as nat,
    ) + " "@ + padded_right(clipped(row.project, PROJECT_WIDTH as nat), PROJECT_WIDTH as nat)
        + " "@ + padded_right(tool, TOOL_WIDTH as nat) + " "@ + padded_left(
        age_text(row.last_activity_age_ms),
        AGE_WIDTH as nat,
    ) + " "@ + padded_left(age_text(row.elapsed_ms), ELAPSED_WIDTH as nat) + " "@ + padded_left(
        decimal(row.events as nat),
        COUNT_WIDTH as nat,
    )
}

/// The lines of the rows.
pub open spec fn top_lines(app: TopAppV) -> Seq<Seq<char>> {
    Seq::new(app.rows.len(), |i: int| top_line(app.rows[i], i == app.selected))
}

/// The line of the header.
pub fn top_header(app: &TopApp) -> (out: String)
    ensures
        out@ == top_header_text(app@),
{
    decimal_usize(app.rows.len()).concat(" live session(s)")
}

fn age(d: Option<i64>) -> (out: String)
    ensures
        out@ == age_text(opt_ms(d)),
{
    match d {
        Some(ms) => format_duration_ms(ms),
        None => "-".to_owned(),
    }
}

fn top_row_line(row: &TopRow, selected: bool) -> (out: String)
    ensures
        out@ == top_line(row@, selected),
{
    let marker = if selected {
        ">".to_owned()
    } else {
        " ".to_owned()
    };
    let session = truncate(row.session_id.as_str(), SESSION_WIDTH);
    let project = truncate(row.project.as_str(), PROJECT_WIDTH);
    let tool = match &row.running_tool {
        Some(t) => truncate(t.as_str(), TOOL_WIDTH),
        None => "-".to_owned(),
    };
    marker.concat(" ").concat(pad_right(session.as_str(), SESSION_WIDTH).as_str()).concat(
        " ",
    ).concat(pad_right(project.as_str(), PROJECT_WIDTH).as_str()).concat(" ").concat(
        pad_right(tool.as_str(), TOOL_WIDTH).as_str(),
    ).concat(" ").concat(
        pad_left(age(row.last_activity_age_ms).as_str(), AGE_WIDTH).as_str(),
    ).concat(" ").concat(pad_left(age(row.elapsed_ms).as_str(), ELAPSED_WIDTH).as_str()).concat(
        " ",
    ).concat(pad_left(decimal_usize(row.events).as_str(), COUNT_WIDTH).as_str())
}

/// The lines of the rows, with a mark before the highlighted one.
pub fn top_row_lines(app: &TopApp) -> (out: Vec<String>)
    ensures
        views(out@) == top_lines(app@),
{
    let mut out: Vec<String> = Vec::new();
    for i in 0..app.rows.len()
        invariant
            out@.len() == i,
            forall|k: int|
                0 <= k < i ==> (#[trigger] out@[k])@ == top_line(app@.rows[k], k == app@.selected),
    {
        out.push(top_row_line(&app.rows[i], i == app.selected));
    }
    proof {
        assert(views(out@) =~= top_lines(app@));
    }
    out
}

// ---------------------------------------------------------------------------
// Laws
// ---------------------------------------------------------------------------

/// Only live sessions are shown.
pub proof fn only_live_sessions_are_shown(rs: Seq<RecordedV>, now_ms: i64, window_ms: i64, i: int)
    requires
        0 <= i < live_sessions(rs, now_ms, window_ms).len(),
    ensures
        live_sessions(rs, now_ms, window_ms)[i].summary().live_within(now_ms, window_ms),
        rs.contains(live_sessions(rs, now_ms, window_ms)[i]),
    decreases rs.len(),
{
    let t = rs.drop_last();
    let b = live_sessions(t, now_ms, window_ms);
    if i < b.len() {
        only_live_sessions_are_shown(t, now_ms, window_ms, i);
        let k = choose|k: int| 0 <= k < t.len() && t[k] == b[i];
        assert(rs[k] == b[i]);
    } else {
        assert(rs[rs.len() - 1] == live_sessions(rs, now_ms, window_ms)[i]);
    }
}

/// A highlighted row stays a row of the list whatever key is pressed and however
/// the rows change, and only the enter key chooses a session.
pub proof fn the_highlight_stays_inside(app: TopAppV, key: Key, rows: Seq<TopRowV>)
    requires
        0 <= app.selected < app.rows.len(),
    ensures
        0 <= app.pressed(key).selected < app.rows.len(),
        app.pressed(key).rows == app.rows,
        rows.len() > 0 ==> 0 <= fresh_top(rows, app.selected).selected < rows.len(),
        action_of(key) !is Confirm ==> app.pressed(key).chosen == app.chosen,
        action_of(key) is Confirm ==> app.pressed(key).chosen == Some(
            app.rows[app.selected].session_id,
        ),
{
}

/// The running tool is that of the latest call without a result, and there is none exactly
/// where every call has one.
pub proof fn the_running_tool_waits_for_its_result(entries: Seq<EntryV>)
    ensures
        match running_in(entries) {
            Some(tag) => exists|k: int|
                0 <= k < entries.len() && (#[trigger] entries[k]).tool_status == Some(
                    ToolStatus::NoResult,
                ) && entries[k].tag == tag && forall|j: int|
                    k < j < entries.len() ==> (#[trigger] entries[j]).tool_status != Some(
                        ToolStatus::NoResult,
                    ),
            None => forall|k: int|
                0 <= k < entries.len() ==> (#[trigger] entries[k]).tool_status != Some(
                    ToolStatus::NoResult,
                ),
        },
    decreases entries.len(),
{
    if entries.len() > 0 {
        let n = entries.len() - 1;
        let t = entries.drop_last();
        the_running_tool_waits_for_its_result(t);
        if entries.last().tool_status == Some(ToolStatus::NoResult) {
            assert(entries[n].tag == running_in(entries)->0);
        } else {
            match running_in(t) {
                Some(tag) => {
                    let k = choose|k: int|
                        0 <= k < t.len() && (#[trigger] t[k]).tool_status == Some(
                            ToolStatus::NoResult,
                        ) && t[k].tag == tag && forall|j: int|
                            k < j < t.len() ==> (#[trigger] t[j]).tool_status != Some(
                                ToolStatus::NoResult,
                            );
                    assert(entries[k] == t[k]);
                    assert forall|j: int| k < j < entries.len() implies (
                    #[trigger] entries[j]).tool_status != Some(ToolStatus::NoResult) by {
                        if j < n {
                            assert(t[j] == entries[j]);
                        }
                    }
                },
                None => {
                    assert forall|k: int| 0 <= k < entries.len() implies (
                    #[trigger] entries[k]).tool_status != Some(ToolStatus::NoResult) by {
                        if k < n {
                            assert(t[k] == entries[k]);
                        }
                    }
                },
            }
        }
    }
}

/// The project is the last component of the directory that was named last, and a dash where
/// none was.
pub proof fn the_project_is_that_of_the_latest_directory(events: Seq<EventV>, k: int)
    ensures
        0 <= k < events.len() && events[k].payload.text_at("cwd"@) is Some && (forall|j: int|
            k < j < events.len() ==> (#[trigger] events[j]).payload.text_at("cwd"@) is None)
            ==> project_of(events) == last_component(events[k].payload.text_at("cwd"@)->0),
        (forall|j: int| 0 <= j < events.len() ==> (#[trigger] events[j]).payload.text_at("cwd"@) is None)
            ==> project_of(events) == "-"@,
    decreases events.len(),
{
    if events.len() > 0 {
        let t = events.drop_last();
        let n = events.len() - 1;
        the_project_is_that_of_the_latest_directory(t, k);
        assert(events[n] == events.last());
        assert forall|j: int| 0 <= j < t.len() implies t[j] == #[trigger] events[j] by {}
        if 0 <= k < n && (forall|j: int|
            k < j < events.len() ==> (#[trigger] events[j]).payload.text_at("cwd"@) is None) {
            assert(events[n].payload.text_at("cwd"@) is None);
            assert forall|j: int| k < j < t.len() implies (#[trigger] t[j]).payload.text_at(
                "cwd"@,
            ) is None by {
                assert(events[j] == t[j]);
            }
        }
        if forall|j: int|
            0 <= j < events.len() ==> (#[trigger] events[j]).payload.text_at("cwd"@) is None {
            assert(events[n].payload.text_at("cwd"@) is None);
            assert forall|j: int| 0 <= j < t.len() implies (#[trigger] t[j]).payload.text_at(
                "cwd"@,
            ) is None by {
                assert(events[j] == t[j]);
            }
        }
    }
}

/// The sessions that are shown are those that are live, and a later one stands before an
/// earlier one.
pub proof fn live_sessions_stand_by_recency(
    rs: Seq<RecordedV>,
    now_ms: i64,
    window_ms: i64,
    r: RecordedV,
)
    ensures
        live_ranked(rs, now_ms, window_ms).contains(r) <==> rs.contains(r) && r.summary().live_within(
            now_ms,
            window_ms,
        ),
        forall|i: int, j: int|
            0 <= i < j < live_ranked(rs, now_ms, window_ms).len() ==> (#[trigger] live_ranked(
                rs,
                now_ms,
                window_ms,
            )[i]).summary().recency() >= (#[trigger] live_ranked(
                rs,
                now_ms,
                window_ms,
            )[j]).summary().recency(),
        live_ranked(rs, now_ms, window_ms).len() == how_many(
            rs,
            |x: RecordedV| x.summary().live_within(now_ms, window_ms),
        ),
{
    broadcast use vstd::seq_lib::group_to_multiset_ensures;

    let live = live_sessions(rs, now_ms, window_ms);
    lemma_live_sessions(rs, now_ms, window_ms, r);
    let lt = |a: RecordedV, b: RecordedV| more_recent(a.summary(), b.summary());
    recency_is_an_order();
    let base = |a: SummaryV, b: SummaryV| more_recent(a, b);
    assert(is_order(lt)) by {
        assert forall|a: RecordedV| !#[trigger] lt(a, a) by {
            assert(!base(a.summary(), a.summary()));
        }
        assert forall|a: RecordedV, b: RecordedV| #[trigger] lt(a, b) implies !lt(b, a) by {
            assert(base(a.summary(), b.summary()));
        }
        assert forall|a: RecordedV, b: RecordedV, c: RecordedV| #[trigger]
            lt(a, b) && !lt(c, b) implies #[trigger] lt(a, c) by {
            assert(base(a.summary(), b.summary()) && !base(c.summary(), b.summary()));
            assert(base(a.summary(), c.summary()));
        }
    }
    sorted_by_sorts(live, lt);
    let o = live_ranked(rs, now_ms, window_ms);
    assert(o.contains(r) <==> o.to_multiset().count(r) > 0);
    assert(live.contains(r) <==> live.to_multiset().count(r) > 0);
    assert forall|i: int, j: int| 0 <= i < j < o.len() implies (
    #[trigger] o[i]).summary().recency() >= (#[trigger] o[j]).summary().recency() by {
        assert(!lt(o[j], o[i]));
    }
}

proof fn lemma_live_sessions(rs: Seq<RecordedV>, now_ms: i64, window_ms: i64, r: RecordedV)
    ensures
        live_sessions(rs, now_ms, window_ms).contains(r) <==> rs.contains(r)
            && r.summary().live_within(now_ms, window_ms),
        live_sessions(rs, now_ms, window_ms).len() == how_many(
            rs,
            |x: RecordedV| x.summary().live_within(now_ms, window_ms),
        ),
    decreases rs.len(),
{
    lemma_how_many(rs, |x: RecordedV| x.summary().live_within(now_ms, window_ms));
    if rs.len() > 0 {
        let t = rs.drop_last();
        lemma_live_sessions(t, now_ms, window_ms, r);
        let a = live_sessions(t, now_ms, window_ms);
        let b = live_sessions(rs, now_ms, window_ms);
        if a.contains(r) {
            let k = a.index_of(r);
            assert(b[k] == r);
            let i = t.index_of(r);
            assert(rs[i] == r);
        }
        if rs.contains(r) && r.summary().live_within(now_ms, window_ms) {
            let i = rs.index_of(r);
            if i < t.len() {
                assert(t[i] == r);
            } else {
                assert(b[a.len() as int] == r);
            }
        }
        if b.contains(r) && !a.contains(r) {
            let k = b.index_of(r);
            if k < a.len() {
                assert(a[k] == r);
            }
            assert(rs[rs.len() - 1] == r);
        }
    }
}

/// A row tells how long ago the last event was and the session began, and how many events
/// it has.
pub proof fn top_rows_tell_of_their_session(
    id: Seq<char>,
    created_ts: Option<i64>,
    events: Seq<EventV>,
    now_ms: i64,
)
    requires
        events.len() > 0,
    ensures
        ({
            let row = top_row_of(summary_of(id, created_ts, events), events, now_ms);
            &&& row.session_id == id
            &&& row.events == events.len()
            &&& row.last_activity_age_ms == Some(now_ms - events[events.len() - 1].ts)
            &&& created_ts is Some ==> row.elapsed_ms == Some(now_ms - created_ts->0)
            &&& created_ts is None ==> row.elapsed_ms == Some(now_ms - events[0].ts)
        }),
{
}

/// Each row is shown with its session, its project, the tool that runs, how long ago the last
/// event was, how long the session lasts, and its events; the highlighted one alone is
/// marked. The header tells how many there are.
pub proof fn top_lines_tell_of_their_row(app: TopAppV, i: int)
    requires
        0 <= i < app.rows.len(),
    ensures
        top_header_text(app) == decimal(app.rows.len()) + " live session(s)"@,
        top_lines(app).len() == app.rows.len(),
        top_lines(app)[i] == (if i == app.selected {
            ">"@
        } else {
            " "@
        }) + " "@ + padded_right(
            clipped(app.rows[i].session_id, SESSION_WIDTH as nat),
            SESSION_WIDTH as nat,
        ) + " "@ + padded_right(
            clipped(app.rows[i].project, PROJECT_WIDTH as nat),
            PROJECT_WIDTH as nat,
        ) + " "@ + padded_right(
            match app.rows[i].running_tool {
                Some(t) => clipped(t, TOOL_WIDTH as nat),
                None => "-"@,
            },
            TOOL_WIDTH as nat,
        ) + " "@ + padded_left(
            match app.rows[i].last_activity_age_ms {
                Some(ms) => duration_text(ms),
                None => "-"@,
            },
            AGE_WIDTH as nat,
        ) + " "@ + padded_left(
            match app.rows[i].elapsed_ms {
                Some(ms) => duration_text(ms),
                None => "-"@,
            },
            ELAPSED_WIDTH as nat,
        ) + " "@ + padded_left(decimal(app.rows[i].events as nat), COUNT_WIDTH as nat),
{
}

} // verus!
