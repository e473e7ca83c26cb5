//! The session picker: its state, and the lines it shows.
use vstd::prelude::*;

use crate::keys::{
    above, action_of, below, list_action, row_above, row_below, Key, ListAction,
};
use crate::liveness::DEFAULT_LIVE_WINDOW_MS;
use crate::num::{decimal, decimal_usize, pad_left, pad_right, padded_left, padded_right};
use crate::selector::{
    by_recency, by_recency_desc, ranked_views, summary_views, SessionSummary, SummaryV,
};
use crate::text::{opt_view, views};
use crate::timefmt::{format_utc, utc_text};

verus! {

/// Width of the session id.
pub const ID_WIDTH: usize = 24;

/// Width of the start time.
pub const STARTED_WIDTH: usize = 21;

/// Width of a count.
pub const COUNT_WIDTH: usize = 7;

/// One row of the picker.
#[derive(Debug, Clone, PartialEq, Eq)]
pub struct PickRow {
    /// Session id.
    pub session_id: String,
    /// Start of the session.
    pub started_ms: Option<i64>,
    /// Number of events.
    pub events: usize,
    /// Number of tool calls.
    pub tools: usize,
    /// Whether the session was live when the row was made.
    pub live: bool,
}

/// The contents of a [`PickRow`].
pub ghost struct PickRowV {
    pub session_id: Seq<char>,
    pub started_ms: Option<i64>,
    pub events: int,
    pub tools: int,
    pub live: bool,
}

impl View for PickRow {
    type V = PickRowV;

    open spec fn view(&self) -> PickRowV {
        PickRowV {
            session_id: self.session_id@,
            started_ms: self.started_ms,
            events: self.events as int,
            tools: self.tools as int,
            live: self.live,
        }
    }
}

/// The contents of a list of rows.
pub open spec fn pick_views(v: Seq<PickRow>) -> Seq<PickRowV> {
    Seq::new(v.len(), |i: int| v[i]@)
}

/// The row of a session.
pub open spec fn pick_row_of(s: SummaryV, now_ms: i64) -> PickRowV {
    PickRowV {
        session_id: s.id,
        started_ms: s.started(),
        events: s.event_count,
        tools: s.tool_calls,
        live: s.live_within(now_ms, DEFAULT_LIVE_WINDOW_MS),
    }
}

/// The rows of sessions, in order.
pub open spec fn pick_rows_of(ss: Seq<SummaryV>, now_ms: i64) -> Seq<PickRowV> {
    Seq::new(ss.len(), |i: int| pick_row_of(ss[i], now_ms))
}

/// The state of the picker.
#[derive(Debug, Clone)]
pub struct PickApp {
    /// The rows, the most recent first.
    pub rows: Vec<PickRow>,
    /// The highlighted row.
    pub selected: usize,
    /// The session that was chosen.
    pub chosen: Option<String>,
    /// Whether to leave without choosing.
    pub should_quit: bool,
}

/// The contents of a [`PickApp`].
pub ghost struct PickAppV {
    pub rows: Seq<PickRowV>,
    pub selected: int,
    pub chosen: Option<Seq<char>>,
    pub should_quit: bool,
}

impl View for PickApp {
    type V = PickAppV;

    open spec fn view(&self) -> PickAppV {
        PickAppV {
            rows: pick_views(self.rows@),
            selected: self.selected as int,
            chosen: opt_view(self.chosen),
            should_quit: self.should_quit,
        }
    }
}

impl PickAppV {
    /// The state after a key press.
    pub open spec fn pressed(self, key: Key) -> PickAppV {
        match action_of(key) {
            ListAction::Quit => PickAppV { should_quit: true, ..self },
            ListAction::Next => PickAppV {
                selected: below(self.selected, self.rows.len() as int),
                ..self
            },
            ListAction::Previous => PickAppV { selected: above(self.selected), ..self },
            ListAction::Confirm => if self.selected < self.rows.len() {
                PickAppV { chosen: Some(self.rows[self.selected].session_id), ..self }
            } else {
                self
            },
            ListAction::Nothing => self,
        }
    }
}

impl PickApp {
    /// Starts on the first row.
    pub fn new(rows: Vec<PickRow>) -> (r: Self)
        ensures
            r@ == (PickAppV {
                rows: pick_views(rows@),
                selected: 0,
                chosen: None,
                should_quit: false,
            }),
    {
        PickApp { rows, selected: 0, chosen: None, should_quit: false }
    }

    /// Tells whether the picker is done.
    pub fn finished(&self) -> (r: bool)
        ensures
            r == (self@.should_quit || self@.chosen is Some),
    {
        self.should_quit || self.chosen.is_some()
    }
}

/// Applies a key press.
pub fn handle_pick_key(app: &mut PickApp, key: Key)
    ensures
        final(app)@ == old(app)@.pressed(key),
{
    match list_action(key) {
        ListAction::Quit => {
            app.should_quit = true;
        },
        ListAction::Next => {
            app.selected = row_below(app.selected, app.rows.len());
        },
        ListAction::Previous => {
            app.selected = row_above(app.selected);
        },
        ListAction::Confirm => {
            if app.selected < app.rows.len() {
                app.chosen = Some(app.rows[app.selected].session_id.clone());
            }
        },
        ListAction::Nothing => {},
    }
}

/// Makes the rows of the picker, the most recent session first.
pub fn rows_from_summaries(summaries: &[SessionSummary], now_ms: i64) -> (out: Vec<PickRow>)
    ensures
        pick_views(out@) == pick_rows_of(by_recency(summary_views(summaries@)), now_ms),
{
    let ordered = by_recency_desc(summaries);
    let ghost all = ranked_views(ordered@);
    let mut out: Vec<PickRow> = Vec::new();
    for i in 0..ordered.len()
        invariant
            all == ranked_views(ordered@),
            out@.len() == i,
            forall|k: int| 0 <= k < i ==> (#[trigger] out@[k])@ == pick_row_of(all[k], now_ms),
    {
        let s = ordered[i].summary;
        proof {
            assert(all[i as int] == ordered@[i as int].summary@);
        }
        out.push(
            PickRow {
                session_id: s.id.clone(),
                started_ms: s.started_ms(),
                events: s.event_count,
                tools: s.tool_calls,
                live: s.is_live(now_ms),
            },
        );
    }
    proof {
        assert(pick_views(out@) =~= pick_rows_of(all, now_ms));
    }
    out
}

/// The line of the header.
pub open spec fn pick_header_text(app: PickAppV) -> Seq<char> {
    decimal(app.rows.len()) + " session(s) recorded"@
}

/// The line of a row.
pub open spec fn pick_line(row: PickRowV, selected: bool) -> Seq<char> {
    let started = match row.started_ms {
        Some(t) => utc_text(t as int),
        None => "-"@,
    };
    let marker = if selected {
        ">"@
    } else {
        " "@
    };
    let live = if row.live {
        "live"@
    } else {
        ""@
    };
    marker + " "@ + padded_right(row.session_id, ID_WIDTH as nat) + " "@ + padded_right(
        started,
        STARTED_WIDTH as nat,
    ) + " "@ + padded_left(decimal(row.events as nat), COUNT_WIDTH as nat) + " "@ + padded_left(
        decimal(row.tools as nat),
        COUNT_WIDTH as nat,
    ) + "  "@ + live
}

/// The lines of the rows.
pub open spec fn pick_lines(app: PickAppV) -> Seq<Seq<char>> {
    Seq::new(app.rows.len(), |i: int| pick_line(app.rows[i], i == app.selected))
}

/// The line of the header.
pub fn pick_header(app: &PickApp) -> (out: String)
    ensures
        out@ == pick_header_text(app@),
{
    decimal_usize(app.rows.len()).concat(" session(s) recorded")
}

fn pick_row_line(row: &PickRow, selected: bool) -> (out: String)
    ensures
        out@ == pick_line(row@, selected),
{
    let started = match row.started_ms {
        Some(t) => format_utc(t),
        None => "-".to_owned(),
    };
    let marker = if selected {
        ">".to_owned()
    } else {
        " ".to_owned()
    };
    let live = if row.live {
        "live"
    } else {
        ""
    };
    marker.concat(" ").concat(pad_right(row.session_id.as_str(), ID_WIDTH).as_str()).concat(
        " ",
    ).concat(pad_right(started.as_str(), STARTED_WIDTH).as_str()).concat(" ").concat(
        pad_left(decimal_usize(row.events).as_str(), COUNT_WIDTH).as_str(),
    ).concat(" ").concat(pad_left(decimal_usize(row.tools).as_str(), COUNT_WIDTH).as_str()).concat(
        "  ",
    ).concat(live)
}

/// The lines of the rows, with a mark before the highlighted one.
pub fn pick_row_lines(app: &PickApp) -> (out: Vec<String>)
    ensures
        views(out@) == pick_lines(app@),
{
    let mut out: Vec<String> = Vec::new();
    for i in 0..app.rows.len()
        invariant
            out@.len() == i,
            forall|k: int|
                0 <= k < i ==> (#[trigger] out@[k])@ == pick_line(
                    app@.rows[k],
                    k == app@.selected,
                ),
    {
        out.push(pick_row_line(&app.rows[i], i == app.selected));
    }
    proof {
        assert(views(out@) =~= pick_lines(app@));
    }
    out
}

/// A highlighted row stays a row of the list whatever key is pressed, and only
/// the enter key chooses a session.
pub proof fn picking_stays_inside(app: PickAppV, key: Key)
    requires
        0 <= app.selected < app.rows.len(),
    ensures
        0 <= app.pressed(key).selected < app.pressed(key).rows.len(),
        app.pressed(key).rows == app.rows,
        action_of(key) !is Confirm ==> app.pressed(key).chosen == app.chosen,
        action_of(key) is Confirm ==> app.pressed(key).chosen == Some(
            app.rows[app.selected].session_id,
        ),
{
}

/// The rows stand for the sessions, in order: each with its id, its start, its events and
/// calls, and whether it is live within five minutes.
pub proof fn pick_rows_tell_of_their_session(ss: Seq<SummaryV>, now_ms: i64, i: int)
    requires
        0 <= i < ss.len(),
    ensures
        pick_rows_of(ss, now_ms).len() == ss.len(),
        pick_rows_of(ss, now_ms)[i].session_id == ss[i].id,
        pick_rows_of(ss, now_ms)[i].events == ss[i].event_count,
        pick_rows_of(ss, now_ms)[i].tools == ss[i].tool_calls,
        pick_rows_of(ss, now_ms)[i].live <==> ss[i].live_within(now_ms, 300_000),
        pick_rows_of(ss, now_ms)[i].started_ms == (if ss[i].created_ts is Some {
            ss[i].created_ts
        } else {
            ss[i].first_event_ts
        }),
{
}

/// Each session is shown with its id, its start, its events and calls, and whether it is
/// live; the highlighted one alone is marked. The header tells how many there are.
pub proof fn pick_lines_tell_of_their_row(app: PickAppV, i: int)
    requires
        0 <= i < app.rows.len(),
    ensures
        pick_header_text(app) == decimal(app.rows.len()) + " session(s) recorded"@,
        pick_lines(app).len() == app.rows.len(),
        pick_lines(app)[i] == (if i == app.selected {
            ">"@
        } else {
            " "@
        }) + " "@ + padded_right(app.rows[i].session_id, ID_WIDTH as nat) + " "@ + padded_right(
            match app.rows[i].started_ms {
                Some(t) => utc_text(t as int),
                None => "-"@,
            },
            STARTED_WIDTH as nat,
        ) + " "@ + padded_left(decimal(app.rows[i].events as nat), COUNT_WIDTH as nat) + " "@
            + padded_left(decimal(app.rows[i].tools as nat), COUNT_WIDTH as nat) + "  "@ + (
        if app.rows[i].live {
            "live"@
        } else {
            ""@
        }),
{
}

} // verus!
