//! The timeline viewer: its state, and the lines it shows.
use vstd::prelude::*;

use crate::count::how_many;
use crate::event::{event_views, Attribution, EventKind, EventV, Source};
use crate::json::{canonical, JsonV};
use crate::keys::{above, below, clamp_row, clamped, row_above, row_below, Key};
use crate::num::{decimal, decimal_usize, pad_left, pad_right, padded_left, padded_right};
use crate::outside::{pretty, pretty_of};
use crate::report::{attribution_word, word_of};
use crate::selection::summaries_tell_of_the_events;
use crate::selector::count_kind;
use crate::store::SessionRead;
use crate::text::{has_text, lemma_text_inside, views};
use crate::timefmt::{
    duration_text, format_duration_ms, format_offset_ms, format_utc, offset_text, utc_text,
};
use crate::timeline::{
    build_timeline, entry_views, timeline_of, tool_call_count, EntryV, TimelineEntry, ToolStatus,
};

verus! {

/// Width of the offset from the first event.
pub const OFFSET_WIDTH: usize = 10;

/// Width of the tag.
pub const TAG_WIDTH: usize = 12;

/// Width of the outcome of a tool row.
pub const STATUS_WIDTH: usize = 9;

/// The state of the viewer.
#[derive(Debug)]
pub struct TuiApp {
    /// The session.
    pub session_id: String,
    /// Time of the first event.
    pub base_ts: i64,
    /// The rows.
    pub entries: Vec<TimelineEntry>,
    /// The highlighted row.
    pub selected: usize,
    /// Whether the details of the highlighted row are shown.
    pub detail_open: bool,
    /// Whether the viewer follows the session.
    pub follow: bool,
    /// Number of events.
    pub event_count: usize,
    /// Number of tool calls.
    pub tool_count: usize,
    /// Number of lines that could not be read.
    pub skipped_lines: usize,
    /// Whether to leave.
    pub should_quit: bool,
}

/// The contents of a [`TuiApp`].
pub ghost struct TuiV {
    pub session_id: Seq<char>,
    pub base_ts: i64,
    pub entries: Seq<EntryV>,
    pub selected: int,
    pub detail_open: bool,
    pub follow: bool,
    pub event_count: int,
    pub tool_count: int,
    pub skipped_lines: int,
    pub should_quit: bool,
}

impl View for TuiApp {
    type V = TuiV;

    open spec fn view(&self) -> TuiV {
        TuiV {
            session_id: self.session_id@,
            base_ts: self.base_ts,
            entries: entry_views(self.entries@),
            selected: self.selected as int,
            detail_open: self.detail_open,
            follow: self.follow,
            event_count: self.event_count as int,
            tool_count: self.tool_count as int,
            skipped_lines: self.skipped_lines as int,
            should_quit: self.should_quit,
        }
    }
}

/// The state at the start.
pub open spec fn fresh_view(session_id: Seq<char>, events: Seq<EventV>, skipped: int) -> TuiV {
    TuiV {
        session_id,
        base_ts: if events.len() > 0 {
            events[0].ts
        } else {
            0
        },
        entries: timeline_of(events),
        selected: 0,
        detail_open: false,
        follow: false,
        event_count: events.len() as int,
        tool_count: count_kind(events, EventKind::ToolCall),
        skipped_lines: skipped,
        should_quit: false,
    }
}

impl TuiV {
    /// Whether the highlighted row is the last one.
    pub open spec fn at_tail(self) -> bool {
        self.entries.len() == 0 || self.selected + 1 >= self.entries.len()
    }

    /// The state with a newer read of the session. The highlight stays on its row,
    /// or goes along with the last row where the viewer follows.
    pub open spec fn updated(self, events: Seq<EventV>, skipped: int) -> TuiV {
        let entries = timeline_of(events);
        TuiV {
            base_ts: if events.len() > 0 {
                events[0].ts
            } else {
                self.base_ts
            },
            entries,
            selected: if self.follow && self.at_tail() && entries.len() > 0 {
                entries.len() - 1
            } else if self.follow && self.at_tail() {
                0
            } else {
                clamped(self.selected, entries.len() as int)
            },
            event_count: events.len() as int,
            tool_count: count_kind(events, EventKind::ToolCall),
            skipped_lines: skipped,
            ..self
        }
    }

    /// Whether a read of the session tells something new.
    pub open spec fn outdated(self, events: Seq<EventV>, skipped: int) -> bool {
        events.len() != self.event_count || skipped != self.skipped_lines
    }

    /// The state after a key press.
    pub open spec fn pressed(self, key: Key) -> TuiV {
        match key {
            Key::Esc => if self.detail_open {
                TuiV { detail_open: false, ..self }
            } else {
                TuiV { should_quit: true, ..self }
            },
            Key::Down => TuiV {
                selected: below(self.selected, self.entries.len() as int),
                ..self
            },
            Key::Up => TuiV { selected: above(self.selected), ..self },
            Key::Enter => if self.entries.len() > 0 {
                TuiV { detail_open: !self.detail_open, ..self }
            } else {
                self
            },
            Key::Char(c) => if c == 'q' {
                TuiV { should_quit: true, ..self }
            } else if c == 'j' {
                TuiV { selected: below(self.selected, self.entries.len() as int), ..self }
            } else if c == 'k' {
                TuiV { selected: above(self.selected), ..self }
            } else if c == 'f' {
                TuiV { follow: !self.follow, ..self }
            } else {
                self
            },
            Key::Other => self,
        }
    }
}

impl TuiApp {
    /// Starts on the first row of a session.
    pub fn new(session_id: &str, read: &SessionRead) -> (r: Self)
        ensures
            r@ == fresh_view(session_id@, event_views(read.events@), read.skipped_lines as int),
    {
        let base_ts: i64 = if read.events.len() > 0 {
            read.events[0].ts
        } else {
            0
        };
        TuiApp {
            session_id: session_id.to_owned(),
            base_ts,
            entries: build_timeline(read.events.as_slice()),
            selected: 0,
            detail_open: false,
            follow: false,
            event_count: read.events.len(),
            tool_count: tool_call_count(read.events.as_slice()),
            skipped_lines: read.skipped_lines,
            should_quit: false,
        }
    }

    /// Takes up a newer read of the session.
    pub fn update(&mut self, read: &SessionRead)
        ensures
            final(self)@ == old(self)@.updated(
                event_views(read.events@),
                read.skipped_lines as int,
            ),
    {
        let n: usize = self.entries.len();
        let was_at_tail = n == 0 || self.selected >= n - 1;
        self.entries = build_timeline(read.events.as_slice());
        if read.events.len() > 0 {
            self.base_ts = read.events[0].ts;
        }
        self.event_count = read.events.len();
        self.tool_count = tool_call_count(read.events.as_slice());
        self.skipped_lines = read.skipped_lines;
        let m: usize = self.entries.len();
        if self.follow && was_at_tail {
            self.selected = if m > 0 {
                m - 1
            } else {
                0
            };
        } else {
            self.selected = clamp_row(self.selected, m);
        }
        proof {
            assert(self@.entries.len() == m);
        }
    }
}

/// Takes up a read of the session where it tells something new, and says whether
/// it did.
pub fn poll_update(app: &mut TuiApp, fresh: &SessionRead) -> (r: bool)
    ensures
        r == old(app)@.outdated(event_views(fresh.events@), fresh.skipped_lines as int),
        final(app)@ == (if r {
            old(app)@.updated(event_views(fresh.events@), fresh.skipped_lines as int)
        } else {
            old(app)@
        }),
{
    proof {
        assert(event_views(fresh.events@).len() == fresh.events@.len());
    }
    if fresh.events.len() != app.event_count || fresh.skipped_lines != app.skipped_lines {
        app.update(fresh);
        true
    } else {
        false
    }
}

/// Applies a key press.
pub fn handle_key(app: &mut TuiApp, key: Key)
    ensures
        final(app)@ == old(app)@.pressed(key),
{
    match key {
        Key::Esc => {
            if app.detail_open {
                app.detail_open = false;
            } else {
                app.should_quit = true;
            }
        },
        Key::Down => {
            app.selected = row_below(app.selected, app.entries.len());
        },
        Key::Up => {
            app.selected = row_above(app.selected);
        },
        Key::Enter => {
            if app.entries.len() > 0 {
                app.detail_open = !app.detail_open;
            }
        },
        Key::Char(c) => {
            if c == 'q' {
                app.should_quit = true;
            } else if c == 'j' {
                app.selected = row_below(app.selected, app.entries.len());
            } else if c == 'k' {
                app.selected = row_above(app.selected);
            } else if c == 'f' {
                app.follow = !app.follow;
            }
        },
        Key::Other => {},
    }
}

// ---------------------------------------------------------------------------
// Lines
// ---------------------------------------------------------------------------

/// The lines of the header.
pub open spec fn header_lines_of(app: TuiV) -> Seq<Seq<char>> {
    let started = if app.event_count == 0 {
        "-"@
    } else {
        utc_text(app.base_ts as int)
    };
    let follow = if app.follow {
        "on"@
    } else {
        "off"@
    };
    seq![
        "session "@ + app.session_id + "  ·  started "@ + started,
        decimal(app.event_count as nat) + " events · "@ + decimal(app.tool_count as nat)
            + " tool calls · "@ + decimal(app.skipped_lines as nat) + " corrupt lines · follow "@
            + follow,
    ]
}

/// The lines of the header.
pub fn header_lines(app: &TuiApp) -> (out: Vec<String>)
    ensures
        views(out@) == header_lines_of(app@),
{
    let started = if app.event_count == 0 {
        "-".to_owned()
    } else {
        format_utc(app.base_ts)
    };
    let follow = if app.follow {
        "on"
    } else {
        "off"
    };
    let first = "session ".to_owned().concat(app.session_id.as_str()).concat(
        "  ·  started ",
    ).concat(started.as_str());
    let second = decimal_usize(app.event_count).concat(" events · ").concat(
        decimal_usize(app.tool_count).as_str(),
    ).concat(" tool calls · ").concat(decimal_usize(app.skipped_lines).as_str()).concat(
        " corrupt lines · follow ",
    ).concat(follow);
    let out: Vec<String> = vec![first, second];
    proof {
        assert(views(out@) =~= header_lines_of(app@));
    }
    out
}

/// The letter for an attribution.
pub open spec fn letter_of(a: Attribution) -> Seq<char> {
    match a {
        Attribution::Direct => "D"@,
        Attribution::Observed => "O"@,
        Attribution::Inferred => "I"@,
    }
}

fn attribution_char(a: Attribution) -> (r: &'static str)
    ensures
        r@ == letter_of(a),
{
    match a {
        Attribution::Direct => "D",
        Attribution::Observed => "O",
        Attribution::Inferred => "I",
    }
}

/// The word for a source.
pub open spec fn source_of(s: Source) -> Seq<char> {
    match s {
        Source::Hooks => "hooks"@,
        Source::Transcript => "transcript"@,
    }
}

fn source_word(s: Source) -> (r: &'static str)
    ensures
        r@ == source_of(s),
{
    match s {
        Source::Hooks => "hooks",
        Source::Transcript => "transcript",
    }
}

/// The line of a row.
pub open spec fn entry_line_of(e: EntryV, base_ts: i64, selected: bool) -> Seq<char> {
    let marker = if selected {
        ">"@
    } else {
        " "@
    };
    let status = match e.tool_status {
        Some(s) => s.spec_label(),
        None => ""@,
    };
    marker + " "@ + padded_left(offset_text(e.ts - base_ts), OFFSET_WIDTH as nat) + " "@
        + letter_of(e.attribution) + " "@ + padded_right(e.tag, TAG_WIDTH as nat) + " "@
        + padded_right(status, STATUS_WIDTH as nat) + " "@ + e.summary
}

/// The lines of the rows.
pub open spec fn entry_lines_of(app: TuiV) -> Seq<Seq<char>> {
    Seq::new(
        app.entries.len(),
        |i: int| entry_line_of(app.entries[i], app.base_ts, i == app.selected),
    )
}

/// Whether the offset of each row is a number that the type of times holds.
pub open spec fn offsets_fit(app: TuiV) -> bool {
    forall|i: int|
        0 <= i < app.entries.len() ==> i64::MIN <= (#[trigger] app.entries[i]).ts - app.base_ts
            <= i64::MAX
}

/// Tests whether the offset of each row can be told.
pub fn offsets_can_be_told(app: &TuiApp) -> (r: bool)
    ensures
        r == offsets_fit(app@),
{
    for i in 0..app.entries.len()
        invariant
            forall|k: int|
                0 <= k < i ==> i64::MIN <= (#[trigger] app@.entries[k]).ts - app@.base_ts
                    <= i64::MAX,
    {
        let d: i128 = app.entries[i].ts as i128 - app.base_ts as i128;
        proof {
            assert(app@.entries[i as int] == app.entries@[i as int]@);
        }
        if d < i64::MIN as i128 || d > i64::MAX as i128 {
            return false;
        }
    }
    true
}

fn entry_line(e: &TimelineEntry, base_ts: i64, selected: bool) -> (out: String)
    requires
        i64::MIN <= e.ts - base_ts <= i64::MAX,
    ensures
        out@ == entry_line_of(e@, base_ts, selected),
{
    let marker = if selected {
        ">".to_owned()
    } else {
        " ".to_owned()
    };
    let status = match e.tool_status {
        Some(s) => s.label(),
        None => "",
    };
    let offset = format_offset_ms(e.ts - base_ts);
    marker.concat(" ").concat(pad_left(offset.as_str(), OFFSET_WIDTH).as_str()).concat(" ").concat(
        attribution_char(e.attribution),
    ).concat(" ").concat(pad_right(e.tag.as_str(), TAG_WIDTH).as_str()).concat(" ").concat(
        pad_right(status, STATUS_WIDTH).as_str(),
    ).concat(" ").concat(e.summary.as_str())
}

/// The lines of the rows, with a mark before the highlighted one.
pub fn entry_lines(app: &TuiApp) -> (out: Vec<String>)
    requires
        offsets_fit(app@),
    ensures
        views(out@) == entry_lines_of(app@),
{
    let mut out: Vec<String> = Vec::new();
    for i in 0..app.entries.len()
        invariant
            offsets_fit(app@),
            out@.len() == i,
            forall|k: int|
                0 <= k < i ==> (#[trigger] out@[k])@ == entry_line_of(
                    app@.entries[k],
                    app@.base_ts,
                    k == app@.selected,
                ),
    {
        proof {
            assert(app@.entries[i as int] == app.entries@[i as int]@);
        }
        out.push(entry_line(&app.entries[i], app.base_ts, i == app.selected));
    }
    proof {
        assert(views(out@) =~= entry_lines_of(app@));
    }
    out
}

// ---------------------------------------------------------------------------
// Details
// ---------------------------------------------------------------------------

/// Where an entry comes from, with its confidence as a text.
pub open spec fn provenance_of(e: EntryV, confidence: Seq<char>) -> Seq<char> {
    let kind = if e.tool_status is Some {
        "tool"@
    } else {
        "event"@
    };
    kind + ": "@ + e.tag + "\n"@ + "attribution: "@ + word_of(e.attribution) + " · source: "@
        + source_of(e.source) + " · confidence: "@ + confidence + "\n"@
}

/// The reference of an entry to its raw record.
pub open spec fn reference_of(e: EntryV) -> Seq<char> {
    match e.call.raw_event_ref {
        Some(r) => "raw_ref: "@ + r + "\n"@,
        None => ""@,
    }
}

/// The outcome of a tool row.
pub open spec fn outcome_of(e: EntryV) -> Seq<char> {
    let duration = match e.duration_ms {
        Some(d) => " · duration: "@ + duration_text(d),
        None => ""@,
    };
    match e.tool_status {
        Some(s) => "status: "@ + s.spec_label() + duration + "\n"@,
        None => ""@,
    }
}

/// A value under a heading, if there is one.
pub open spec fn value_under(heading: Seq<char>, j: Option<JsonV>) -> Seq<char> {
    match j {
        Some(j) => heading + pretty_of(canonical(j)) + "\n"@,
        None => ""@,
    }
}

/// What a tool answered.
pub open spec fn response_of(e: EntryV) -> Option<JsonV> {
    match e.result {
        Some(r) => r.payload.get("tool_response"@),
        None => None,
    }
}

/// What an entry holds.
pub open spec fn contents_of(e: EntryV) -> Seq<char> {
    if e.tool_status is Some {
        value_under("input:\n"@, e.call.payload.get("tool_input"@)) + value_under(
            "\nresponse:\n"@,
            response_of(e),
        )
    } else {
        value_under("payload:\n"@, Some(e.call.payload))
    }
}

/// The details of an entry: first where it comes from, then what it holds.
pub open spec fn detail_of(e: EntryV, confidence: Seq<char>) -> Seq<char> {
    provenance_of(e, confidence) + reference_of(e) + outcome_of(e) + "\n"@ + contents_of(e)
}

fn provenance(e: &TimelineEntry, confidence: &str) -> (out: String)
    ensures
        out@ == provenance_of(e@, confidence@),
{
    let kind = if e.tool_status.is_some() {
        "tool".to_owned()
    } else {
        "event".to_owned()
    };
    kind.concat(": ").concat(e.tag.as_str()).concat("\n").concat("attribution: ").concat(
        attribution_word(e.attribution),
    ).concat(" · source: ").concat(source_word(e.source)).concat(" · confidence: ").concat(
        confidence,
    ).concat("\n")
}

fn outcome(e: &TimelineEntry) -> (out: String)
    ensures
        out@ == outcome_of(e@),
{
    match e.tool_status {
        Some(s) => {
            let duration = match e.duration_ms {
                Some(d) => " · duration: ".to_owned().concat(format_duration_ms(d).as_str()),
                None => "".to_owned(),
            };
            "status: ".to_owned().concat(s.label()).concat(duration.as_str()).concat("\n")
        },
        None => "".to_owned(),
    }
}

fn value_text(heading: &str, j: Option<&crate::json::Json>) -> (out: String)
    ensures
        out@ == value_under(heading@, crate::json::opt_json(j)),
{
    match j {
        Some(j) => heading.to_owned().concat(pretty(j).as_str()).concat("\n"),
        None => "".to_owned(),
    }
}

fn contents(e: &TimelineEntry) -> (out: String)
    ensures
        out@ == contents_of(e@),
{
    if e.tool_status.is_some() {
        let response = match &e.result {
            Some(r) => r.payload.get("tool_response"),
            None => None,
        };
        value_text("input:\n", e.call.payload.get("tool_input")).concat(
            value_text("\nresponse:\n", response).as_str(),
        )
    } else {
        value_text("payload:\n", Some(&e.call.payload))
    }
}

/// Writes the details of an entry, whose confidence is given as a text.
pub fn detail_text(e: &TimelineEntry, confidence: &str) -> (out: String)
    ensures
        out@ == detail_of(e@, confidence@),
{
    let reference = match &e.call.raw_event_ref {
        Some(r) => "raw_ref: ".to_owned().concat(r.as_str()).concat("\n"),
        None => "".to_owned(),
    };
    provenance(e, confidence).concat(reference.as_str()).concat(outcome(e).as_str()).concat(
        "\n",
    ).concat(contents(e).as_str())
}

// ---------------------------------------------------------------------------
// Laws
// ---------------------------------------------------------------------------

/// Whether the highlight is on a row, or on none because there is none.
pub open spec fn highlight_inside(app: TuiV) -> bool {
    0 <= app.selected && (app.selected < app.entries.len() || app.selected == 0)
}

/// The highlight is inside at the start, and stays so whatever key is pressed and
/// whatever is read.
pub proof fn highlight_stays_inside(
    app: TuiV,
    key: Key,
    session_id: Seq<char>,
    events: Seq<EventV>,
    skipped: int,
)
    requires
        highlight_inside(app),
    ensures
        highlight_inside(fresh_view(session_id, events, skipped)),
        highlight_inside(app.pressed(key)),
        highlight_inside(app.updated(events, skipped)),
{
}

/// A viewer that follows and stands on the last row stands on the last row after
/// every read; one that does not follow stays where it is while the row is there.
pub proof fn following_sticks_to_the_tail(app: TuiV, events: Seq<EventV>, skipped: int)
    requires
        highlight_inside(app),
    ensures
        app.follow && app.at_tail() ==> app.updated(events, skipped).at_tail(),
        !app.follow && app.selected < timeline_of(events).len() ==> app.updated(
            events,
            skipped,
        ).selected == app.selected,
{
}

/// A second look at the same read tells nothing new.
pub proof fn polling_settles(app: TuiV, events: Seq<EventV>, skipped: int)
    ensures
        !app.updated(events, skipped).outdated(events, skipped),
{
}

/// The enter key twice, or the follow key twice, changes nothing.
pub proof fn toggles_undo_themselves(app: TuiV)
    ensures
        app.pressed(Key::Enter).pressed(Key::Enter) == app,
        app.pressed(Key::Char('f')).pressed(Key::Char('f')) == app,
{
}

/// The viewer shows the timeline of what was read, with its numbers, from the first event
/// on; it starts on the first row, closed, and does not follow.
pub proof fn the_viewer_shows_what_was_read(session_id: Seq<char>, events: Seq<EventV>, skipped: int)
    ensures
        ({
            let app = fresh_view(session_id, events, skipped);
            &&& app.session_id == session_id
            &&& app.entries == timeline_of(events)
            &&& app.event_count == events.len()
            &&& app.tool_count == how_many(events, |e: EventV| e.kind == EventKind::ToolCall)
            &&& app.skipped_lines == skipped
            &&& events.len() > 0 ==> app.base_ts == events[0].ts
            &&& app.selected == 0 && !app.detail_open && !app.follow && !app.should_quit
        }),
{
    summaries_tell_of_the_events(session_id, None, events);
}

/// A newer read shows its own timeline and numbers, and leaves alone what the keys set.
pub proof fn a_newer_read_is_shown(app: TuiV, events: Seq<EventV>, skipped: int)
    ensures
        ({
            let new = app.updated(events, skipped);
            &&& new.entries == timeline_of(events)
            &&& new.event_count == events.len()
            &&& new.tool_count == how_many(events, |e: EventV| e.kind == EventKind::ToolCall)
            &&& new.skipped_lines == skipped
            &&& events.len() > 0 ==> new.base_ts == events[0].ts
            &&& new.session_id == app.session_id && new.follow == app.follow && new.detail_open
                == app.detail_open && new.should_quit == app.should_quit
            &&& app.outdated(events, skipped) <==> app.event_count != events.len()
                || app.skipped_lines != skipped
        }),
{
    summaries_tell_of_the_events(app.session_id, None, events);
}

/// The letters do what the arrows do, escape closes the details before it leaves, and no
/// key changes what was read.
pub proof fn keys_move_and_toggle(app: TuiV, key: Key)
    requires
        highlight_inside(app),
    ensures
        app.pressed(Key::Char('j')) == app.pressed(Key::Down),
        app.pressed(Key::Char('k')) == app.pressed(Key::Up),
        app.selected + 1 < app.entries.len() ==> app.pressed(Key::Down).selected == app.selected + 1,
        app.selected + 1 == app.entries.len() ==> app.pressed(Key::Down).selected == app.selected,
        app.selected > 0 ==> app.pressed(Key::Up).selected == app.selected - 1,
        app.selected == 0 ==> app.pressed(Key::Up).selected == 0,
        app.entries.len() > 0 ==> app.pressed(Key::Enter).detail_open == !app.detail_open,
        app.pressed(Key::Char('f')).follow == !app.follow,
        app.pressed(Key::Char('q')).should_quit,
        app.detail_open ==> !app.pressed(Key::Esc).detail_open && app.pressed(Key::Esc).should_quit
            == app.should_quit,
        !app.detail_open ==> app.pressed(Key::Esc).should_quit,
        app.pressed(key).entries == app.entries && app.pressed(key).event_count == app.event_count
            && app.pressed(key).session_id == app.session_id && app.pressed(key).base_ts
            == app.base_ts,
{
}

/// The header tells the session, when it started, the numbers of what was read, and whether
/// the viewer follows.
pub proof fn the_header_tells_the_numbers(app: TuiV)
    ensures
        header_lines_of(app).len() == 2,
        app.event_count == 0 ==> header_lines_of(app)[0] == "session "@ + app.session_id
            + "  ·  started "@ + "-"@,
        app.event_count != 0 ==> header_lines_of(app)[0] == "session "@ + app.session_id
            + "  ·  started "@ + utc_text(app.base_ts as int),
        header_lines_of(app)[1] == decimal(app.event_count as nat) + " events · "@ + decimal(
            app.tool_count as nat,
        ) + " tool calls · "@ + decimal(app.skipped_lines as nat) + " corrupt lines · follow "@ + (
        if app.follow {
            "on"@
        } else {
            "off"@
        }),
{
}

/// Each row tells its offset from the first event, its attribution, its tag, its outcome and
/// its summary, and the highlighted one alone is marked.
pub proof fn rows_tell_of_their_entry(app: TuiV, i: int)
    requires
        0 <= i < app.entries.len(),
    ensures
        entry_lines_of(app).len() == app.entries.len(),
        entry_lines_of(app)[i] == (if i == app.selected {
            ">"@
        } else {
            " "@
        }) + " "@ + padded_left(
            offset_text(app.entries[i].ts - app.base_ts),
            OFFSET_WIDTH as nat,
        ) + " "@ + (match app.entries[i].attribution {
            Attribution::Direct => "D"@,
            Attribution::Observed => "O"@,
            Attribution::Inferred => "I"@,
        }) + " "@ + padded_right(app.entries[i].tag, TAG_WIDTH as nat) + " "@ + padded_right(
            match app.entries[i].tool_status {
                Some(ToolStatus::Okay) => "ok"@,
                Some(ToolStatus::Failed) => "failed"@,
                Some(ToolStatus::NoResult) => "no-result"@,
                None => ""@,
            },
            STATUS_WIDTH as nat,
        ) + " "@ + app.entries[i].summary,
{
}

/// The details of a call hold what it was given and what its result answered, those of any
/// other entry what it holds, and both the reference of the record.
pub proof fn details_hold_the_record(e: EntryV, confidence: Seq<char>, v: JsonV, r: EventV)
    ensures
        e.tool_status is Some && e.call.payload.get("tool_input"@) == Some(v) ==> has_text(
            detail_of(e, confidence),
            pretty_of(canonical(v)),
        ),
        e.tool_status is Some && e.result == Some(r) && r.payload.get("tool_response"@) == Some(v)
            ==> has_text(detail_of(e, confidence), pretty_of(canonical(v))),
        e.tool_status is None ==> has_text(
            detail_of(e, confidence),
            pretty_of(canonical(e.call.payload)),
        ),
        forall|raw: Seq<char>|
            #![trigger "raw_ref: "@ + raw]
            e.call.raw_event_ref == Some(raw) ==> has_text(
                detail_of(e, confidence),
                "raw_ref: "@ + raw,
            ),
{
    let a = provenance_of(e, confidence);
    let c = outcome_of(e);
    let head = a + reference_of(e) + c + "\n"@;
    if e.tool_status is Some {
        let input = value_under("input:\n"@, e.call.payload.get("tool_input"@));
        let answer = value_under("\nresponse:\n"@, response_of(e));
        if e.call.payload.get("tool_input"@) == Some(v) {
            lemma_value_ahead(head, "input:\n"@, pretty_of(canonical(v)), "\n"@, answer);
        }
        if e.result == Some(r) && r.payload.get("tool_response"@) == Some(v) {
            lemma_value_behind(head, input, "\nresponse:\n"@, pretty_of(canonical(v)), "\n"@);
        }
    } else {
        lemma_value(head, "payload:\n"@, pretty_of(canonical(e.call.payload)), "\n"@);
    }
    assert forall|raw: Seq<char>|
        #![trigger "raw_ref: "@ + raw]
        e.call.raw_event_ref == Some(raw) implies has_text(
        detail_of(e, confidence),
        "raw_ref: "@ + raw,
    ) by {
        lemma_reference(a, "raw_ref: "@ + raw, "\n"@, c, "\n"@, contents_of(e));
    }
}

proof fn lemma_value(head: Seq<char>, h: Seq<char>, t: Seq<char>, n: Seq<char>)
    ensures
        has_text(head + (h + t + n), t),
{
    assert(head + (h + t + n) =~= (head + h) + t + n);
    lemma_text_inside(head + h, t, n);
}

proof fn lemma_value_ahead(
    head: Seq<char>,
    h: Seq<char>,
    t: Seq<char>,
    n: Seq<char>,
    behind: Seq<char>,
)
    ensures
        has_text(head + (h + t + n + behind), t),
{
    assert(head + (h + t + n + behind) =~= (head + h) + t + (n + behind));
    lemma_text_inside(head + h, t, n + behind);
}

proof fn lemma_value_behind(
    head: Seq<char>,
    ahead: Seq<char>,
    h: Seq<char>,
    t: Seq<char>,
    n: Seq<char>,
)
    ensures
        has_text(head + (ahead + (h + t + n)), t),
{
    assert(head + (ahead + (h + t + n)) =~= (head + ahead + h) + t + n);
    lemma_text_inside(head + ahead + h, t, n);
}

proof fn lemma_reference(
    a: Seq<char>,
    t: Seq<char>,
    n: Seq<char>,
    c: Seq<char>,
    m: Seq<char>,
    behind: Seq<char>,
)
    ensures
        has_text(a + (t + n) + c + m + behind, t),
{
    assert(a + (t + n) + c + m + behind =~= a + t + (n + c + m + behind));
    lemma_text_inside(a, t, n + c + m + behind);
}

} // verus!
