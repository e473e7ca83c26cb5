//! Summaries of recorded sessions, and the session that a selector names.
use vstd::prelude::*;

use crate::event::{event_views, AgentEvent, EventKind, EventV, Source};
use crate::liveness::{self, clamped_difference, live, LivenessInputs, DEFAULT_LIVE_WINDOW_MS};
use crate::num::{decimal, decimal_usize, is_digit, is_numeral, numeral_value, parse_nat};
use crate::order::{
    is_order, lemma_sorted_map, own_order, sort, sorted_by, sorted_by_sorts, text_less, text_lt,
    text_lt_total, text_lt_transitive, Ordered,
};
use crate::split::{join, joined};
use crate::store::sort_names;
use crate::text::{
    begins, chars_of, contains_text, has_text, list_has, same, starts_with, strip_prefix, substring,
    views,
};

verus! {

/// A summary of one recorded session.
#[derive(Debug, PartialEq, Eq)]
pub struct SessionSummary {
    /// Session id.
    pub id: String,
    /// Recorded session start, if available.
    pub created_ts: Option<i64>,
    /// Time of the first event, if any.
    pub first_event_ts: Option<i64>,
    /// Time of the last event, if any.
    pub last_event_ts: Option<i64>,
    /// The working directories of the events, each once, in the order in which
    /// they were first seen.
    pub cwds: Vec<String>,
    /// Whether the start of the session was observed. For information only.
    pub has_start: bool,
    /// Whether the last event from the hooks ended a turn.
    pub last_is_stop: bool,
    /// Whether the last event from the hooks ended the session.
    pub last_is_session_end: bool,
    /// The number of events.
    pub event_count: usize,
    /// The number of tool calls.
    pub tool_calls: usize,
}

/// The contents of a [`SessionSummary`].
pub ghost struct SummaryV {
    pub id: Seq<char>,
    pub created_ts: Option<i64>,
    pub first_event_ts: Option<i64>,
    pub last_event_ts: Option<i64>,
    pub cwds: Seq<Seq<char>>,
    pub has_start: bool,
    pub last_is_stop: bool,
    pub last_is_session_end: bool,
    pub event_count: int,
    pub tool_calls: int,
}

impl View for SessionSummary {
    type V = SummaryV;

    open spec fn view(&self) -> SummaryV {
        SummaryV {
            id: self.id@,
            created_ts: self.created_ts,
            first_event_ts: self.first_event_ts,
            last_event_ts: self.last_event_ts,
            cwds: views(self.cwds@),
            has_start: self.has_start,
            last_is_stop: self.last_is_stop,
            last_is_session_end: self.last_is_session_end,
            event_count: self.event_count as int,
            tool_calls: self.tool_calls as int,
        }
    }
}

/// The contents of a list of summaries.
pub open spec fn summary_views(v: Seq<SessionSummary>) -> Seq<SummaryV> {
    Seq::new(v.len(), |i: int| v[i]@)
}

impl SummaryV {
    /// The best start time there is.
    pub open spec fn started(self) -> Option<i64> {
        match self.created_ts {
            Some(t) => Some(t),
            None => self.first_event_ts,
        }
    }

    /// The time that the order by recency goes by.
    pub open spec fn recency(self) -> i64 {
        match self.last_event_ts {
            Some(t) => t,
            None => match self.created_ts {
                Some(t) => t,
                None => 0,
            },
        }
    }

    /// What the liveness rule asks. A session counts as begun whether or not its
    /// start was observed.
    pub open spec fn inputs(self) -> LivenessInputs {
        LivenessInputs {
            has_start: true,
            has_stop: self.last_is_stop || self.last_is_session_end,
            last_event_ts: self.last_event_ts,
        }
    }

    /// Whether the session is live.
    pub open spec fn live_within(self, now_ms: i64, window_ms: i64) -> bool {
        live(self.inputs(), now_ms, window_ms)
    }
}

impl SessionSummary {
    /// The best start time there is: the recorded one, else that of the first
    /// event.
    pub fn started_ms(&self) -> (r: Option<i64>)
        ensures
            r == self@.started(),
    {
        match self.created_ts {
            Some(t) => Some(t),
            None => self.first_event_ts,
        }
    }

    /// The time that the order by recency goes by: that of the last event, else
    /// the recorded start, else zero.
    pub fn recency_ms(&self) -> (r: i64)
        ensures
            r == self@.recency(),
    {
        match self.last_event_ts {
            Some(t) => t,
            None => match self.created_ts {
                Some(t) => t,
                None => 0,
            },
        }
    }

    /// What the liveness rule asks.
    pub fn liveness_inputs(&self) -> (r: LivenessInputs)
        ensures
            r == self@.inputs(),
    {
        LivenessInputs {
            has_start: true,
            has_stop: self.last_is_stop || self.last_is_session_end,
            last_event_ts: self.last_event_ts,
        }
    }

    /// Whether the session is live within the default window.
    pub fn is_live(&self, now_ms: i64) -> (r: bool)
        ensures
            r == self@.live_within(now_ms, DEFAULT_LIVE_WINDOW_MS),
    {
        self.is_live_within(now_ms, DEFAULT_LIVE_WINDOW_MS)
    }

    /// Whether the session is live within a window.
    pub fn is_live_within(&self, now_ms: i64, window_ms: i64) -> (r: bool)
        ensures
            r == self@.live_within(now_ms, window_ms),
    {
        liveness::is_live(self.liveness_inputs(), now_ms, window_ms)
    }
}

// ---------------------------------------------------------------------------
// Summaries
// ---------------------------------------------------------------------------

/// The working directories of the events, each once, in the order in which they
/// were first seen.
pub open spec fn cwds_of(events: Seq<EventV>) -> Seq<Seq<char>>
    decreases events.len(),
{
    if events.len() == 0 {
        Seq::<Seq<char>>::empty()
    } else {
        let before = cwds_of(events.drop_last());
        match events.last().text("cwd"@) {
            Some(cwd) => if before.contains(cwd) {
                before
            } else {
                before.push(cwd)
            },
            None => before,
        }
    }
}

/// The number of events of a kind.
pub open spec fn count_kind(events: Seq<EventV>, kind: EventKind) -> int
    decreases events.len(),
{
    if events.len() == 0 {
        0
    } else {
        count_kind(events.drop_last(), kind) + (if events.last().kind == kind {
            1int
        } else {
            0
        })
    }
}

/// The kind of the last event from the hooks.
pub open spec fn last_hook_kind(events: Seq<EventV>) -> Option<EventKind>
    decreases events.len(),
{
    if events.len() == 0 {
        None
    } else if events.last().source == Source::Hooks {
        Some(events.last().kind)
    } else {
        last_hook_kind(events.drop_last())
    }
}

/// The summary of a session.
pub open spec fn summary_of(
    id: Seq<char>,
    created_ts: Option<i64>,
    events: Seq<EventV>,
) -> SummaryV {
    SummaryV {
        id,
        created_ts,
        first_event_ts: if events.len() > 0 {
            Some(events.first().ts)
        } else {
            None
        },
        last_event_ts: if events.len() > 0 {
            Some(events.last().ts)
        } else {
            None
        },
        cwds: cwds_of(events),
        has_start: count_kind(events, EventKind::SessionStart) > 0,
        last_is_stop: last_hook_kind(events) == Some(EventKind::Stop),
        last_is_session_end: last_hook_kind(events) == Some(EventKind::SessionEnd),
        event_count: events.len() as int,
        tool_calls: count_kind(events, EventKind::ToolCall),
    }
}

/// Counts the tool calls among the first events.
pub fn tool_calls_in(events: &[AgentEvent]) -> (n: usize)
    ensures
        n == count_kind(event_views(events@), EventKind::ToolCall),
        n <= events@.len(),
{
    let ghost ev = event_views(events@);
    let mut n: usize = 0;
    for i in 0..events.len()
        invariant
            ev == event_views(events@),
            n == count_kind(ev.take(i as int), EventKind::ToolCall),
            n <= i,
    {
        proof {
            assert(ev.take(i + 1).drop_last() =~= ev.take(i as int));
            assert(ev.take(i + 1).last() == events@[i as int]@);
        }
        match events[i].kind {
            EventKind::ToolCall => {
                n = n + 1;
            },
            _ => {},
        }
    }
    proof {
        assert(ev.take(ev.len() as int) =~= ev);
    }
    n
}

/// Summarizes one session from its recorded start and its events.
pub fn summarize(id: &str, created_ts: Option<i64>, events: &[AgentEvent]) -> (r: SessionSummary)
    ensures
        r@ == summary_of(id@, created_ts, event_views(events@)),
{
    let ghost ev = event_views(events@);
    let n: usize = events.len();
    let mut cwds: Vec<String> = Vec::new();
    let mut has_start = false;
    let mut last_hook: Option<EventKind> = None;
    proof {
        assert(views(cwds@) =~= cwds_of(ev.take(0)));
    }
    for i in 0..n
        invariant
            n == events@.len(),
            ev == event_views(events@),
            views(cwds@) == cwds_of(ev.take(i as int)),
            has_start == (count_kind(ev.take(i as int), EventKind::SessionStart) > 0),
            count_kind(ev.take(i as int), EventKind::SessionStart) >= 0,
            last_hook == last_hook_kind(ev.take(i as int)),
    {
        proof {
            assert(ev.take(i + 1).drop_last() =~= ev.take(i as int));
            assert(ev.take(i + 1).last() == events@[i as int]@);
        }
        let e = &events[i];
        let ghost cwds0 = cwds@;
        match e.str_field("cwd") {
            Some(cwd) => {
                if !list_has(&cwds, cwd) {
                    cwds.push(cwd.to_owned());
                    proof {
                        assert(views(cwds@) =~= views(cwds0).push(cwd@));
                    }
                }
            },
            None => {},
        }
        match e.kind {
            EventKind::SessionStart => {
                has_start = true;
            },
            _ => {},
        }
        match e.source {
            Source::Hooks => {
                last_hook = Some(e.kind);
            },
            Source::Transcript => {},
        }
    }
    proof {
        assert(ev.take(ev.len() as int) =~= ev);
    }
    let first_event_ts: Option<i64> = if n > 0 {
        Some(events[0].ts)
    } else {
        None
    };
    let last_event_ts: Option<i64> = if n > 0 {
        Some(events[n - 1].ts)
    } else {
        None
    };
    let last_is_stop = match last_hook {
        Some(EventKind::Stop) => true,
        _ => false,
    };
    let last_is_session_end = match last_hook {
        Some(EventKind::SessionEnd) => true,
        _ => false,
    };
    SessionSummary {
        id: id.to_owned(),
        created_ts,
        first_event_ts,
        last_event_ts,
        cwds,
        has_start,
        last_is_stop,
        last_is_session_end,
        event_count: n,
        tool_calls: tool_calls_in(events),
    }
}

/// What the store holds of one session.
#[derive(Debug)]
pub struct RecordedSession {
    /// Session id.
    pub id: String,
    /// Recorded session start, if available.
    pub created_ts: Option<i64>,
    /// The events, in file order.
    pub events: Vec<AgentEvent>,
    /// The number of lines that could not be read.
    pub skipped_lines: usize,
}

/// The contents of a [`RecordedSession`].
pub ghost struct RecordedV {
    pub id: Seq<char>,
    pub created_ts: Option<i64>,
    pub events: Seq<EventV>,
    pub skipped_lines: int,
}

impl View for RecordedSession {
    type V = RecordedV;

    open spec fn view(&self) -> RecordedV {
        RecordedV {
            id: self.id@,
            created_ts: self.created_ts,
            events: event_views(self.events@),
            skipped_lines: self.skipped_lines as int,
        }
    }
}

impl RecordedV {
    /// The summary of the session.
    pub open spec fn summary(self) -> SummaryV {
        summary_of(self.id, self.created_ts, self.events)
    }
}

/// The contents of a list of recorded sessions.
pub open spec fn recorded_views(v: Seq<RecordedSession>) -> Seq<RecordedV> {
    Seq::new(v.len(), |i: int| v[i]@)
}

/// The summaries of recorded sessions, in order.
pub open spec fn summaries_of(rs: Seq<RecordedV>) -> Seq<SummaryV> {
    Seq::new(rs.len(), |i: int| rs[i].summary())
}

/// Summarizes each recorded session.
pub fn collect_summaries(sessions: &[RecordedSession]) -> (out: Vec<SessionSummary>)
    ensures
        summary_views(out@) == summaries_of(recorded_views(sessions@)),
{
    let mut out: Vec<SessionSummary> = Vec::new();
    for i in 0..sessions.len()
        invariant
            out@.len() == i,
            forall|k: int|
                0 <= k < i ==> (#[trigger] out@[k])@ == sessions@[k]@.summary(),
    {
        let s = &sessions[i];
        out.push(summarize(s.id.as_str(), s.created_ts, s.events.as_slice()));
    }
    proof {
        assert(summary_views(out@) =~= summaries_of(recorded_views(sessions@)));
    }
    out
}

// ---------------------------------------------------------------------------
// The order by recency
// ---------------------------------------------------------------------------

/// Whether `a` stands before `b` in the order by recency: the more recent first,
/// and of two of one time the one with the smaller id.
pub open spec fn more_recent(a: SummaryV, b: SummaryV) -> bool {
    a.recency() > b.recency() || (a.recency() == b.recency() && text_lt(a.id, b.id))
}

/// The sessions, the most recent first.
pub open spec fn by_recency(ss: Seq<SummaryV>) -> Seq<SummaryV> {
    sorted_by(ss, |a: SummaryV, b: SummaryV| more_recent(a, b))
}

/// A session in the order by recency.
pub struct Ranked<'a> {
    /// The session.
    pub summary: &'a SessionSummary,
}

impl<'a> Ordered for Ranked<'a> {
    open spec fn before(a: Self, b: Self) -> bool {
        more_recent(a.summary@, b.summary@)
    }

    fn comes_before(&self, other: &Self) -> (r: bool) {
        let a: i64 = self.summary.recency_ms();
        let b: i64 = other.summary.recency_ms();
        a > b || (a == b && text_less(self.summary.id.as_str(), other.summary.id.as_str()))
    }
}

/// The contents of sessions in the order by recency.
pub open spec fn ranked_views(v: Seq<Ranked<'_>>) -> Seq<SummaryV> {
    v.map_values(|x: Ranked<'_>| x.summary@)
}

/// Puts the most recent session first.
pub fn by_recency_desc<'a>(summaries: &'a [SessionSummary]) -> (out: Vec<Ranked<'a>>)
    ensures
        ranked_views(out@) == by_recency(summary_views(summaries@)),
        out@.len() == summaries@.len(),
{
    let mut all: Vec<Ranked<'a>> = Vec::new();
    for i in 0..summaries.len()
        invariant
            all@.len() == i,
            forall|k: int| 0 <= k < i ==> *(#[trigger] all@[k]).summary == summaries@[k],
    {
        all.push(Ranked { summary: &summaries[i] });
    }
    proof {
        let f = |x: Ranked<'_>| x.summary@;
        let lt2 = |a: SummaryV, b: SummaryV| more_recent(a, b);
        assert(all@.map_values(f) =~= summary_views(summaries@));
        lemma_sorted_map(all@, f, own_order::<Ranked<'a>>(), lt2);
        crate::order::lemma_sorted_len(all@, own_order::<Ranked<'a>>());
    }
    sort(all)
}

// ---------------------------------------------------------------------------
// Selectors
// ---------------------------------------------------------------------------

/// The session that a selector names.
#[derive(Debug, Clone, PartialEq, Eq)]
pub struct Resolution {
    /// The session id.
    pub session_id: String,
    /// Whether no session belongs to the current directory, and the most recent
    /// of all was taken.
    pub cwd_fallback: bool,
}

/// The contents of a [`Resolution`].
pub ghost struct ResolutionV {
    pub session_id: Seq<char>,
    pub cwd_fallback: bool,
}

impl View for Resolution {
    type V = ResolutionV;

    open spec fn view(&self) -> ResolutionV {
        ResolutionV { session_id: self.session_id@, cwd_fallback: self.cwd_fallback }
    }
}

/// Why a selector names no session.
#[derive(Debug, Clone, PartialEq, Eq)]
pub enum SelectorError {
    /// No sessions are recorded.
    NoSessions,
    /// No session matches.
    NoMatch {
        /// The selector.
        selector: String,
    },
    /// An id prefix matches more than one session.
    AmbiguousPrefix {
        /// The prefix.
        prefix: String,
        /// The ids that match, in order.
        candidates: Vec<String>,
    },
    /// An ordinal points past the sessions.
    OutOfRange {
        /// The selector.
        selector: String,
        /// How many sessions there are to choose from.
        available: usize,
    },
    /// The selector is not well formed.
    InvalidSelector(String),
}

/// The contents of a [`SelectorError`].
pub ghost enum SelectorErrorV {
    NoSessions,
    NoMatch { selector: Seq<char> },
    AmbiguousPrefix { prefix: Seq<char>, candidates: Seq<Seq<char>> },
    OutOfRange { selector: Seq<char>, available: int },
    InvalidSelector(Seq<char>),
}

impl View for SelectorError {
    type V = SelectorErrorV;

    open spec fn view(&self) -> SelectorErrorV {
        match self {
            SelectorError::NoSessions => SelectorErrorV::NoSessions,
            SelectorError::NoMatch { selector } => SelectorErrorV::NoMatch { selector: selector@ },
            SelectorError::AmbiguousPrefix { prefix, candidates } => {
                SelectorErrorV::AmbiguousPrefix {
                    prefix: prefix@,
                    candidates: views(candidates@),
                }
            },
            SelectorError::OutOfRange { selector, available } => SelectorErrorV::OutOfRange {
                selector: selector@,
                available: *available as int,
            },
            SelectorError::InvalidSelector(s) => SelectorErrorV::InvalidSelector(s@),
        }
    }
}

impl SelectorErrorV {
    /// What the error says.
    pub open spec fn message(self) -> Seq<char> {
        match self {
            SelectorErrorV::NoSessions => "no sessions recorded yet"@,
            SelectorErrorV::NoMatch { selector } => "no session matches selector `"@ + selector
                + "`"@,
            SelectorErrorV::AmbiguousPrefix { prefix, candidates } => {
                "ambiguous session prefix `"@ + prefix + "`; candidates: "@ + joined(
                    candidates,
                    ", "@,
                )
            },
            SelectorErrorV::OutOfRange { selector, available } => "selector `"@ + selector
                + "` is out of range ("@ + decimal(available as nat) + " session(s) available)"@,
            SelectorErrorV::InvalidSelector(s) => "invalid selector `"@ + s + "`"@,
        }
    }
}

impl SelectorError {
    /// What the error says.
    pub fn message(&self) -> (r: String)
        ensures
            r@ == self@.message(),
    {
        match self {
            SelectorError::NoSessions => "no sessions recorded yet".to_owned(),
            SelectorError::NoMatch { selector } => "no session matches selector `".to_owned()
                .concat(selector.as_str()).concat("`"),
            SelectorError::AmbiguousPrefix { prefix, candidates } => {
                "ambiguous session prefix `".to_owned().concat(prefix.as_str()).concat(
                    "`; candidates: ",
                ).concat(join(candidates, ", ").as_str())
            },
            SelectorError::OutOfRange { selector, available } => "selector `".to_owned().concat(
                selector.as_str(),
            ).concat("` is out of range (").concat(decimal_usize(*available).as_str()).concat(
                " session(s) available)",
            ),
            SelectorError::InvalidSelector(s) => "invalid selector `".to_owned().concat(
                s.as_str(),
            ).concat("`"),
        }
    }
}

/// Whether `child` is nested under `ancestor`, component by component.
pub open spec fn nested(child: Seq<char>, ancestor: Seq<char>) -> bool {
    if ancestor == "/"@ {
        child.len() > 1 && child[0] == '/'
    } else {
        begins(child, ancestor) && child.len() > ancestor.len() && child[ancestor.len() as int]
            == '/'
    }
}

/// Whether a session recorded at `cwd` belongs to the project at `current`: the
/// same directory, or one nested within the other.
pub open spec fn belongs(current: Seq<char>, cwd: Seq<char>) -> bool {
    current == cwd || nested(current, cwd) || nested(cwd, current)
}

/// Whether some working directory of a session belongs to the project at
/// `current`.
pub open spec fn belongs_to(s: SummaryV, current: Seq<char>) -> bool {
    exists|i: int| 0 <= i < s.cwds.len() && belongs(current, #[trigger] s.cwds[i])
}

/// Whether some working directory of a session has `sub` in it.
pub open spec fn cwd_has(s: SummaryV, sub: Seq<char>) -> bool {
    exists|i: int| 0 <= i < s.cwds.len() && has_text(#[trigger] s.cwds[i], sub)
}

/// The first item with a property.
pub open spec fn first_where<A>(s: Seq<A>, p: spec_fn(A) -> bool) -> Option<A>
    decreases s.len(),
{
    if s.len() == 0 {
        None
    } else if p(s[0]) {
        Some(s[0])
    } else {
        first_where(s.skip(1), p)
    }
}

/// The items with a property, in order.
pub open spec fn all_where<A>(s: Seq<A>, p: spec_fn(A) -> bool) -> Seq<A>
    decreases s.len(),
{
    if s.len() == 0 {
        s
    } else if p(s.last()) {
        all_where(s.drop_last(), p).push(s.last())
    } else {
        all_where(s.drop_last(), p)
    }
}

/// The ordinal that `s` writes: digits alone, and not zero.
pub open spec fn ordinal_of(s: Seq<char>) -> Option<int> {
    if is_numeral(s) && 1 <= numeral_value(s) <= usize::MAX {
        Some(numeral_value(s))
    } else {
        None
    }
}

/// `s` without the at signs at its beginning.
pub open spec fn without_ats(s: Seq<char>) -> Seq<char>
    decreases s.len(),
{
    if s.len() > 0 && s[0] == '@' {
        without_ats(s.skip(1))
    } else {
        s
    }
}

/// A session that was chosen.
pub open spec fn chosen(s: SummaryV) -> Result<ResolutionV, SelectorErrorV> {
    Ok(ResolutionV { session_id: s.id, cwd_fallback: false })
}

/// What no selector names: the most recent session of the current directory, or
/// else the most recent of all.
pub open spec fn resolved_default(ss: Seq<SummaryV>, cwd: Seq<char>) -> ResolutionV {
    let ordered = by_recency(ss);
    match first_where(ordered, |s: SummaryV| belongs_to(s, cwd)) {
        Some(s) => ResolutionV { session_id: s.id, cwd_fallback: false },
        None => ResolutionV { session_id: ordered[0].id, cwd_fallback: true },
    }
}

/// What `@project:` and `sub` name.
pub open spec fn resolved_project(
    ss: Seq<SummaryV>,
    selector: Seq<char>,
    sub: Seq<char>,
) -> Result<ResolutionV, SelectorErrorV> {
    if sub.len() == 0 {
        Err(SelectorErrorV::InvalidSelector(selector))
    } else {
        match first_where(by_recency(ss), |s: SummaryV| cwd_has(s, sub)) {
            Some(s) => chosen(s),
            None => Err(SelectorErrorV::NoMatch { selector }),
        }
    }
}

/// The live sessions, the most recent first.
pub open spec fn live_by_recency(ss: Seq<SummaryV>, now_ms: i64) -> Seq<SummaryV> {
    all_where(
        by_recency(ss),
        |s: SummaryV| s.live_within(now_ms, DEFAULT_LIVE_WINDOW_MS),
    )
}

/// What `@live:` and an ordinal name.
pub open spec fn resolved_live(
    ss: Seq<SummaryV>,
    selector: Seq<char>,
    n: Seq<char>,
    now_ms: i64,
) -> Result<ResolutionV, SelectorErrorV> {
    let alive = live_by_recency(ss, now_ms);
    match ordinal_of(n) {
        None => Err(SelectorErrorV::InvalidSelector(selector)),
        Some(k) => if k <= alive.len() {
            chosen(alive[k - 1])
        } else if alive.len() == 0 {
            Err(SelectorErrorV::NoMatch { selector })
        } else {
            Err(SelectorErrorV::OutOfRange { selector, available: alive.len() as int })
        },
    }
}

/// What a selector with an at sign names.
pub open spec fn resolved_at(ss: Seq<SummaryV>, selector: Seq<char>, now_ms: i64) -> Result<
    ResolutionV,
    SelectorErrorV,
> {
    let ordered = by_recency(ss);
    if selector == "@last"@ {
        chosen(ordered[0])
    } else if begins(selector, "@project:"@) {
        resolved_project(ss, selector, selector.skip("@project:"@.len() as int))
    } else if begins(selector, "@live:"@) {
        resolved_live(ss, selector, selector.skip("@live:"@.len() as int), now_ms)
    } else {
        match ordinal_of(without_ats(selector)) {
            None => Err(SelectorErrorV::InvalidSelector(selector)),
            Some(k) => if k <= ordered.len() {
                chosen(ordered[k - 1])
            } else {
                Err(SelectorErrorV::OutOfRange { selector, available: ordered.len() as int })
            },
        }
    }
}

/// The ids of the sessions.
pub open spec fn ids_of(ss: Seq<SummaryV>) -> Seq<Seq<char>> {
    Seq::new(ss.len(), |i: int| ss[i].id)
}

/// The ids that begin with `prefix`, in the order of the list.
pub open spec fn ids_with_prefix(ss: Seq<SummaryV>, prefix: Seq<char>) -> Seq<Seq<char>>
    decreases ss.len(),
{
    if ss.len() == 0 {
        Seq::<Seq<char>>::empty()
    } else if begins(ss.last().id, prefix) {
        ids_with_prefix(ss.drop_last(), prefix).push(ss.last().id)
    } else {
        ids_with_prefix(ss.drop_last(), prefix)
    }
}

/// What an id or a prefix of an id names.
pub open spec fn resolved_prefix(ss: Seq<SummaryV>, prefix: Seq<char>) -> Result<
    ResolutionV,
    SelectorErrorV,
> {
    let candidates = ids_with_prefix(ss, prefix);
    if ids_of(ss).contains(prefix) {
        Ok(ResolutionV { session_id: prefix, cwd_fallback: false })
    } else if candidates.len() == 0 {
        Err(SelectorErrorV::NoMatch { selector: prefix })
    } else if candidates.len() == 1 {
        Ok(ResolutionV { session_id: candidates[0], cwd_fallback: false })
    } else {
        Err(
            SelectorErrorV::AmbiguousPrefix {
                prefix,
                candidates: sorted_by(candidates, |a: Seq<char>, b: Seq<char>| text_lt(a, b)),
            },
        )
    }
}

/// What a selector names, or no selector.
pub open spec fn resolved(
    ss: Seq<SummaryV>,
    selector: Option<Seq<char>>,
    cwd: Seq<char>,
    now_ms: i64,
) -> Result<ResolutionV, SelectorErrorV> {
    if ss.len() == 0 {
        Err(SelectorErrorV::NoSessions)
    } else {
        match selector {
            None => Ok(resolved_default(ss, cwd)),
            Some(s) => if begins(s, "@"@) {
                resolved_at(ss, s, now_ms)
            } else {
                resolved_prefix(ss, s)
            },
        }
    }
}

fn is_descendant(child: &str, ancestor: &str) -> (r: bool)
    ensures
        r == nested(child@, ancestor@),
{
    let c = chars_of(child);
    if same(ancestor, "/") {
        return c.len() > 1 && c[0] == '/';
    }
    let n: usize = chars_of(ancestor).len();
    starts_with(child, ancestor) && c.len() > n && c[n] == '/'
}

fn path_belongs(current: &str, session_cwd: &str) -> (r: bool)
    ensures
        r == belongs(current@, session_cwd@),
{
    same(current, session_cwd) || is_descendant(current, session_cwd) || is_descendant(
        session_cwd,
        current,
    )
}

fn session_belongs(s: &SessionSummary, current: &str) -> (r: bool)
    ensures
        r == belongs_to(s@, current@),
{
    for i in 0..s.cwds.len()
        invariant
            forall|k: int| 0 <= k < i ==> !belongs(current@, #[trigger] s@.cwds[k]),
    {
        proof {
            assert(s@.cwds[i as int] == s.cwds@[i as int]@);
        }
        if path_belongs(current, s.cwds[i].as_str()) {
            return true;
        }
    }
    false
}

fn session_cwd_has(s: &SessionSummary, sub: &str) -> (r: bool)
    ensures
        r == cwd_has(s@, sub@),
{
    for i in 0..s.cwds.len()
        invariant
            forall|k: int| 0 <= k < i ==> !has_text(#[trigger] s@.cwds[k], sub@),
    {
        proof {
            assert(s@.cwds[i as int] == s.cwds@[i as int]@);
        }
        if contains_text(s.cwds[i].as_str(), sub) {
            return true;
        }
    }
    false
}

fn resolve_default(summaries: &[SessionSummary], cwd: &str) -> (r: Resolution)
    requires
        summaries@.len() > 0,
    ensures
        r@ == resolved_default(summary_views(summaries@), cwd@),
{
    let ordered = by_recency_desc(summaries);
    let ghost all = ranked_views(ordered@);
    let ghost p = |s: SummaryV| belongs_to(s, cwd@);
    let n: usize = ordered.len();
    proof {
        assert(all.skip(0) =~= all);
    }
    for i in 0..n
        invariant
            n == ordered@.len(),
            all == ranked_views(ordered@),
            p == (|s: SummaryV| belongs_to(s, cwd@)),
            all == by_recency(summary_views(summaries@)),
            first_where(all, p) == first_where(all.skip(i as int), p),
    {
        proof {
            assert(all.skip(i as int)[0] == ordered@[i as int].summary@);
            assert(all.skip(i as int).skip(1) =~= all.skip(i + 1));
        }
        if session_belongs(ordered[i].summary, cwd) {
            return Resolution {
                session_id: ordered[i].summary.id.clone(),
                cwd_fallback: false,
            };
        }
    }
    proof {
        assert(all[0] == ordered@[0].summary@);
    }
    Resolution { session_id: ordered[0].summary.id.clone(), cwd_fallback: true }
}

/// What the contents of a result are.
pub open spec fn result_view(r: Result<Resolution, SelectorError>) -> Result<
    ResolutionV,
    SelectorErrorV,
> {
    match r {
        Ok(x) => Ok(x@),
        Err(e) => Err(e@),
    }
}

fn resolve_project(summaries: &[SessionSummary], selector: &str, sub: &str) -> (r: Result<
    Resolution,
    SelectorError,
>)
    ensures
        result_view(r) == resolved_project(summary_views(summaries@), selector@, sub@),
{
    if sub.is_empty() {
        return Err(SelectorError::InvalidSelector(selector.to_owned()));
    }
    let ordered = by_recency_desc(summaries);
    let ghost all = ranked_views(ordered@);
    let ghost p = |s: SummaryV| cwd_has(s, sub@);
    let n: usize = ordered.len();
    proof {
        assert(all.skip(0) =~= all);
    }
    for i in 0..n
        invariant
            n == ordered@.len(),
            all == ranked_views(ordered@),
            p == (|s: SummaryV| cwd_has(s, sub@)),
            all == by_recency(summary_views(summaries@)),
            sub@.len() > 0,
            first_where(all, p) == first_where(all.skip(i as int), p),
    {
        proof {
            assert(all.skip(i as int)[0] == ordered@[i as int].summary@);
            assert(all.skip(i as int).skip(1) =~= all.skip(i + 1));
        }
        if session_cwd_has(ordered[i].summary, sub) {
            return Ok(
                Resolution {
                    session_id: ordered[i].summary.id.clone(),
                    cwd_fallback: false,
                },
            );
        }
    }
    Err(SelectorError::NoMatch { selector: selector.to_owned() })
}

fn parse_ordinal(s: &str) -> (r: Option<usize>)
    ensures
        match r {
            Some(n) => ordinal_of(s@) == Some(n as int),
            None => ordinal_of(s@) is None,
        },
{
    let v = chars_of(s);
    if v.len() == 0 || !('0' <= v[0] && v[0] <= '9') {
        proof {
            if is_numeral(s@) {
                assert(is_digit(s@[0]));
            }
        }
        return None;
    }
    match parse_nat(s, usize::MAX as u64) {
        Some(n) => if n >= 1 {
            Some(n as usize)
        } else {
            None
        },
        None => None,
    }
}

fn resolve_live(summaries: &[SessionSummary], selector: &str, n: &str, now_ms: i64) -> (r: Result<
    Resolution,
    SelectorError,
>)
    ensures
        result_view(r) == resolved_live(summary_views(summaries@), selector@, n@, now_ms),
{
    let index: usize = match parse_ordinal(n) {
        Some(k) => k,
        None => {
            return Err(SelectorError::InvalidSelector(selector.to_owned()));
        },
    };
    let ordered = by_recency_desc(summaries);
    let ghost all = ranked_views(ordered@);
    let ghost p = |s: SummaryV| s.live_within(now_ms, DEFAULT_LIVE_WINDOW_MS);
    let mut alive: Vec<&SessionSummary> = Vec::new();
    let ghost mut av: Seq<SummaryV> = Seq::empty();
    proof {
        assert(av =~= all_where(all.take(0), p));
    }
    for i in 0..ordered.len()
        invariant
            all == ranked_views(ordered@),
            p == (|s: SummaryV| s.live_within(now_ms, DEFAULT_LIVE_WINDOW_MS)),
            av == all_where(all.take(i as int), p),
            av.len() == alive@.len(),
            forall|k: int| 0 <= k < av.len() ==> #[trigger] av[k] == alive@[k]@,
    {
        proof {
            assert(all.take(i + 1).drop_last() =~= all.take(i as int));
            assert(all.take(i + 1).last() == ordered@[i as int].summary@);
        }
        if ordered[i].summary.is_live(now_ms) {
            alive.push(ordered[i].summary);
            proof {
                av = av.push(ordered@[i as int].summary@);
            }
        }
    }
    proof {
        assert(all.take(all.len() as int) =~= all);
        assert(av == live_by_recency(summary_views(summaries@), now_ms));
    }
    if index <= alive.len() {
        proof {
            assert(av[index - 1] == alive@[index - 1]@);
        }
        Ok(Resolution { session_id: alive[index - 1].id.clone(), cwd_fallback: false })
    } else if alive.len() == 0 {
        Err(SelectorError::NoMatch { selector: selector.to_owned() })
    } else {
        Err(SelectorError::OutOfRange { selector: selector.to_owned(), available: alive.len() })
    }
}

fn strip_ats(s: &str) -> (out: String)
    ensures
        out@ == without_ats(s@),
{
    let v = chars_of(s);
    let mut k: usize = 0;
    proof {
        assert(s@.skip(0) =~= s@);
    }
    while k < v.len() && v[k] == '@'
        invariant
            v@ == s@,
            k <= v@.len(),
            without_ats(s@) == without_ats(s@.skip(k as int)),
        decreases v@.len() - k,
    {
        proof {
            assert(s@.skip(k as int)[0] == s@[k as int]);
            assert(s@.skip(k as int).skip(1) =~= s@.skip(k + 1));
        }
        k = k + 1;
    }
    let out = substring(&v, k, v.len());
    proof {
        assert(out@ =~= s@.skip(k as int));
        if k < v@.len() {
            assert(s@.skip(k as int)[0] == s@[k as int]);
        }
    }
    out
}

fn resolve_at(summaries: &[SessionSummary], selector: &str, now_ms: i64) -> (r: Result<
    Resolution,
    SelectorError,
>)
    requires
        summaries@.len() > 0,
    ensures
        result_view(r) == resolved_at(summary_views(summaries@), selector@, now_ms),
{
    if same(selector, "@last") {
        let ordered = by_recency_desc(summaries);
        proof {
            assert(ranked_views(ordered@)[0] == ordered@[0].summary@);
        }
        return Ok(
            Resolution { session_id: ordered[0].summary.id.clone(), cwd_fallback: false },
        );
    }
    match strip_prefix(selector, "@project:") {
        Some(sub) => {
            return resolve_project(summaries, selector, sub.as_str());
        },
        None => {},
    }
    match strip_prefix(selector, "@live:") {
        Some(n) => {
            return resolve_live(summaries, selector, n.as_str(), now_ms);
        },
        None => {},
    }
    let ordinal = strip_ats(selector);
    match parse_ordinal(ordinal.as_str()) {
        Some(k) => {
            let ordered = by_recency_desc(summaries);
            if k <= ordered.len() {
                proof {
                    assert(ranked_views(ordered@)[k - 1] == ordered@[k - 1].summary@);
                }
                Ok(
                    Resolution {
                        session_id: ordered[k - 1].summary.id.clone(),
                        cwd_fallback: false,
                    },
                )
            } else {
                Err(
                    SelectorError::OutOfRange {
                        selector: selector.to_owned(),
                        available: ordered.len(),
                    },
                )
            }
        },
        None => Err(SelectorError::InvalidSelector(selector.to_owned())),
    }
}

fn resolve_prefix(summaries: &[SessionSummary], prefix: &str) -> (r: Result<
    Resolution,
    SelectorError,
>)
    ensures
        result_view(r) == resolved_prefix(summary_views(summaries@), prefix@),
{
    let ghost ss = summary_views(summaries@);
    let mut candidates: Vec<String> = Vec::new();
    let mut exact = false;
    proof {
        assert(views(candidates@) =~= ids_with_prefix(ss.take(0), prefix@));
    }
    for i in 0..summaries.len()
        invariant
            ss == summary_views(summaries@),
            views(candidates@) == ids_with_prefix(ss.take(i as int), prefix@),
            exact == exists|k: int| 0 <= k < i && #[trigger] ids_of(ss)[k] == prefix@,
    {
        proof {
            assert(ss.take(i + 1).drop_last() =~= ss.take(i as int));
            assert(ss.take(i + 1).last() == summaries@[i as int]@);
            assert(ids_of(ss)[i as int] == summaries@[i as int].id@);
        }
        let id = summaries[i].id.as_str();
        let ghost c0 = candidates@;
        if same(id, prefix) {
            exact = true;
        }
        if starts_with(id, prefix) {
            candidates.push(id.to_owned());
            proof {
                assert(views(candidates@) =~= views(c0).push(id@));
            }
        }
    }
    proof {
        assert(ss.take(ss.len() as int) =~= ss);
        assert(exact == ids_of(ss).contains(prefix@));
        assert(views(candidates@).len() == candidates@.len());
    }
    if exact {
        return Ok(Resolution { session_id: prefix.to_owned(), cwd_fallback: false });
    }
    if candidates.len() == 0 {
        return Err(SelectorError::NoMatch { selector: prefix.to_owned() });
    }
    if candidates.len() == 1 {
        proof {
            assert(views(candidates@)[0] == candidates@[0]@);
        }
        return Ok(Resolution { session_id: candidates[0].clone(), cwd_fallback: false });
    }
    Err(
        SelectorError::AmbiguousPrefix {
            prefix: prefix.to_owned(),
            candidates: sort_names(candidates),
        },
    )
}

/// The session that a selector names.
///
/// - none: the most recent session that belongs to `cwd`; if there is none, the
///   most recent of all, and the fallback is told;
/// - `@last`: the most recent session;
/// - `@N`: the N-th most recent session;
/// - `@project:<substring>`: the most recent session with a working directory
///   that has the substring;
/// - `@live:<n>`: the n-th most recent live session;
/// - else the one session whose id begins so.
pub fn resolve(
    summaries: &[SessionSummary],
    selector: Option<&str>,
    cwd: &str,
    now_ms: i64,
) -> (r: Result<Resolution, SelectorError>)
    ensures
        result_view(r) == resolved(
            summary_views(summaries@),
            match selector {
                Some(s) => Some(s@),
                None => None,
            },
            cwd@,
            now_ms,
        ),
{
    if summaries.len() == 0 {
        return Err(SelectorError::NoSessions);
    }
    match selector {
        None => Ok(resolve_default(summaries, cwd)),
        Some(s) => if starts_with(s, "@") {
            resolve_at(summaries, s, now_ms)
        } else {
            resolve_prefix(summaries, s)
        },
    }
}

// ---------------------------------------------------------------------------
// Laws
// ---------------------------------------------------------------------------

/// The order by recency is an order.
pub proof fn recency_is_an_order()
    ensures
        is_order(|a: SummaryV, b: SummaryV| more_recent(a, b)),
{
    let lt = |a: SummaryV, b: SummaryV| more_recent(a, b);
    assert forall|a: SummaryV| !#[trigger] lt(a, a) by {
        text_lt_total(a.id, a.id);
    }
    assert forall|a: SummaryV, b: SummaryV| #[trigger] lt(a, b) implies !lt(b, a) by {
        text_lt_total(a.id, b.id);
    }
    assert forall|a: SummaryV, b: SummaryV, c: SummaryV| #[trigger]
        lt(a, b) && !lt(c, b) implies #[trigger] lt(a, c) by {
        text_lt_total(b.id, c.id);
        if a.recency() == b.recency() && b.recency() == c.recency() {
            if text_lt(b.id, c.id) {
                text_lt_transitive(a.id, b.id, c.id);
            }
        }
    }
}

/// The order by recency keeps every session, and puts none before a more recent
/// one.
pub proof fn recency_order_keeps_sessions(ss: Seq<SummaryV>)
    ensures
        by_recency(ss).to_multiset() =~= ss.to_multiset(),
        by_recency(ss).len() == ss.len(),
        forall|i: int, j: int|
            0 <= i < j < ss.len() ==> (#[trigger] by_recency(ss)[i]).recency() >= (
            #[trigger] by_recency(ss)[j]).recency(),
{
    recency_is_an_order();
    sorted_by_sorts(ss, |a: SummaryV, b: SummaryV| more_recent(a, b));
}

proof fn lemma_ordered_contains(ss: Seq<SummaryV>, k: int)
    requires
        0 <= k < ss.len(),
    ensures
        ss.contains(by_recency(ss)[k]),
{
    broadcast use vstd::seq_lib::group_to_multiset_ensures;

    recency_order_keeps_sessions(ss);
    let o = by_recency(ss);
    assert(o.contains(o[k]));
    assert(o.to_multiset().count(o[k]) > 0);
    assert(ss.to_multiset().count(o[k]) > 0);
}

proof fn lemma_first_where<A>(s: Seq<A>, p: spec_fn(A) -> bool)
    ensures
        match first_where(s, p) {
            Some(x) => s.contains(x) && p(x),
            None => forall|i: int| 0 <= i < s.len() ==> !p(#[trigger] s[i]),
        },
    decreases s.len(),
{
    if s.len() > 0 {
        if p(s[0]) {
            assert(s.contains(s[0]));
        } else {
            let t = s.skip(1);
            lemma_first_where(t, p);
            match first_where(t, p) {
                Some(x) => {
                    let i = choose|i: int| 0 <= i < t.len() && t[i] == x;
                    assert(s[i + 1] == x);
                },
                None => {
                    assert forall|i: int| 0 <= i < s.len() implies !p(#[trigger] s[i]) by {
                        if i > 0 {
                            assert(t[i - 1] == s[i]);
                        }
                    }
                },
            }
        }
    }
}

proof fn lemma_all_where<A>(s: Seq<A>, p: spec_fn(A) -> bool)
    ensures
        forall|i: int|
            0 <= i < all_where(s, p).len() ==> s.contains(#[trigger] all_where(s, p)[i]) && p(
                all_where(s, p)[i],
            ),
    decreases s.len(),
{
    if s.len() > 0 {
        let t = s.drop_last();
        lemma_all_where(t, p);
        let o = all_where(s, p);
        let q = all_where(t, p);
        assert forall|i: int| 0 <= i < o.len() implies s.contains(#[trigger] o[i]) && p(o[i]) by {
            if i < q.len() {
                assert(o[i] == q[i]);
                let j = choose|j: int| 0 <= j < t.len() && t[j] == q[i];
                assert(s[j] == o[i]);
            } else {
                assert(s[s.len() - 1] == o[i]);
            }
        }
    }
}

proof fn lemma_prefix_ids(ss: Seq<SummaryV>, prefix: Seq<char>)
    ensures
        forall|i: int|
            0 <= i < ids_with_prefix(ss, prefix).len() ==> ids_of(ss).contains(
                #[trigger] ids_with_prefix(ss, prefix)[i],
            ) && begins(ids_with_prefix(ss, prefix)[i], prefix),
    decreases ss.len(),
{
    if ss.len() > 0 {
        let t = ss.drop_last();
        lemma_prefix_ids(t, prefix);
        let o = ids_with_prefix(ss, prefix);
        let q = ids_with_prefix(t, prefix);
        assert forall|i: int| 0 <= i < o.len() implies ids_of(ss).contains(#[trigger] o[i])
            && begins(o[i], prefix) by {
            if i < q.len() {
                assert(o[i] == q[i]);
                let j = choose|j: int| 0 <= j < ids_of(t).len() && ids_of(t)[j] == q[i];
                assert(ids_of(ss)[j] == o[i]);
            } else {
                assert(ids_of(ss)[ss.len() - 1] == o[i]);
            }
        }
    }
}

proof fn lemma_chosen_is_recorded(ss: Seq<SummaryV>, s: SummaryV)
    requires
        by_recency(ss).contains(s),
    ensures
        ids_of(ss).contains(s.id),
{
    recency_order_keeps_sessions(ss);
    let o = by_recency(ss);
    let k = choose|k: int| 0 <= k < o.len() && o[k] == s;
    lemma_ordered_contains(ss, k);
    let j = choose|j: int| 0 <= j < ss.len() && ss[j] == s;
    assert(ids_of(ss)[j] == s.id);
}

/// A selector never names a session that is not recorded.
pub proof fn only_recorded_sessions_are_named(
    ss: Seq<SummaryV>,
    selector: Option<Seq<char>>,
    cwd: Seq<char>,
    now_ms: i64,
)
    ensures
        resolved(ss, selector, cwd, now_ms) matches Ok(r) ==> ids_of(ss).contains(r.session_id),
{
    if ss.len() > 0 {
        recency_order_keeps_sessions(ss);
        let o = by_recency(ss);
        assert(o.contains(o[0]));
        lemma_chosen_is_recorded(ss, o[0]);
        match selector {
            None => {
                let p = |s: SummaryV| belongs_to(s, cwd);
                lemma_first_where(o, p);
                match first_where(o, p) {
                    Some(s) => {
                        lemma_chosen_is_recorded(ss, s);
                    },
                    None => {},
                }
            },
            Some(s) => {
                lemma_prefix_ids(ss, s);
                let sub = s.skip("@project:"@.len() as int);
                let p = |x: SummaryV| cwd_has(x, sub);
                lemma_first_where(o, p);
                match first_where(o, p) {
                    Some(x) => {
                        lemma_chosen_is_recorded(ss, x);
                    },
                    None => {},
                }
                let q = |x: SummaryV| x.live_within(now_ms, DEFAULT_LIVE_WINDOW_MS);
                lemma_all_where(o, q);
                let alive = live_by_recency(ss, now_ms);
                assert forall|k: int| 0 <= k < alive.len() implies ids_of(ss).contains(
                    (#[trigger] alive[k]).id,
                ) by {
                    lemma_chosen_is_recorded(ss, alive[k]);
                }
                assert forall|k: int| 0 <= k < o.len() implies ids_of(ss).contains(
                    (#[trigger] o[k]).id,
                ) by {
                    assert(o.contains(o[k]));
                    lemma_chosen_is_recorded(ss, o[k]);
                }
            },
        }
    }
}

/// Without a selector the fallback is told exactly if no session belongs to the
/// current directory; otherwise a session that belongs to it is named.
pub proof fn fallback_is_told(ss: Seq<SummaryV>, cwd: Seq<char>)
    requires
        ss.len() > 0,
    ensures
        resolved_default(ss, cwd).cwd_fallback <==> forall|i: int|
            0 <= i < ss.len() ==> !belongs_to(#[trigger] ss[i], cwd),
{
    broadcast use vstd::seq_lib::group_to_multiset_ensures;

    recency_order_keeps_sessions(ss);
    let o = by_recency(ss);
    let p = |s: SummaryV| belongs_to(s, cwd);
    lemma_first_where(o, p);
    match first_where(o, p) {
        Some(s) => {
            let k = choose|k: int| 0 <= k < o.len() && o[k] == s;
            lemma_ordered_contains(ss, k);
            let j = choose|j: int| 0 <= j < ss.len() && ss[j] == s;
            assert(belongs_to(ss[j], cwd));
        },
        None => {
            assert forall|i: int| 0 <= i < ss.len() implies !belongs_to(
                #[trigger] ss[i],
                cwd,
            ) by {
                assert(ss.contains(ss[i]));
                assert(ss.to_multiset().count(ss[i]) > 0);
                assert(o.to_multiset().count(ss[i]) > 0);
                assert(o.contains(ss[i]));
                let k = choose|k: int| 0 <= k < o.len() && o[k] == ss[i];
                assert(!p(o[k]));
            }
        },
    }
}

/// `@1` names what `@last` names.
pub proof fn first_is_last(ss: Seq<SummaryV>, cwd: Seq<char>, now_ms: i64)
    ensures
        resolved(ss, Some("@1"@), cwd, now_ms) == resolved(ss, Some("@last"@), cwd, now_ms),
{
    reveal_strlit("@1");
    reveal_strlit("@last");
    reveal_strlit("@");
    reveal_strlit("@project:");
    reveal_strlit("@live:");
    if ss.len() > 0 {
        recency_order_keeps_sessions(ss);
        let one = "@1"@;
        assert(one.subrange(0, 1) =~= "@"@);
        assert("@last"@.subrange(0, 1) =~= "@"@);
        assert(one.len() == 2 && "@last"@.len() == 5);
        let d = one.skip(1);
        assert(without_ats(d) == d);
        assert(without_ats(one) == d);
        assert(d.len() == 1 && d[0] == '1');
        assert(d.drop_last() =~= Seq::<char>::empty());
        assert(numeral_value(d.drop_last()) == 0);
        assert(numeral_value(d) == 1);
        assert(is_numeral(d));
    }
}

/// A session whose last event from the hooks ended a turn or the session is
/// never live, whatever transcript events follow it.
pub proof fn ended_sessions_are_not_live(
    id: Seq<char>,
    created_ts: Option<i64>,
    events: Seq<EventV>,
    now_ms: i64,
    window_ms: i64,
)
    requires
        last_hook_kind(events) == Some(EventKind::Stop) || last_hook_kind(events) == Some(
            EventKind::SessionEnd,
        ),
    ensures
        !summary_of(id, created_ts, events).live_within(now_ms, window_ms),
{
}

/// A session comes to life again with its next event: whatever ended before, an
/// event of the hooks that ends nothing makes it live for as long as the window
/// lasts.
pub proof fn new_events_revive(
    id: Seq<char>,
    created_ts: Option<i64>,
    events: Seq<EventV>,
    e: EventV,
    now_ms: i64,
    window_ms: i64,
)
    requires
        e.source == Source::Hooks,
        e.kind != EventKind::Stop,
        e.kind != EventKind::SessionEnd,
    ensures
        summary_of(id, created_ts, events.push(e)).live_within(now_ms, window_ms)
            <==> clamped_difference(now_ms, e.ts) <= window_ms,
{
    assert(events.push(e).last() == e);
}

} // verus!
