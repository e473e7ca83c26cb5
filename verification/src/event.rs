//! The event model: the one normalized record for everything the recorder
//! observes.
use vstd::prelude::*;

use crate::json::{Json, JsonV};
use crate::text::{clone_opt, opt_view};

verus! {

/// Current schema version.
pub const SCHEMA_VERSION: u32 = 1;

/// Full confidence, one: for facts the source reports directly. A confidence is
/// held as the bits of its double-precision number.
pub const CONFIDENCE_CERTAIN: u64 = 0x3ff0000000000000;

/// How strongly the agent can be claimed to have caused an event.
#[derive(Debug, Clone, Copy, PartialEq, Eq, Structural)]
pub enum Attribution {
    /// Reported by the agent itself, such as by a hook payload.
    Direct,
    /// Observed out of band and confirmed to have happened, but not proven to be
    /// caused by the agent.
    Observed,
    /// Correlated within a time window; a best-effort guess.
    Inferred,
}

/// Where a record originated.
#[derive(Debug, Clone, Copy, PartialEq, Eq, Structural)]
pub enum Source {
    /// Hooks, the canonical source.
    Hooks,
    /// The session transcript file, a best-effort secondary source.
    Transcript,
}

/// What kind of thing happened. Details live in the payload.
#[derive(Debug, Clone, Copy, PartialEq, Eq, Structural)]
pub enum EventKind {
    /// A session began.
    SessionStart,
    /// A prompt turn.
    Prompt,
    /// A tool invocation was requested.
    ToolCall,
    /// A tool invocation completed and reported a response.
    ToolResult,
    /// A tool invocation reported an explicit failure.
    ToolFailure,
    /// A turn ended.
    Stop,
    /// The session terminated, with a `reason` in the payload. A resumed session
    /// can still append events behind it.
    SessionEnd,
    /// The recorder could not process an input.
    Error,
}

/// One normalized record.
#[derive(Debug, PartialEq)]
pub struct AgentEvent {
    /// Schema version.
    pub v: u32,
    /// Event time, Unix epoch milliseconds.
    pub ts: i64,
    /// Session id that this event belongs to.
    pub session: String,
    /// Origin of the record.
    pub source: Source,
    /// What happened.
    pub kind: EventKind,
    /// Attribution strength.
    pub attribution: Attribution,
    /// Confidence in this record, as the bits of a double-precision number from
    /// zero to one.
    pub confidence: u64,
    /// For events found by correlation, the window (ms) that was used.
    pub correlation_window_ms: Option<u64>,
    /// Reference to the raw source record.
    pub raw_event_ref: Option<String>,
    /// Kind-specific details.
    pub payload: Json,
}

/// The contents of an [`AgentEvent`].
pub ghost struct EventV {
    pub v: u32,
    pub ts: i64,
    pub session: Seq<char>,
    pub source: Source,
    pub kind: EventKind,
    pub attribution: Attribution,
    pub confidence: u64,
    pub correlation_window_ms: Option<u64>,
    pub raw_event_ref: Option<Seq<char>>,
    pub payload: JsonV,
}

impl View for AgentEvent {
    type V = EventV;

    open spec fn view(&self) -> EventV {
        EventV {
            v: self.v,
            ts: self.ts,
            session: self.session@,
            source: self.source,
            kind: self.kind,
            attribution: self.attribution,
            confidence: self.confidence,
            correlation_window_ms: self.correlation_window_ms,
            raw_event_ref: opt_view(self.raw_event_ref),
            payload: self.payload@,
        }
    }
}

/// The contents of a list of events.
pub open spec fn event_views(v: Seq<AgentEvent>) -> Seq<EventV> {
    Seq::new(v.len(), |i: int| v[i]@)
}

/// An event of the current schema version without correlation metadata.
pub open spec fn fresh_event(
    ts: i64,
    session: Seq<char>,
    source: Source,
    kind: EventKind,
    attribution: Attribution,
    confidence: u64,
    payload: JsonV,
) -> EventV {
    EventV {
        v: SCHEMA_VERSION,
        ts,
        session,
        source,
        kind,
        attribution,
        confidence,
        correlation_window_ms: None,
        raw_event_ref: None,
        payload,
    }
}

impl AgentEvent {
    /// Builds an event of the current schema version without correlation
    /// metadata.
    pub fn new(
        ts: i64,
        session: &str,
        source: Source,
        kind: EventKind,
        attribution: Attribution,
        confidence: u64,
        payload: Json,
    ) -> (r: AgentEvent)
        ensures
            r@ == fresh_event(
                ts,
                session@,
                source,
                kind,
                attribution,
                confidence,
                payload@,
            ),
    {
        AgentEvent {
            v: SCHEMA_VERSION,
            ts,
            session: session.to_owned(),
            source,
            kind,
            attribution,
            confidence,
            correlation_window_ms: None,
            raw_event_ref: None,
            payload,
        }
    }
}

impl Clone for AgentEvent {
    fn clone(&self) -> (r: AgentEvent)
        ensures
            r@ == self@,
    {
        AgentEvent {
            v: self.v,
            ts: self.ts,
            session: self.session.clone(),
            source: self.source,
            kind: self.kind,
            attribution: self.attribution,
            confidence: self.confidence,
            correlation_window_ms: self.correlation_window_ms,
            raw_event_ref: clone_opt(&self.raw_event_ref),
            payload: self.payload.clone(),
        }
    }
}

impl EventV {
    /// The text of a payload field.
    pub open spec fn text(self, key: Seq<char>) -> Option<Seq<char>> {
        self.payload.text_at(key)
    }

    /// The text of a field of the tool input.
    pub open spec fn input(self, key: Seq<char>) -> Option<Seq<char>> {
        match self.payload.get("tool_input"@) {
            Some(v) => v.text_at(key),
            None => None,
        }
    }
}

impl AgentEvent {
    /// Reads the text of a payload field.
    pub fn str_field(&self, key: &str) -> (r: Option<&str>)
        ensures
            match r {
                Some(s) => self@.text(key@) == Some(s@),
                None => self@.text(key@) is None,
            },
    {
        self.payload.str_at(key)
    }

    /// Reads the text of a field of the tool input.
    pub fn tool_input_str(&self, key: &str) -> (r: Option<&str>)
        ensures
            match r {
                Some(s) => self@.input(key@) == Some(s@),
                None => self@.input(key@) is None,
            },
    {
        match self.payload.get("tool_input") {
            Some(v) => v.str_at(key),
            None => None,
        }
    }
}

// ---------------------------------------------------------------------------
// Laws
// ---------------------------------------------------------------------------

/// A field of an event is the text that its payload has under that name, and a field of
/// its tool input the text that the object `tool_input` in its payload has.
pub proof fn fields_are_looked_up_by_name(e: EventV, key: Seq<char>, s: Seq<char>)
    ensures
        e.text(key) == Some(s) <==> e.payload.get(key) == Some(JsonV::Str(s)),
        e.input(key) == Some(s) <==> (e.payload.get("tool_input"@) matches Some(v) && v.get(key)
            == Some(JsonV::Str(s))),
{
}

/// A new event holds what it was made of, under the current version of the schema, and no
/// reference or window until one is set.
pub proof fn new_events_hold_what_they_are_made_of(
    ts: i64,
    session: Seq<char>,
    source: Source,
    kind: EventKind,
    attribution: Attribution,
    confidence: u64,
    payload: JsonV,
)
    ensures
        ({
            let e = fresh_event(ts, session, source, kind, attribution, confidence, payload);
            &&& e.v == 1
            &&& e.ts == ts && e.session == session && e.source == source && e.kind == kind
            &&& e.attribution == attribution && e.confidence == confidence && e.payload == payload
            &&& e.correlation_window_ms is None && e.raw_event_ref is None
        }),
{
}

} // verus!
