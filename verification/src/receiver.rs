//! From one raw payload to the records that are kept of it.
//!
//! For each payload there is the verbatim raw record and the normalized event,
//! linked by a reference. Input that cannot be read or mapped is recorded as an
//! error event, so that nothing is dropped.
use vstd::prelude::*;

use crate::event::{event_views, AgentEvent, EventKind, EventV, Source, SCHEMA_VERSION};
use crate::hooks::{
    error_event, error_event_of, hook_event_name_of, normalize, normalized, session_id_of,
    transcript_path_of, NormalizeError, NormalizeErrorV,
};
use crate::json::{Json, JsonV};
use crate::num::{decimal, decimal_reads_back, decimal_u64, decimal_usize, parse_nat, read_nat};
use crate::outside::{error_text, parse, parse_failure, parsed};
use crate::store::{
    is_component, is_valid_session_id, raw_views, unknown_session_is_safe, RawRecord, RawRecordV,
    SessionStore, StoreError,
};
use crate::text::{begins, concat2, list_has, opt_view, same, strip_prefix, trim, trimmed, views};
use crate::transcript::{parse_transcript, transcript_of, TranscriptStats};
use crate::usage::{aggregate_transcript_usage, usage_of, SessionUsage};

verus! {

/// What to do with a payload once its session is decided.
#[derive(Debug)]
pub enum Prepared {
    /// An object with a safe session id: to be normalized.
    Normalize {
        /// The session that it is stored under.
        session: String,
        /// The payload.
        value: Json,
    },
    /// Not to be normalized: an error event under `session`.
    Error {
        /// The session that it is stored under.
        session: String,
        /// Why it cannot be normalized.
        reason: NormalizeError,
    },
}

/// The contents of a [`Prepared`].
pub ghost enum PreparedV {
    Normalize { session: Seq<char>, value: JsonV },
    Error { session: Seq<char>, reason: NormalizeErrorV },
}

impl View for Prepared {
    type V = PreparedV;

    open spec fn view(&self) -> PreparedV {
        match self {
            Prepared::Normalize { session, value } => PreparedV::Normalize {
                session: session@,
                value: value@,
            },
            Prepared::Error { session, reason } => PreparedV::Error {
                session: session@,
                reason: reason@,
            },
        }
    }
}

impl PreparedV {
    /// The session that the records are stored under.
    pub open spec fn session(self) -> Seq<char> {
        match self {
            PreparedV::Normalize { session, .. } => session,
            PreparedV::Error { session, .. } => session,
        }
    }

    /// The event of the payload.
    pub open spec fn event(self, ts: i64, raw_ref: Seq<char>) -> EventV {
        match self {
            PreparedV::Normalize { session, value } => match normalized(value, ts, raw_ref) {
                Ok(e) => e,
                Err(reason) => error_event_of(session, ts, raw_ref, reason),
            },
            PreparedV::Error { session, reason } => error_event_of(session, ts, raw_ref, reason),
        }
    }
}

/// What to do with a payload that was read as `value`, or not at all.
pub open spec fn prepared(value: Result<JsonV, Seq<char>>) -> PreparedV {
    match value {
        Err(why) => PreparedV::Error {
            session: "unknown-session"@,
            reason: NormalizeErrorV::MalformedJson(why),
        },
        Ok(v) => if !(v is Object) {
            PreparedV::Error {
                session: "unknown-session"@,
                reason: NormalizeErrorV::NotAnObject,
            }
        } else {
            match v.text_at("session_id"@) {
                None => PreparedV::Error {
                    session: "unknown-session"@,
                    reason: NormalizeErrorV::MissingField("session_id"@),
                },
                Some(id) => if !is_component(id) {
                    PreparedV::Error {
                        session: "unknown-session"@,
                        reason: NormalizeErrorV::InvalidSessionId(id),
                    }
                } else {
                    PreparedV::Normalize { session: id, value: v }
                },
            }
        },
    }
}

/// How a payload reads: the value it holds, or what is wrong with it.
pub open spec fn payload_value(raw: Seq<char>) -> Result<JsonV, Seq<char>> {
    match parsed(trimmed(raw)) {
        Some(v) => Ok(v),
        None => Err(parse_failure(trimmed(raw))),
    }
}

/// Decides what to do with a payload, from how it reads. A session id that is
/// not safe lands in the bucket for unknown sessions.
pub fn prepare_value(value: Result<Json, String>) -> (r: Prepared)
    ensures
        r@ == prepared(
            match value {
                Ok(v) => Ok(v@),
                Err(s) => Err(s@),
            },
        ),
{
    let v = match value {
        Ok(v) => v,
        Err(why) => {
            return Prepared::Error {
                session: "unknown-session".to_owned(),
                reason: NormalizeError::MalformedJson(why),
            };
        },
    };
    if !v.is_object() {
        return Prepared::Error {
            session: "unknown-session".to_owned(),
            reason: NormalizeError::NotAnObject,
        };
    }
    let id: Option<String> = match session_id_of(&v) {
        Some(s) => Some(s.to_owned()),
        None => None,
    };
    match id {
        None => Prepared::Error {
            session: "unknown-session".to_owned(),
            reason: NormalizeError::MissingField("session_id"),
        },
        Some(id) => if is_valid_session_id(id.as_str()) {
            Prepared::Normalize { session: id, value: v }
        } else {
            Prepared::Error {
                session: "unknown-session".to_owned(),
                reason: NormalizeError::InvalidSessionId(id),
            }
        },
    }
}

/// Reads a payload and decides what to do with it.
pub fn prepare(raw_payload: &str) -> (r: Prepared)
    ensures
        r@ == prepared(payload_value(raw_payload@)),
{
    let text = trim(raw_payload);
    match parse(text.as_str()) {
        Ok(v) => prepare_value(Ok(v)),
        Err(e) => prepare_value(Err(error_text(&e))),
    }
}

// ---------------------------------------------------------------------------
// References
// ---------------------------------------------------------------------------

/// The reference with the number `n`.
pub open spec fn raw_ref_of(n: int) -> Seq<char> {
    "raw-"@ + decimal(n as nat)
}

/// The number of a reference.
pub open spec fn ref_number(raw_ref: Seq<char>) -> Option<int> {
    if begins(raw_ref, "raw-"@) {
        read_nat(raw_ref.skip("raw-"@.len() as int), u64::MAX as int)
    } else {
        None
    }
}

/// The first number behind all those of the references: the greatest and one, or
/// the greatest there is.
pub open spec fn next_number(records: Seq<RawRecordV>) -> int
    decreases records.len(),
{
    if records.len() == 0 {
        0
    } else {
        let before = next_number(records.drop_last());
        match ref_number(records.last().raw_ref) {
            Some(n) => {
                let after = if n == u64::MAX {
                    n
                } else {
                    n + 1
                };
                if before < after {
                    after
                } else {
                    before
                }
            },
            None => before,
        }
    }
}

fn number_of_ref(raw_ref: &str) -> (r: Option<u64>)
    ensures
        match r {
            Some(n) => ref_number(raw_ref@) == Some(n as int),
            None => ref_number(raw_ref@) is None,
        },
{
    match strip_prefix(raw_ref, "raw-") {
        Some(rest) => parse_nat(rest.as_str(), u64::MAX),
        None => None,
    }
}

/// The first number behind all those of the references on disk. It goes by the
/// greatest number, not by the count: a gap must not make a later writer reissue
/// a reference.
pub fn seed_from_disk(records: &Vec<RawRecord>) -> (r: u64)
    ensures
        r == next_number(raw_views(records@)),
{
    let ghost rv = raw_views(records@);
    let mut next: u64 = 0;
    for i in 0..records.len()
        invariant
            rv == raw_views(records@),
            next == next_number(rv.take(i as int)),
    {
        proof {
            assert(rv.take(i + 1).drop_last() =~= rv.take(i as int));
            assert(rv.take(i + 1).last() == records@[i as int]@);
        }
        match number_of_ref(records[i].raw_ref.as_str()) {
            Some(n) => {
                let after: u64 = if n == u64::MAX {
                    n
                } else {
                    n + 1
                };
                if next < after {
                    next = after;
                }
            },
            None => {},
        }
    }
    proof {
        assert(rv.take(rv.len() as int) =~= rv);
    }
    next
}

/// The next numbers of the sessions that were seen.
pub open spec fn cached(cache: Seq<(Seq<char>, u64)>, session: Seq<char>) -> Option<u64>
    decreases cache.len(),
{
    if cache.len() == 0 {
        None
    } else if cache[0].0 == session {
        Some(cache[0].1)
    } else {
        cached(cache.skip(1), session)
    }
}

/// What is persisted for one payload.
#[derive(Debug, PartialEq)]
pub struct Ingested {
    /// The session that the records are written under.
    pub session: String,
    /// The reference that links the raw record and its event.
    pub raw_ref: String,
    /// The kind of the event.
    pub kind: EventKind,
    /// The raw record, written first.
    pub record: RawRecord,
    /// The event, written behind it.
    pub event: AgentEvent,
}

/// Turns payloads into records, with references that count up in each session.
#[derive(Debug)]
pub struct Receiver {
    store: SessionStore,
    next_seq: Vec<(String, u64)>,
}

impl Receiver {
    /// The store that the records go to.
    pub closed spec fn spec_store(self) -> SessionStore {
        self.store
    }

    /// The next numbers of the sessions that were seen.
    pub closed spec fn cache(self) -> Seq<(Seq<char>, u64)> {
        Seq::new(self.next_seq@.len(), |i: int| (self.next_seq@[i].0@, self.next_seq@[i].1))
    }

    /// The number that the next reference of a session has, where the references
    /// on disk are those of `on_disk`.
    pub open spec fn next(self, session: Seq<char>, on_disk: Seq<RawRecordV>) -> int {
        match cached(self.cache(), session) {
            Some(n) => n as int,
            None => next_number(on_disk),
        }
    }

    /// A receiver over a store, which has seen no session.
    pub fn new(store: SessionStore) -> (r: Receiver)
        ensures
            r.spec_store() == store,
            forall|s: Seq<char>| cached(r.cache(), s) is None,
    {
        Receiver { store, next_seq: Vec::new() }
    }

    /// The store that the records go to.
    pub fn store(&self) -> (r: &SessionStore)
        ensures
            *r == self.spec_store(),
    {
        &self.store
    }

    /// Forgets the sessions seen, so that the next reference of each goes by
    /// what is on disk.
    pub fn reset_seq_cache(&mut self)
        ensures
            final(self).spec_store() == old(self).spec_store(),
            forall|s: Seq<char>| cached(final(self).cache(), s) is None,
    {
        self.next_seq.clear();
    }

    /// Whether the next reference of a session is known without a look at the
    /// disk.
    pub fn knows(&self, session: &str) -> (r: bool)
        ensures
            r == cached(self.cache(), session@) is Some,
    {
        match self.position(session) {
            Some(_) => true,
            None => false,
        }
    }

    fn position(&self, session: &str) -> (r: Option<usize>)
        ensures
            match r {
                Some(k) => {
                    &&& k < self.next_seq@.len()
                    &&& self.next_seq@[k as int].0@ == session@
                    &&& cached(self.cache(), session@) == Some(self.next_seq@[k as int].1)
                    &&& forall|j: int| 0 <= j < k ==> (#[trigger] self.next_seq@[j]).0@ != session@
                },
                None => {
                    &&& cached(self.cache(), session@) is None
                    &&& forall|j: int|
                        0 <= j < self.next_seq@.len() ==> (#[trigger] self.next_seq@[j]).0@
                            != session@
                },
            },
    {
        let ghost c = self.cache();
        let mut k: usize = 0;
        proof {
            assert(c.skip(0) =~= c);
        }
        while k < self.next_seq.len()
            invariant
                c == self.cache(),
                k <= self.next_seq@.len(),
                cached(c, session@) == cached(c.skip(k as int), session@),
                forall|j: int| 0 <= j < k ==> (#[trigger] self.next_seq@[j]).0@ != session@,
            decreases self.next_seq@.len() - k,
        {
            proof {
                assert(c.skip(k as int)[0] == c[k as int]);
                assert(c.skip(k as int).skip(1) =~= c.skip(k + 1));
            }
            if same(self.next_seq[k].0.as_str(), session) {
                return Some(k);
            }
            k = k + 1;
        }
        None
    }

    /// Takes the next number of a session.
    fn take_number(&mut self, session: &str, on_disk: &Vec<RawRecord>) -> (n: u64)
        ensures
            n == old(self).next(session@, raw_views(on_disk@)),
            final(self).spec_store() == old(self).spec_store(),
            forall|s: Seq<char>|
                cached(#[trigger] final(self).cache(), s) == (if s == session@ {
                    Some(
                        if n == u64::MAX {
                            n
                        } else {
                            (n + 1) as u64
                        },
                    )
                } else {
                    cached(old(self).cache(), s)
                }),
    {
        let ghost c0 = self.cache();
        match self.position(session) {
            Some(k) => {
                let n: u64 = self.next_seq[k].1;
                let after: u64 = if n == u64::MAX {
                    n
                } else {
                    n + 1
                };
                self.next_seq.set(k, (session.to_owned(), after));
                proof {
                    let c1 = self.cache();
                    assert(c1 =~= c0.update(k as int, (session@, after)));
                    assert forall|j: int| 0 <= j < k implies (#[trigger] c0[j]).0 != session@ by {}
                    assert forall|s: Seq<char>| cached(c1, s) == (if s == session@ {
                        Some(after)
                    } else {
                        cached(c0, s)
                    }) by {
                        lemma_cache_update(c0, k as int, session@, after, s);
                    }
                }
                n
            },
            None => {
                let n: u64 = seed_from_disk(on_disk);
                let after: u64 = if n == u64::MAX {
                    n
                } else {
                    n + 1
                };
                self.next_seq.push((session.to_owned(), after));
                proof {
                    let c1 = self.cache();
                    assert(c1 =~= c0.push((session@, after)));
                    assert forall|s: Seq<char>| cached(c1, s) == (if s == session@ {
                        Some(after)
                    } else {
                        cached(c0, s)
                    }) by {
                        lemma_cache_push(c0, session@, after, s);
                    }
                }
                n
            },
        }
    }

    /// Takes up one raw payload: gives the raw record and the event (or the error
    /// event) to be written. `on_disk` is what the raw file of the session
    /// holds; it is looked at only for a session that was not seen before.
    pub fn ingest(&mut self, raw_payload: &str, ts: i64, on_disk: &Vec<RawRecord>) -> (r: Ingested)
        ensures
            ({
                let p = prepared(payload_value(raw_payload@));
                let n = old(self).next(p.session(), raw_views(on_disk@));
                &&& r.session@ == p.session()
                &&& r.raw_ref@ == raw_ref_of(n)
                &&& r.event@ == p.event(ts, raw_ref_of(n))
                &&& r.kind == r.event.kind
                &&& r.record@ == (RawRecordV {
                    v: SCHEMA_VERSION,
                    ts,
                    session: p.session(),
                    raw_ref: raw_ref_of(n),
                    raw: raw_payload@,
                })
                &&& forall|s: Seq<char>|
                    cached(#[trigger] final(self).cache(), s) == (if s == p.session() {
                        Some(
                            if n == u64::MAX {
                                n as u64
                            } else {
                                (n + 1) as u64
                            },
                        )
                    } else {
                        cached(old(self).cache(), s)
                    })
            }),
            final(self).spec_store() == old(self).spec_store(),
            is_component(r.session@),
    {
        proof {
            unknown_session_is_safe();
        }
        let prepared = prepare(raw_payload);
        self.ingest_prepared(prepared, raw_payload, ts, on_disk)
    }

    /// Takes up a payload for which it was decided what to do with it.
    pub fn ingest_prepared(
        &mut self,
        prepared: Prepared,
        raw_payload: &str,
        ts: i64,
        on_disk: &Vec<RawRecord>,
    ) -> (r: Ingested)
        ensures
            ({
                let p = prepared@;
                let n = old(self).next(p.session(), raw_views(on_disk@));
                &&& r.session@ == p.session()
                &&& r.raw_ref@ == raw_ref_of(n)
                &&& r.event@ == p.event(ts, raw_ref_of(n))
                &&& r.kind == r.event.kind
                &&& r.record@ == (RawRecordV {
                    v: SCHEMA_VERSION,
                    ts,
                    session: p.session(),
                    raw_ref: raw_ref_of(n),
                    raw: raw_payload@,
                })
                &&& forall|s: Seq<char>|
                    cached(#[trigger] final(self).cache(), s) == (if s == p.session() {
                        Some(
                            if n == u64::MAX {
                                n as u64
                            } else {
                                (n + 1) as u64
                            },
                        )
                    } else {
                        cached(old(self).cache(), s)
                    })
            }),
            final(self).spec_store() == old(self).spec_store(),
    {
        let session: String = match &prepared {
            Prepared::Normalize { session, .. } => session.clone(),
            Prepared::Error { session, .. } => session.clone(),
        };
        let n: u64 = self.take_number(session.as_str(), on_disk);
        let raw_ref = concat2("raw-", decimal_u64(n).as_str());
        let event = match prepared {
            Prepared::Normalize { value, .. } => {
                match normalize(&value, ts, raw_ref.as_str()) {
                    Ok(e) => e,
                    Err(reason) => error_event(session.as_str(), ts, raw_ref.as_str(), &reason),
                }
            },
            Prepared::Error { reason, .. } => error_event(
                session.as_str(),
                ts,
                raw_ref.as_str(),
                &reason,
            ),
        };
        let record = RawRecord {
            v: SCHEMA_VERSION,
            ts,
            session: session.clone(),
            raw_ref: raw_ref.clone(),
            raw: raw_payload.to_owned(),
        };
        Ingested { session, raw_ref, kind: event.kind, record, event }
    }

    /// Takes up the contents of a session's transcript: gives the supplementary
    /// events to be written, those left out that are there already, and the
    /// usage record. `existing` are the events that the session has.
    ///
    /// A session id that is not safe is refused.
    pub fn ingest_transcript(
        &self,
        session: &str,
        content: &str,
        ts: i64,
        existing: &Vec<AgentEvent>,
    ) -> (r: Result<TranscriptIngested, StoreError>)
        ensures
            match r {
                Ok(out) => {
                    let read = transcript_of(content@, session@, ts);
                    let d = deduped(read.events, known_refs(event_views(existing@)));
                    &&& is_component(session@)
                    &&& out.session@ == session@
                    &&& out.stats@ == read.stats
                    &&& event_views(out.events@) == d.fresh
                    &&& out.appended == d.fresh.len()
                    &&& out.skipped_duplicates == d.skipped
                    &&& out.usage@ == usage_of(content@, session@)
                },
                Err(StoreError::InvalidSessionId(s)) => !is_component(session@) && s@ == session@,
            },
    {
        if !is_valid_session_id(session) {
            return Err(StoreError::InvalidSessionId(session.to_owned()));
        }
        let read = parse_transcript(content, session, ts);
        let stats = read.stats;
        let (events, skipped_duplicates) = dedup_events(read.events, existing);
        let appended: usize = events.len();
        let usage = aggregate_transcript_usage(content, session);
        proof {
            assert(event_views(events@).len() == appended);
        }
        Ok(
            TranscriptIngested {
                session: session.to_owned(),
                stats,
                appended,
                skipped_duplicates,
                events,
                usage,
            },
        )
    }
}

proof fn lemma_cache_update(
    c: Seq<(Seq<char>, u64)>,
    k: int,
    session: Seq<char>,
    after: u64,
    s: Seq<char>,
)
    requires
        0 <= k < c.len(),
        c[k].0 == session,
        forall|j: int| 0 <= j < k ==> (#[trigger] c[j]).0 != session,
    ensures
        cached(c.update(k, (session, after)), s) == (if s == session {
            Some(after)
        } else {
            cached(c, s)
        }),
    decreases c.len(),
{
    let u = c.update(k, (session, after));
    if k > 0 {
        let t = c.skip(1);
        assert forall|j: int| 0 <= j < k - 1 implies (#[trigger] t[j]).0 != session by {
            assert(t[j] == c[j + 1]);
        }
        assert(c[0].0 != session);
        lemma_cache_update(t, k - 1, session, after, s);
        assert(u.skip(1) =~= t.update(k - 1, (session, after)));
    } else {
        assert(u.skip(1) =~= c.skip(1));
    }
}

proof fn lemma_cache_push(
    c: Seq<(Seq<char>, u64)>,
    session: Seq<char>,
    after: u64,
    s: Seq<char>,
)
    requires
        cached(c, session) is None,
    ensures
        cached(c.push((session, after)), s) == (if s == session {
            Some(after)
        } else {
            cached(c, s)
        }),
    decreases c.len(),
{
    let u = c.push((session, after));
    if c.len() > 0 {
        lemma_cache_push(c.skip(1), session, after, s);
        assert(u.skip(1) =~= c.skip(1).push((session, after)));
    } else {
        assert(u[0] == (session, after));
        assert(u.skip(1) =~= Seq::<(Seq<char>, u64)>::empty());
        assert(cached(u.skip(1), s) is None);
    }
}

// ---------------------------------------------------------------------------
// Transcripts
// ---------------------------------------------------------------------------

/// What is persisted for a transcript.
#[derive(Debug, PartialEq)]
pub struct TranscriptIngested {
    /// The session that the events are written under.
    pub session: String,
    /// How the lines of the transcript were classified.
    pub stats: TranscriptStats,
    /// The number of events that are new.
    pub appended: usize,
    /// The number of events that are there already.
    pub skipped_duplicates: usize,
    /// The events that are new, to be written.
    pub events: Vec<AgentEvent>,
    /// The usage record, to be written in place of an older one.
    pub usage: SessionUsage,
}

/// The references of the events from transcripts.
pub open spec fn known_refs(events: Seq<EventV>) -> Seq<Seq<char>>
    decreases events.len(),
{
    if events.len() == 0 {
        Seq::<Seq<char>>::empty()
    } else {
        let before = known_refs(events.drop_last());
        let e = events.last();
        if e.source == Source::Transcript && e.raw_event_ref is Some {
            before.push(e.raw_event_ref->0)
        } else {
            before
        }
    }
}

/// Which of a list of events are new.
pub ghost struct Dedup {
    /// The references known before and met with.
    pub seen: Seq<Seq<char>>,
    /// The events that are new.
    pub fresh: Seq<EventV>,
    /// The number of the others.
    pub skipped: int,
}

/// Which events are new where the references `known` are there already. An event
/// without a reference is always new.
pub open spec fn deduped(events: Seq<EventV>, known: Seq<Seq<char>>) -> Dedup
    decreases events.len(),
{
    if events.len() == 0 {
        Dedup { seen: known, fresh: Seq::<EventV>::empty(), skipped: 0 }
    } else {
        let before = deduped(events.drop_last(), known);
        let e = events.last();
        match e.raw_event_ref {
            Some(r) => if before.seen.contains(r) {
                Dedup { skipped: before.skipped + 1, ..before }
            } else {
                Dedup { seen: before.seen.push(r), fresh: before.fresh.push(e), ..before }
            },
            None => Dedup { fresh: before.fresh.push(e), ..before },
        }
    }
}

fn collect_refs(events: &Vec<AgentEvent>) -> (out: Vec<String>)
    ensures
        views(out@) == known_refs(event_views(events@)),
{
    let ghost ev = event_views(events@);
    let mut out: Vec<String> = Vec::new();
    proof {
        assert(views(out@) =~= known_refs(ev.take(0)));
    }
    for i in 0..events.len()
        invariant
            ev == event_views(events@),
            views(out@) == known_refs(ev.take(i as int)),
    {
        proof {
            assert(ev.take(i + 1).drop_last() =~= ev.take(i as int));
            assert(ev.take(i + 1).last() == events@[i as int]@);
        }
        let e = &events[i];
        let ghost out0 = out@;
        match e.source {
            Source::Transcript => {
                match &e.raw_event_ref {
                    Some(r) => {
                        out.push(r.clone());
                        proof {
                            assert(views(out@) =~= views(out0).push(r@));
                        }
                    },
                    None => {},
                }
            },
            Source::Hooks => {},
        }
    }
    proof {
        assert(ev.take(ev.len() as int) =~= ev);
    }
    out
}

/// Leaves out the events that are there already.
fn dedup_events(events: Vec<AgentEvent>, existing: &Vec<AgentEvent>) -> (r: (
    Vec<AgentEvent>,
    usize,
))
    ensures
        event_views(r.0@) == deduped(
            event_views(events@),
            known_refs(event_views(existing@)),
        ).fresh,
        r.1 == deduped(event_views(events@), known_refs(event_views(existing@))).skipped,
{
    let ghost ev = event_views(events@);
    let ghost known = known_refs(event_views(existing@));
    let ghost all = events@;
    let n: usize = events.len();
    let mut seen = collect_refs(existing);
    let mut out: Vec<AgentEvent> = Vec::new();
    let mut skipped: usize = 0;
    proof {
        assert(event_views(out@) =~= Seq::<EventV>::empty());
        assert(ev.take(0) =~= Seq::<EventV>::empty());
    }
    for e in it: events
        invariant
            it.seq() == all,
            n == all.len(),
            ev == event_views(all),
            views(seen@) == deduped(ev.take(it.index() as int), known).seen,
            event_views(out@) == deduped(ev.take(it.index() as int), known).fresh,
            skipped == deduped(ev.take(it.index() as int), known).skipped,
            skipped <= it.index(),
    {
        proof {
            let i = it.index() as int;
            assert(ev.take(i + 1).drop_last() =~= ev.take(i));
            assert(ev.take(i + 1).last() == e@);
        }
        let ghost out0 = event_views(out@);
        let ghost seen0 = views(seen@);
        let ghost e0 = e@;
        let fresh = match &e.raw_event_ref {
            Some(r) => {
                if list_has(&seen, r.as_str()) {
                    false
                } else {
                    seen.push(r.clone());
                    proof {
                        assert(views(seen@) =~= seen0.push(r@));
                    }
                    true
                }
            },
            None => true,
        };
        if fresh {
            out.push(e);
            proof {
                assert(event_views(out@) =~= out0.push(e0));
            }
        } else {
            skipped = skipped + 1;
        }
    }
    proof {
        assert(ev.take(ev.len() as int) =~= ev);
    }
    (out, skipped)
}

/// The session and the transcript path of a payload that ends a turn or a
/// session, if it names both.
pub open spec fn transcript_at_end(payload: JsonV) -> Option<(Seq<char>, Seq<char>)> {
    let name = payload.text_at("hook_event_name"@);
    if name == Some("Stop"@) || name == Some("SessionEnd"@) {
        match (payload.text_at("session_id"@), payload.text_at("transcript_path"@)) {
            (Some(session), Some(path)) => Some((session, path)),
            _ => None,
        }
    } else {
        None
    }
}

/// The session and the transcript path of a payload that ends a turn or a
/// session.
pub fn transcript_of_payload(payload: &Json) -> (r: Option<(String, String)>)
    ensures
        match r {
            Some((session, path)) => transcript_at_end(payload@) == Some((session@, path@)),
            None => transcript_at_end(payload@) is None,
        },
{
    let ends = match hook_event_name_of(payload) {
        Some(name) => same(name, "Stop") || same(name, "SessionEnd"),
        None => false,
    };
    if !ends {
        return None;
    }
    match (session_id_of(payload), transcript_path_of(payload)) {
        (Some(session), Some(path)) => Some((session.to_owned(), path.to_owned())),
        _ => None,
    }
}

/// Which transcript is to be read behind a payload: that of a payload which ends
/// a turn or a session, unless transcripts are switched off.
pub fn transcript_request(raw_payload: &str, enabled: bool) -> (r: Option<(String, String)>)
    ensures
        ({
            let wanted = match parsed(trimmed(raw_payload@)) {
                Some(v) => if enabled {
                    transcript_at_end(v)
                } else {
                    None
                },
                None => None,
            };
            match r {
                Some((session, path)) => wanted == Some((session@, path@)),
                None => wanted is None,
            }
        }),
{
    if !enabled {
        return None;
    }
    match parse(trim(raw_payload).as_str()) {
        Ok(v) => transcript_of_payload(&v),
        Err(_) => None,
    }
}

/// The note on a transcript: none where nothing was appended and no line was
/// skipped.
pub open spec fn transcript_note_of(
    session: Seq<char>,
    appended: int,
    unparseable: int,
    unrecognized: int,
    duplicates: int,
) -> Option<Seq<char>> {
    if appended > 0 || unparseable > 0 || unrecognized > 0 {
        Some(
            "agent-witness: transcript "@ + session + ": +"@ + decimal(appended as nat)
                + " event(s) (unparseable "@ + decimal(unparseable as nat) + ", unrecognized "@
                + decimal(unrecognized as nat) + ", duplicate "@ + decimal(duplicates as nat)
                + ")"@,
        )
    } else {
        None
    }
}

/// The note on a transcript that was taken up.
pub fn transcript_note(out: &TranscriptIngested) -> (r: Option<String>)
    ensures
        opt_view(r) == transcript_note_of(
            out.session@,
            out.appended as int,
            out.stats.skipped_unparseable as int,
            out.stats.skipped_unrecognized as int,
            out.skipped_duplicates as int,
        ),
{
    if out.appended > 0 || out.stats.skipped_unparseable > 0 || out.stats.skipped_unrecognized > 0 {
        let mut s: String = "agent-witness: transcript ".to_owned();
        s.append(out.session.as_str());
        s.append(": +");
        s.append(decimal_usize(out.appended).as_str());
        s.append(" event(s) (unparseable ");
        s.append(decimal_usize(out.stats.skipped_unparseable).as_str());
        s.append(", unrecognized ");
        s.append(decimal_usize(out.stats.skipped_unrecognized).as_str());
        s.append(", duplicate ");
        s.append(decimal_usize(out.skipped_duplicates).as_str());
        s.append(")");
        Some(s)
    } else {
        None
    }
}

// ---------------------------------------------------------------------------
// Laws
// ---------------------------------------------------------------------------

/// Every payload, whatever it holds, has an event in the session of its raw
/// record, linked by the reference, from the hooks; a payload that cannot be
/// read or mapped has an error event.
pub proof fn every_payload_has_an_event(raw: Seq<char>, ts: i64, raw_ref: Seq<char>)
    ensures
        ({
            let p = prepared(payload_value(raw));
            let e = p.event(ts, raw_ref);
            &&& e.session == p.session()
            &&& e.raw_event_ref == Some(raw_ref)
            &&& e.source == Source::Hooks
            &&& e.ts == ts
            &&& is_component(p.session())
            &&& p is Error ==> e.kind == EventKind::Error
        }),
{
    unknown_session_is_safe();
}

proof fn lemma_next_number(records: Seq<RawRecordV>, i: int)
    requires
        0 <= i < records.len(),
    ensures
        0 <= next_number(records) <= u64::MAX,
        ref_number(records[i].raw_ref) matches Some(n) ==> n < next_number(records) || next_number(
            records,
        ) == u64::MAX,
    decreases records.len(),
{
    lemma_number_range(records);
    let t = records.drop_last();
    if i < t.len() {
        lemma_next_number(t, i);
        assert(t[i] == records[i]);
    }
}

proof fn lemma_number_range(records: Seq<RawRecordV>)
    ensures
        0 <= next_number(records) <= u64::MAX,
    decreases records.len(),
{
    if records.len() > 0 {
        lemma_number_range(records.drop_last());
    }
}

/// No reference is issued again: the reference with the number that follows
/// those on disk stands on no record there. Left out is the one number behind
/// which there is none.
pub proof fn references_are_not_reissued(records: Seq<RawRecordV>, i: int)
    requires
        0 <= i < records.len(),
        next_number(records) < u64::MAX,
    ensures
        records[i].raw_ref != raw_ref_of(next_number(records)),
{
    lemma_next_number(records, i);
    let n = next_number(records);
    let r = raw_ref_of(n);
    let prefix = "raw-"@;
    decimal_reads_back(n as nat);
    assert(r.subrange(0, prefix.len() as int) =~= prefix);
    assert(r.skip(prefix.len() as int) =~= decimal(n as nat));
    lemma_read_nat_wider(decimal(n as nat), n, u64::MAX as int);
    assert(ref_number(r) == Some(n));
}

proof fn lemma_read_nat_wider(s: Seq<char>, a: int, b: int)
    requires
        read_nat(s, a) is Some,
        a <= b,
    ensures
        read_nat(s, b) == read_nat(s, a),
{
}

/// Two payloads of one session in turn have different references.
pub proof fn references_count_up(n: int, m: int)
    requires
        0 <= n < m,
    ensures
        raw_ref_of(n) != raw_ref_of(m),
{
    let prefix = "raw-"@;
    decimal_reads_back(n as nat);
    decimal_reads_back(m as nat);
    assert(raw_ref_of(n).skip(prefix.len() as int) =~= decimal(n as nat));
    assert(raw_ref_of(m).skip(prefix.len() as int) =~= decimal(m as nat));
}

proof fn lemma_dedup_seen(events: Seq<EventV>, known: Seq<Seq<char>>)
    ensures
        ({
            let d = deduped(events, known);
            &&& forall|r: Seq<char>|
                #![trigger d.seen.contains(r)]
                d.seen.contains(r) ==> known.contains(r) || exists|k: int|
                    0 <= k < d.fresh.len() && (#[trigger] d.fresh[k]).raw_event_ref == Some(r)
            &&& forall|i: int|
                0 <= i < events.len() ==> ((#[trigger] events[i]).raw_event_ref matches Some(r)
                    ==> d.seen.contains(r))
            &&& forall|k: int|
                0 <= k < d.fresh.len() ==> events.contains(#[trigger] d.fresh[k])
            &&& d.fresh.len() + d.skipped == events.len()
            &&& d.skipped >= 0
        }),
    decreases events.len(),
{
    let d = deduped(events, known);
    if events.len() > 0 {
        let t = events.drop_last();
        let b = deduped(t, known);
        let e = events.last();
        lemma_dedup_seen(t, known);
        assert forall|k: int| 0 <= k < b.fresh.len() implies events.contains(
            #[trigger] b.fresh[k],
        ) by {
            let j = choose|j: int| 0 <= j < t.len() && t[j] == b.fresh[k];
            assert(events[j] == b.fresh[k]);
        }
        assert(events[events.len() - 1] == e);
        assert forall|k: int| 0 <= k < d.fresh.len() implies events.contains(
            #[trigger] d.fresh[k],
        ) by {
            if k < b.fresh.len() {
                assert(d.fresh[k] == b.fresh[k]);
            } else {
                assert(d.fresh[k] == e);
            }
        }
        assert forall|r: Seq<char>| b.seen.contains(r) implies d.seen.contains(r) by {
            let j = choose|j: int| 0 <= j < b.seen.len() && b.seen[j] == r;
            assert(d.seen[j] == r);
        }
        assert forall|i: int| 0 <= i < events.len() implies ((
        #[trigger] events[i]).raw_event_ref matches Some(r) ==> d.seen.contains(r)) by {
            if i < t.len() {
                assert(t[i] == events[i]);
            } else if e.raw_event_ref is Some && !b.seen.contains(e.raw_event_ref->0) {
                assert(d.seen[b.seen.len() as int] == e.raw_event_ref->0);
            }
        }
        assert forall|r: Seq<char>|
            #![trigger d.seen.contains(r)]
            d.seen.contains(r) implies known.contains(r) || exists|k: int|
            0 <= k < d.fresh.len() && (#[trigger] d.fresh[k]).raw_event_ref == Some(r) by {
            let j = choose|j: int| 0 <= j < d.seen.len() && d.seen[j] == r;
            if j < b.seen.len() {
                assert(b.seen[j] == r);
                assert(b.seen.contains(r));
                if !known.contains(r) {
                    let k = choose|k: int|
                        0 <= k < b.fresh.len() && (#[trigger] b.fresh[k]).raw_event_ref == Some(r);
                    assert(d.fresh[k] == b.fresh[k]);
                }
            } else {
                assert(d.fresh[b.fresh.len() as int] == e);
            }
        }
    }
}

proof fn lemma_known_refs(events: Seq<EventV>, i: int)
    requires
        0 <= i < events.len(),
        events[i].source == Source::Transcript,
        events[i].raw_event_ref is Some,
    ensures
        known_refs(events).contains(events[i].raw_event_ref->0),
    decreases events.len(),
{
    let t = events.drop_last();
    let before = known_refs(t);
    if i < t.len() {
        assert(t[i] == events[i]);
        lemma_known_refs(t, i);
        let j = choose|j: int| 0 <= j < before.len() && before[j] == events[i].raw_event_ref->0;
        assert(known_refs(events)[j] == before[j]);
    } else {
        assert(known_refs(events)[before.len() as int] == events[i].raw_event_ref->0);
    }
}

proof fn lemma_known_refs_prefix(a: Seq<EventV>, b: Seq<EventV>, r: Seq<char>)
    requires
        known_refs(a).contains(r),
    ensures
        known_refs(a + b).contains(r),
    decreases b.len(),
{
    if b.len() > 0 {
        lemma_known_refs_prefix(a, b.drop_last(), r);
        assert((a + b).drop_last() =~= a + b.drop_last());
        let before = known_refs(a + b.drop_last());
        let j = choose|j: int| 0 <= j < before.len() && before[j] == r;
        assert(known_refs(a + b)[j] == r);
    } else {
        assert(a + b =~= a);
    }
}

proof fn lemma_all_known(events: Seq<EventV>, known: Seq<Seq<char>>)
    requires
        forall|i: int|
            0 <= i < events.len() ==> ((#[trigger] events[i]).raw_event_ref matches Some(r)
                ==> known.contains(r)),
    ensures
        forall|k: int|
            0 <= k < deduped(events, known).fresh.len() ==> (#[trigger] deduped(
                events,
                known,
            ).fresh[k]).raw_event_ref is None,
        deduped(events, known).seen == known,
    decreases events.len(),
{
    if events.len() > 0 {
        let t = events.drop_last();
        assert forall|i: int| 0 <= i < t.len() implies ((
        #[trigger] t[i]).raw_event_ref matches Some(r) ==> known.contains(r)) by {
            assert(t[i] == events[i]);
        }
        lemma_all_known(t, known);
        assert(events[events.len() - 1] == events.last());
    }
}

/// Taking up a transcript again writes no event with a reference a second time:
/// behind the events of the first time, all that could be new are events without
/// a reference.
pub proof fn transcripts_are_taken_up_once(existing: Seq<EventV>, events: Seq<EventV>)
    requires
        forall|i: int| 0 <= i < events.len() ==> (#[trigger] events[i]).source == Source::Transcript,
    ensures
        ({
            let first = deduped(events, known_refs(existing)).fresh;
            let second = deduped(events, known_refs(existing + first));
            &&& forall|k: int|
                0 <= k < second.fresh.len() ==> (#[trigger] second.fresh[k]).raw_event_ref is None
            &&& second.fresh.len() + second.skipped == events.len()
        }),
{
    let known = known_refs(existing);
    let d = deduped(events, known);
    let again = known_refs(existing + d.fresh);
    lemma_dedup_seen(events, known);
    assert forall|i: int| 0 <= i < events.len() implies ((
    #[trigger] events[i]).raw_event_ref matches Some(r) ==> again.contains(r)) by {
        if events[i].raw_event_ref is Some {
            let r = events[i].raw_event_ref->0;
            assert(d.seen.contains(r));
            if known.contains(r) {
                lemma_known_refs_prefix(existing, d.fresh, r);
            } else {
                let k = choose|k: int|
                    0 <= k < d.fresh.len() && (#[trigger] d.fresh[k]).raw_event_ref == Some(r);
                assert(events.contains(d.fresh[k]));
                let j = choose|j: int| 0 <= j < events.len() && events[j] == d.fresh[k];
                assert(events[j].source == Source::Transcript);
                assert((existing + d.fresh)[existing.len() + k] == d.fresh[k]);
                lemma_known_refs(existing + d.fresh, existing.len() + k);
            }
        }
    }
    lemma_all_known(events, again);
    lemma_dedup_seen(events, again);
}

/// Whether a payload names a session that can be a directory: a text that is not empty,
/// has no separator in it, and is neither the directory itself nor the one above.
pub open spec fn names_session(v: JsonV, id: Seq<char>) -> bool {
    &&& v.get("session_id"@) == Some(JsonV::Str(id))
    &&& id.len() > 0 && id != "."@ && id != ".."@
    &&& forall|i: int| 0 <= i < id.len() ==> #[trigger] id[i] != '/'
}

/// A payload is kept in the session that it names. One that names none, or one that is no
/// directory, is kept apart from the sessions, with an error that tells why: that it is no
/// JSON, no object, without an id, or with an id that is none.
pub proof fn payloads_are_kept_in_their_session(value: Result<JsonV, Seq<char>>, id: Seq<char>)
    ensures
        value is Ok && names_session(value->Ok_0, id) ==> prepared(value) == (
        PreparedV::Normalize { session: id, value: value->Ok_0 }),
        value is Err || (forall|x: Seq<char>| !#[trigger] names_session(value->Ok_0, x)) ==> {
            &&& prepared(value) matches PreparedV::Error { session, reason }
            &&& session == "unknown-session"@
            &&& match value {
                Err(why) => reason == NormalizeErrorV::MalformedJson(why),
                Ok(v) => match v.get("session_id"@) {
                    Some(JsonV::Str(x)) => reason == NormalizeErrorV::InvalidSessionId(x),
                    _ => if v is Object {
                        reason == NormalizeErrorV::MissingField("session_id"@)
                    } else {
                        reason is NotAnObject
                    },
                },
            }
        },
{
    if value is Ok {
        let v = value->Ok_0;
        match v.get("session_id"@) {
            Some(JsonV::Str(x)) => {
                if is_component(x) {
                    assert forall|i: int| 0 <= i < x.len() implies #[trigger] x[i] != '/' by {
                        assert(x.contains(x[i]));
                    }
                    assert(names_session(v, x));
                } else if names_session(v, x) {
                    let i = x.index_of('/');
                    assert(x[i] != '/');
                }
            },
            _ => {},
        }
    }
}

/// The number behind those of the references on disk is the next one behind the greatest of
/// them, and zero where there is none.
pub proof fn numbers_go_on_behind_the_greatest(records: Seq<RawRecordV>)
    ensures
        next_number(records) > 0 ==> exists|i: int|
            0 <= i < records.len() && (ref_number((#[trigger] records[i]).raw_ref) == Some(
                next_number(records) - 1,
            ) || ref_number(records[i].raw_ref) == Some(u64::MAX as int)),
        (forall|i: int| 0 <= i < records.len() ==> ref_number((#[trigger] records[i]).raw_ref) is None)
            ==> next_number(records) == 0,
    decreases records.len(),
{
    lemma_number_range(records);
    if records.len() > 0 {
        let t = records.drop_last();
        numbers_go_on_behind_the_greatest(t);
        lemma_number_range(t);
        if next_number(records) > 0 {
            if next_number(records) == next_number(t) {
                let i = choose|i: int|
                    0 <= i < t.len() && (ref_number((#[trigger] t[i]).raw_ref) == Some(
                        next_number(t) - 1,
                    ) || ref_number(t[i].raw_ref) == Some(u64::MAX as int));
                assert(records[i] == t[i]);
            } else {
                assert(records[records.len() - 1] == records.last());
            }
        }
        if forall|i: int|
            0 <= i < records.len() ==> ref_number((#[trigger] records[i]).raw_ref) is None {
            assert forall|i: int| 0 <= i < t.len() implies ref_number(
                (#[trigger] t[i]).raw_ref,
            ) is None by {
                assert(records[i] == t[i]);
            }
            assert(ref_number(records[records.len() - 1].raw_ref) is None);
        }
    }
}

/// The number of a reference is the one that it was made of.
pub proof fn references_tell_their_number(n: int)
    requires
        0 <= n <= u64::MAX,
    ensures
        ref_number(raw_ref_of(n)) == Some(n),
{
    let r = raw_ref_of(n);
    let prefix = "raw-"@;
    decimal_reads_back(n as nat);
    assert(r.subrange(0, prefix.len() as int) =~= prefix);
    assert(r.skip(prefix.len() as int) =~= decimal(n as nat));
    lemma_read_nat_wider(decimal(n as nat), n, u64::MAX as int);
}

/// Whether an event of a transcript is there already: its reference stands on one that was
/// read before it, or on an event of the session that comes from a transcript.
pub open spec fn is_there(e: EventV, before: Seq<EventV>, existing: Seq<EventV>) -> bool {
    e.raw_event_ref is Some && ((exists|i: int|
        0 <= i < before.len() && (#[trigger] before[i]).raw_event_ref == e.raw_event_ref) || (exists|
        j: int,
    |
        0 <= j < existing.len() && (#[trigger] existing[j]).raw_event_ref == e.raw_event_ref
            && existing[j].source == Source::Transcript))
}

proof fn lemma_known(events: Seq<EventV>, r: Seq<char>)
    ensures
        known_refs(events).contains(r) <==> exists|j: int|
            0 <= j < events.len() && (#[trigger] events[j]).raw_event_ref == Some(r)
                && events[j].source == Source::Transcript,
    decreases events.len(),
{
    if events.len() > 0 {
        let t = events.drop_last();
        lemma_known(t, r);
        let a = known_refs(t);
        let b = known_refs(events);
        if exists|j: int|
            0 <= j < events.len() && (#[trigger] events[j]).raw_event_ref == Some(r)
                && events[j].source == Source::Transcript {
            let j = choose|j: int|
                0 <= j < events.len() && (#[trigger] events[j]).raw_event_ref == Some(r)
                    && events[j].source == Source::Transcript;
            lemma_known_refs(events, j);
        }
        if b.contains(r) {
            let k = b.index_of(r);
            if k < a.len() {
                assert(a[k] == r);
                assert(a.contains(r));
                let j = choose|j: int|
                    0 <= j < t.len() && (#[trigger] t[j]).raw_event_ref == Some(r) && t[j].source
                        == Source::Transcript;
                assert(events[j] == t[j]);
            } else {
                assert(events[events.len() - 1].raw_event_ref == Some(r));
            }
        }
    }
}

/// An event is taken up behind those before it exactly if it is not there already, and
/// counted among those left out otherwise.
pub proof fn events_are_taken_up_where_they_are_new(
    before: Seq<EventV>,
    e: EventV,
    existing: Seq<EventV>,
)
    ensures
        ({
            let a = deduped(before, known_refs(existing));
            let b = deduped(before.push(e), known_refs(existing));
            if is_there(e, before, existing) {
                b.fresh == a.fresh && b.skipped == a.skipped + 1
            } else {
                b.fresh == a.fresh.push(e) && b.skipped == a.skipped
            }
        }),
        deduped(Seq::empty(), known_refs(existing)).fresh.len() == 0,
        deduped(Seq::empty(), known_refs(existing)).skipped == 0,
{
    let known = known_refs(existing);
    let a = deduped(before, known);
    assert(before.push(e).drop_last() =~= before);
    lemma_dedup_seen(before, known);
    if e.raw_event_ref is Some {
        let r = e.raw_event_ref->0;
        lemma_known(existing, r);
        lemma_seen_grows(before, known, r);
        if a.seen.contains(r) && !known.contains(r) {
            let k = choose|k: int|
                0 <= k < a.fresh.len() && (#[trigger] a.fresh[k]).raw_event_ref == Some(r);
            let i = before.index_of(a.fresh[k]);
            assert(before[i].raw_event_ref == e.raw_event_ref);
        }
    }
}

proof fn lemma_seen_grows(events: Seq<EventV>, known: Seq<Seq<char>>, r: Seq<char>)
    ensures
        known.contains(r) ==> deduped(events, known).seen.contains(r),
    decreases events.len(),
{
    if events.len() > 0 && known.contains(r) {
        lemma_seen_grows(events.drop_last(), known, r);
        let a = deduped(events.drop_last(), known).seen;
        let k = a.index_of(r);
        assert(deduped(events, known).seen[k] == r);
    }
}

/// The transcript is asked for exactly behind a payload that ends a turn or a session, with
/// the session and the path that it names.
pub proof fn transcripts_are_read_at_the_end(
    payload: JsonV,
    session: Seq<char>,
    path: Seq<char>,
)
    ensures
        transcript_at_end(payload) == Some((session, path)) <==> (payload.get("hook_event_name"@)
            == Some(JsonV::Str("Stop"@)) || payload.get("hook_event_name"@) == Some(
            JsonV::Str("SessionEnd"@),
        )) && payload.get("session_id"@) == Some(JsonV::Str(session)) && payload.get(
            "transcript_path"@,
        ) == Some(JsonV::Str(path)),
{
}

/// A transcript is told of exactly if an event was taken up from it or a line was left out,
/// with the numbers of each; lines that were there already are no reason to tell of it.
pub proof fn transcripts_are_told_of_with_their_numbers(
    session: Seq<char>,
    appended: int,
    unparseable: int,
    unrecognized: int,
    duplicates: int,
)
    requires
        appended >= 0,
        unparseable >= 0,
        unrecognized >= 0,
    ensures
        transcript_note_of(session, appended, unparseable, unrecognized, duplicates) is None
            <==> appended == 0 && unparseable == 0 && unrecognized == 0,
        transcript_note_of(session, appended, unparseable, unrecognized, duplicates) is Some
            ==> transcript_note_of(session, appended, unparseable, unrecognized, duplicates)->0
            == "agent-witness: transcript "@ + session + ": +"@ + decimal(appended as nat)
            + " event(s) (unparseable "@ + decimal(unparseable as nat) + ", unrecognized "@
            + decimal(unrecognized as nat) + ", duplicate "@ + decimal(duplicates as nat) + ")"@,
{
}

/// The next number of a session is the one behind the last that was issued, whatever lies on
/// disk; of a session that was not seen, it is the one behind those on disk.
pub proof fn issued_numbers_go_before_those_on_disk(
    r: Receiver,
    session: Seq<char>,
    on_disk: Seq<RawRecordV>,
    n: u64,
)
    ensures
        cached(r.cache(), session) == Some(n) ==> r.next(session, on_disk) == n,
        cached(r.cache(), session) is None ==> r.next(session, on_disk) == next_number(on_disk),
{
}

/// The number of a session that was seen is found by its name, the first where it stands
/// twice.
pub proof fn numbers_are_found_by_session(cache: Seq<(Seq<char>, u64)>, session: Seq<char>)
    ensures
        cached(cache, session) is None <==> forall|i: int|
            0 <= i < cache.len() ==> (#[trigger] cache[i]).0 != session,
        forall|i: int|
            0 <= i < cache.len() && (#[trigger] cache[i]).0 == session && (forall|j: int|
                0 <= j < i ==> (#[trigger] cache[j]).0 != session) ==> cached(cache, session)
                == Some(cache[i].1),
    decreases cache.len(),
{
    if cache.len() > 0 && cache[0].0 != session {
        let t = cache.skip(1);
        numbers_are_found_by_session(t, session);
        assert forall|i: int| 0 <= i < t.len() implies t[i] == #[trigger] cache[i + 1] by {}
        if cached(t, session) is None {
            assert forall|i: int| 0 <= i < cache.len() implies (#[trigger] cache[i]).0
                != session by {
                if i > 0 {
                    assert(t[i - 1] == cache[i]);
                }
            }
        } else {
            let i = choose|i: int| 0 <= i < t.len() && (#[trigger] t[i]).0 == session;
            assert(cache[i + 1].0 == session);
        }
        assert forall|i: int|
            0 <= i < cache.len() && (#[trigger] cache[i]).0 == session && (forall|j: int|
                0 <= j < i ==> (#[trigger] cache[j]).0 != session) implies cached(cache, session)
            == Some(cache[i].1) by {
            assert(i > 0);
            assert(t[i - 1] == cache[i]);
            assert forall|j: int| 0 <= j < i - 1 implies (#[trigger] t[j]).0 != session by {
                assert(cache[j + 1].0 != session);
            }
        }
    }
}

} // verus!
