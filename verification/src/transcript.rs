//! The session transcript as a best-effort, secondary event source.
//!
//! A bad line is counted, never fatal. Events from a transcript are observed,
//! never direct.
use vstd::prelude::*;

use crate::count::{how_many, lemma_how_many_some};
use crate::event::{
    event_views, fresh_event, AgentEvent, Attribution, EventKind, EventV, Source,
};
use crate::json::{items_view, lemma_json_view, member, members_view, Json, JsonV};
use crate::members::members_are_found_by_name;
use crate::outside::{parse, parsed};
use crate::rfc3339::{epoch_ms_from_rfc3339, instant_of};
use crate::split::{join, joined, lines, lines_of};
use crate::text::{blank, concat2, is_blank, same, views};

verus! {

/// Version of the transcript parsing contract.
pub const ADAPTER_VERSION: u32 = 1;

/// Prefix of the raw reference of a transcript event, before the line's `uuid`.
pub const TRANSCRIPT_RAW_REF_PREFIX: &'static str = "transcript:";

/// Confidence in a transcript event, nine tenths: the text certainly stands in
/// the transcript, but its schema is not a stable contract.
pub const CONFIDENCE_TRANSCRIPT: u64 = 0x3feccccccccccccd;

/// What became of one transcript line.
#[derive(Debug, PartialEq)]
pub enum LineOutcome {
    /// A recognized line gave one event.
    Event(AgentEvent),
    /// Valid JSON, but not a shape that events are taken from.
    Unrecognized,
    /// Not valid JSON.
    Unparseable,
}

/// The contents of a [`LineOutcome`].
pub ghost enum LineOutcomeV {
    Event(EventV),
    Unrecognized,
    Unparseable,
}

impl View for LineOutcome {
    type V = LineOutcomeV;

    open spec fn view(&self) -> LineOutcomeV {
        match self {
            LineOutcome::Event(e) => LineOutcomeV::Event(e@),
            LineOutcome::Unrecognized => LineOutcomeV::Unrecognized,
            LineOutcome::Unparseable => LineOutcomeV::Unparseable,
        }
    }
}

/// The text of one content block, if it is a text block with some text.
pub open spec fn block_text(block: JsonV) -> Option<Seq<char>> {
    if block.text_at("type"@) == Some("text"@) {
        match block.text_at("text"@) {
            Some(t) => if t.len() > 0 {
                Some(t)
            } else {
                None
            },
            None => None,
        }
    } else {
        None
    }
}

/// The texts of the text blocks, in order.
pub open spec fn block_texts(blocks: Seq<JsonV>) -> Seq<Seq<char>>
    decreases blocks.len(),
{
    if blocks.len() == 0 {
        Seq::<Seq<char>>::empty()
    } else {
        let before = block_texts(blocks.drop_last());
        match block_text(blocks.last()) {
            Some(t) => before.push(t),
            None => before,
        }
    }
}

/// The text blocks of an assistant message, one to a line; none for a turn
/// without text.
pub open spec fn message_text(line: JsonV) -> Option<Seq<char>> {
    match line.get("message"@) {
        Some(message) => match message.get("content"@) {
            Some(JsonV::Array(blocks)) => if block_texts(blocks).len() == 0 {
                None
            } else {
                Some(joined(block_texts(blocks), "\n"@))
            },
            _ => None,
        },
        None => None,
    }
}

/// The time of a line: its own timestamp where that can be read.
pub open spec fn line_time(line: JsonV, fallback: i64) -> int {
    match line.text_at("timestamp"@) {
        Some(t) => match instant_of(t) {
            Some(ms) => ms,
            None => fallback as int,
        },
        None => fallback as int,
    }
}

/// What becomes of a line that holds `value`, or that is no JSON.
pub open spec fn line_outcome(
    value: Option<JsonV>,
    session: Seq<char>,
    fallback: i64,
) -> LineOutcomeV {
    match value {
        None => LineOutcomeV::Unparseable,
        Some(line) => if !(line is Object) || line.text_at("type"@) != Some("assistant"@) {
            LineOutcomeV::Unrecognized
        } else {
            match message_text(line) {
                None => LineOutcomeV::Unrecognized,
                Some(text) => LineOutcomeV::Event(
                    EventV {
                        raw_event_ref: match line.text_at("uuid"@) {
                            Some(uuid) => Some("transcript:"@ + uuid),
                            None => None,
                        },
                        ..fresh_event(
                            line_time(line, fallback) as i64,
                            session,
                            Source::Transcript,
                            EventKind::Prompt,
                            Attribution::Observed,
                            CONFIDENCE_TRANSCRIPT,
                            JsonV::Object(
                                seq![
                                    ("adapter_version"@, JsonV::Int(1)),
                                    ("role"@, JsonV::Str("assistant"@)),
                                    ("text"@, JsonV::Str(text)),
                                    ("transcript_type"@, JsonV::Str("assistant"@)),
                                ],
                            ),
                        )
                    },
                ),
            }
        },
    }
}

fn collect_texts(blocks: &Vec<Json>) -> (out: Vec<String>)
    ensures
        views(out@) == block_texts(items_view(blocks@)),
{
    let ghost all = items_view(blocks@);
    let mut out: Vec<String> = Vec::new();
    proof {
        assert(views(out@) =~= block_texts(all.take(0)));
    }
    for i in 0..blocks.len()
        invariant
            all == items_view(blocks@),
            views(out@) == block_texts(all.take(i as int)),
    {
        proof {
            assert(all.take(i + 1).drop_last() =~= all.take(i as int));
            assert(all.take(i + 1).last() == blocks@[i as int]@);
        }
        let block = &blocks[i];
        let ghost out0 = out@;
        let is_text = match block.str_at("type") {
            Some(t) => same(t, "text"),
            None => false,
        };
        if is_text {
            match block.str_at("text") {
                Some(t) => {
                    if !t.is_empty() {
                        out.push(t.to_owned());
                        proof {
                            assert(views(out@) =~= views(out0).push(t@));
                        }
                    }
                },
                None => {},
            }
        }
    }
    proof {
        assert(all.take(all.len() as int) =~= all);
    }
    out
}

fn assistant_text(line: &Json) -> (r: Option<String>)
    ensures
        match r {
            Some(t) => message_text(line@) == Some(t@),
            None => message_text(line@) is None,
        },
{
    let message = match line.get("message") {
        Some(m) => m,
        None => {
            return None;
        },
    };
    let content = match message.get("content") {
        Some(c) => c,
        None => {
            return None;
        },
    };
    let blocks = match content.as_array() {
        Some(b) => b,
        None => {
            return None;
        },
    };
    let parts = collect_texts(blocks);
    proof {
        assert(views(parts@).len() == parts@.len());
    }
    if parts.len() == 0 {
        None
    } else {
        Some(join(&parts, "\n"))
    }
}

/// Classifies a parsed transcript line, and turns a recognized one into an
/// event. `fallback_ts` is the time of a line without a readable timestamp.
pub fn classify_line(value: Option<&Json>, session: &str, fallback_ts: i64) -> (r: LineOutcome)
    ensures
        r@ == line_outcome(
            match value {
                Some(v) => Some(v@),
                None => None,
            },
            session@,
            fallback_ts,
        ),
{
    broadcast use lemma_json_view;

    let line = match value {
        Some(v) => v,
        None => {
            return LineOutcome::Unparseable;
        },
    };
    let assistant = line.is_object() && match line.str_at("type") {
        Some(t) => same(t, "assistant"),
        None => false,
    };
    if !assistant {
        return LineOutcome::Unrecognized;
    }
    let text = match assistant_text(line) {
        Some(t) => t,
        None => {
            return LineOutcome::Unrecognized;
        },
    };
    let ts: i64 = match line.str_at("timestamp") {
        Some(t) => match epoch_ms_from_rfc3339(t) {
            Some(ms) => ms,
            None => fallback_ts,
        },
        None => fallback_ts,
    };
    let ghost tv = text@;
    let mut payload: Vec<(String, Json)> = Vec::new();
    payload.push(("adapter_version".to_owned(), Json::Uint(1)));
    payload.push(("role".to_owned(), Json::Str("assistant".to_owned())));
    payload.push(("text".to_owned(), Json::Str(text)));
    payload.push(("transcript_type".to_owned(), Json::Str("assistant".to_owned())));
    proof {
        assert(members_view(payload@) =~= seq![
            ("adapter_version"@, JsonV::Int(1)),
            ("role"@, JsonV::Str("assistant"@)),
            ("text"@, JsonV::Str(tv)),
            ("transcript_type"@, JsonV::Str("assistant"@)),
        ]);
    }
    let mut event = AgentEvent::new(
        ts,
        session,
        Source::Transcript,
        EventKind::Prompt,
        Attribution::Observed,
        CONFIDENCE_TRANSCRIPT,
        Json::Object(payload),
    );
    match line.str_at("uuid") {
        Some(uuid) => {
            event.raw_event_ref = Some(concat2("transcript:", uuid));
        },
        None => {},
    }
    LineOutcome::Event(event)
}

/// Reads and classifies one transcript line.
pub fn parse_line(line: &str, session: &str, fallback_ts: i64) -> (r: LineOutcome)
    ensures
        r@ == line_outcome(parsed(line@), session@, fallback_ts),
{
    match parse(line) {
        Ok(v) => classify_line(Some(&v), session, fallback_ts),
        Err(_) => classify_line(None, session, fallback_ts),
    }
}

/// How the lines of a transcript were classified.
#[derive(Debug, Clone, Copy, PartialEq, Eq, Structural)]
pub struct TranscriptStats {
    /// Non-blank lines processed.
    pub total_lines: usize,
    /// Lines that gave an event.
    pub events_extracted: usize,
    /// Lines that were not valid JSON.
    pub skipped_unparseable: usize,
    /// Valid lines of a shape that events are not taken from.
    pub skipped_unrecognized: usize,
}

/// The numbers of a [`TranscriptStats`].
pub ghost struct StatsV {
    pub total_lines: int,
    pub events_extracted: int,
    pub skipped_unparseable: int,
    pub skipped_unrecognized: int,
}

impl View for TranscriptStats {
    type V = StatsV;

    open spec fn view(&self) -> StatsV {
        StatsV {
            total_lines: self.total_lines as int,
            events_extracted: self.events_extracted as int,
            skipped_unparseable: self.skipped_unparseable as int,
            skipped_unrecognized: self.skipped_unrecognized as int,
        }
    }
}

/// Events taken from a transcript, and how its lines were classified.
#[derive(Debug, PartialEq)]
pub struct TranscriptRead {
    /// Supplementary events, in transcript order.
    pub events: Vec<AgentEvent>,
    /// How the lines were classified.
    pub stats: TranscriptStats,
}

/// The contents of a [`TranscriptRead`].
pub ghost struct TranscriptReadV {
    pub events: Seq<EventV>,
    pub stats: StatsV,
}

impl View for TranscriptRead {
    type V = TranscriptReadV;

    open spec fn view(&self) -> TranscriptReadV {
        TranscriptReadV { events: event_views(self.events@), stats: self.stats@ }
    }
}

/// The reading with one more line of the given outcome.
pub open spec fn with_outcome(read: TranscriptReadV, outcome: LineOutcomeV) -> TranscriptReadV {
    let s = read.stats;
    match outcome {
        LineOutcomeV::Event(e) => TranscriptReadV {
            events: read.events.push(e),
            stats: StatsV {
                total_lines: s.total_lines + 1,
                events_extracted: s.events_extracted + 1,
                ..s
            },
        },
        LineOutcomeV::Unrecognized => TranscriptReadV {
            events: read.events,
            stats: StatsV {
                total_lines: s.total_lines + 1,
                skipped_unrecognized: s.skipped_unrecognized + 1,
                ..s
            },
        },
        LineOutcomeV::Unparseable => TranscriptReadV {
            events: read.events,
            stats: StatsV {
                total_lines: s.total_lines + 1,
                skipped_unparseable: s.skipped_unparseable + 1,
                ..s
            },
        },
    }
}

/// What is read from the lines of a transcript; blank ones are left out.
pub open spec fn read_lines(
    all: Seq<Seq<char>>,
    session: Seq<char>,
    fallback: i64,
) -> TranscriptReadV
    decreases all.len(),
{
    if all.len() == 0 {
        TranscriptReadV {
            events: Seq::<EventV>::empty(),
            stats: StatsV {
                total_lines: 0,
                events_extracted: 0,
                skipped_unparseable: 0,
                skipped_unrecognized: 0,
            },
        }
    } else {
        let before = read_lines(all.drop_last(), session, fallback);
        if is_blank(all.last()) {
            before
        } else {
            with_outcome(before, line_outcome(parsed(all.last()), session, fallback))
        }
    }
}

/// What is read from a transcript.
pub open spec fn transcript_of(
    content: Seq<char>,
    session: Seq<char>,
    fallback: i64,
) -> TranscriptReadV {
    read_lines(lines_of(content), session, fallback)
}

impl TranscriptRead {
    /// A reading of no line.
    pub fn empty() -> (r: TranscriptRead)
        ensures
            r@ == read_lines(Seq::<Seq<char>>::empty(), Seq::<char>::empty(), 0),
    {
        let r = TranscriptRead {
            events: Vec::new(),
            stats: TranscriptStats {
                total_lines: 0,
                events_extracted: 0,
                skipped_unparseable: 0,
                skipped_unrecognized: 0,
            },
        };
        proof {
            assert(event_views(r.events@) =~= Seq::<EventV>::empty());
        }
        r
    }

    /// Takes up the outcome of one more line.
    pub fn push(&mut self, outcome: LineOutcome)
        requires
            old(self).stats@.adds_up(),
            old(self).stats.total_lines < usize::MAX,
        ensures
            final(self)@ == with_outcome(old(self)@, outcome@),
    {
        let ghost ev0 = event_views(self.events@);
        self.stats.total_lines = self.stats.total_lines + 1;
        match outcome {
            LineOutcome::Event(e) => {
                let ghost e0 = e@;
                self.events.push(e);
                self.stats.events_extracted = self.stats.events_extracted + 1;
                proof {
                    assert(event_views(self.events@) =~= ev0.push(e0));
                }
            },
            LineOutcome::Unrecognized => {
                self.stats.skipped_unrecognized = self.stats.skipped_unrecognized + 1;
            },
            LineOutcome::Unparseable => {
                self.stats.skipped_unparseable = self.stats.skipped_unparseable + 1;
            },
        }
    }
}

impl StatsV {
    /// Whether every line is accounted for.
    pub open spec fn adds_up(self) -> bool {
        self.total_lines == self.events_extracted + self.skipped_unparseable
            + self.skipped_unrecognized
    }
}

/// Reads the contents of a whole transcript file.
///
/// Blank lines are ignored; lines that cannot be read or are not recognized are
/// counted, never fatal.
pub fn parse_transcript(content: &str, session: &str, fallback_ts: i64) -> (r: TranscriptRead)
    ensures
        r@ == transcript_of(content@, session@, fallback_ts),
        r.stats@.adds_up(),
{
    let all = lines(content);
    let ghost av = views(all@);
    let n: usize = all.len();
    let mut out = TranscriptRead::empty();
    proof {
        assert(out@ == read_lines(av.take(0), session@, fallback_ts));
    }
    for i in 0..n
        invariant
            n == all@.len(),
            av == views(all@),
            out@ == read_lines(av.take(i as int), session@, fallback_ts),
            out.stats@.adds_up(),
            out.stats.total_lines <= i,
    {
        proof {
            assert(av.take(i + 1).drop_last() =~= av.take(i as int));
            assert(av.take(i + 1).last() == all@[i as int]@);
        }
        let line = all[i].as_str();
        if !blank(line) {
            out.push(parse_line(line, session, fallback_ts));
        }
    }
    proof {
        assert(av.take(av.len() as int) =~= av);
    }
    out
}

// ---------------------------------------------------------------------------
// Laws
// ---------------------------------------------------------------------------

/// Every non-blank line of a transcript is accounted for, and there is one event
/// for each line that gave one.
pub proof fn every_line_is_accounted_for(all: Seq<Seq<char>>, session: Seq<char>, fallback: i64)
    ensures
        read_lines(all, session, fallback).stats.adds_up(),
        read_lines(all, session, fallback).stats.events_extracted == read_lines(
            all,
            session,
            fallback,
        ).events.len(),
        0 <= read_lines(all, session, fallback).stats.total_lines <= all.len(),
    decreases all.len(),
{
    if all.len() > 0 {
        every_line_is_accounted_for(all.drop_last(), session, fallback);
    }
}

/// Every event from a transcript is observed, from the transcript, and less than
/// fully confident.
pub proof fn transcript_events_are_observed(
    all: Seq<Seq<char>>,
    session: Seq<char>,
    fallback: i64,
    i: int,
)
    requires
        0 <= i < read_lines(all, session, fallback).events.len(),
    ensures
        read_lines(all, session, fallback).events[i].attribution == Attribution::Observed,
        read_lines(all, session, fallback).events[i].source == Source::Transcript,
        read_lines(all, session, fallback).events[i].confidence == CONFIDENCE_TRANSCRIPT,
        read_lines(all, session, fallback).events[i].session == session,
    decreases all.len(),
{
    if all.len() > 0 {
        let before = read_lines(all.drop_last(), session, fallback);
        if i < before.events.len() {
            transcript_events_are_observed(all.drop_last(), session, fallback, i);
        }
    }
}

/// Whether a content block is one of text.
pub open spec fn is_text_block(block: JsonV) -> bool {
    &&& block.get("type"@) == Some(JsonV::Str("text"@))
    &&& block.get("text"@) matches Some(JsonV::Str(t)) && t.len() > 0
}

/// The texts of a message are those of its text blocks, and of no other blocks, in order.
pub proof fn texts_are_those_of_text_blocks(blocks: Seq<JsonV>)
    ensures
        block_texts(blocks) == blocks.filter(|b: JsonV| is_text_block(b)).map_values(
            |b: JsonV| b.text_at("text"@)->0,
        ),
    decreases blocks.len(),
{
    let p = |b: JsonV| is_text_block(b);
    let f = |b: JsonV| b.text_at("text"@)->0;
    reveal(Seq::filter);
    if blocks.len() > 0 {
        let t = blocks.drop_last();
        texts_are_those_of_text_blocks(t);
        if p(blocks.last()) {
            assert(t.filter(p).push(blocks.last()).map_values(f) =~= t.filter(p).map_values(f).push(
                f(blocks.last()),
            ));
        }
        assert(block_texts(blocks) =~= blocks.filter(p).map_values(f));
    } else {
        assert(block_texts(blocks) =~= blocks.filter(p).map_values(f));
    }
}

/// Whether a line that holds `v` is an assistant's, with some text in `blocks`.
pub open spec fn is_spoken(v: JsonV, blocks: Seq<JsonV>) -> bool {
    &&& v.get("type"@) == Some(JsonV::Str("assistant"@))
    &&& v.get("message"@) matches Some(message) && message.get("content"@) == Some(
        JsonV::Array(blocks),
    )
    &&& exists|i: int| 0 <= i < blocks.len() && is_text_block(#[trigger] blocks[i])
}

proof fn lemma_some_text(blocks: Seq<JsonV>)
    ensures
        block_texts(blocks).len() > 0 <==> exists|i: int|
            0 <= i < blocks.len() && is_text_block(#[trigger] blocks[i]),
{
    let p = |b: JsonV| is_text_block(b);
    texts_are_those_of_text_blocks(blocks);
    lemma_how_many_some(blocks, p);
    if how_many(blocks, p) > 0 {
        let i = choose|i: int| 0 <= i < blocks.len() && p(#[trigger] blocks[i]);
        assert(is_text_block(blocks[i]));
    }
    if exists|i: int| 0 <= i < blocks.len() && is_text_block(#[trigger] blocks[i]) {
        let i = choose|i: int| 0 <= i < blocks.len() && is_text_block(#[trigger] blocks[i]);
        assert(p(blocks[i]));
    }
}

/// What an assistant says is taken up with its text, its time and its reference; what is no
/// JSON is told apart from what is JSON and nothing that an assistant says.
pub proof fn what_is_spoken_is_taken_up(
    value: Option<JsonV>,
    blocks: Seq<JsonV>,
    session: Seq<char>,
    fallback: i64,
)
    ensures
        value is None <==> line_outcome(value, session, fallback) is Unparseable,
        value is Some && is_spoken(value->0, blocks) ==> {
            let v = value->0;
            &&& line_outcome(value, session, fallback) matches LineOutcomeV::Event(e)
            &&& e.session == session
            &&& e.kind == EventKind::Prompt
            &&& e.source == Source::Transcript
            &&& e.attribution == Attribution::Observed
            &&& e.payload.text_at("role"@) == Some("assistant"@)
            &&& e.payload.text_at("text"@) == Some(joined(block_texts(blocks), "\n"@))
            &&& match v.get("uuid"@) {
                Some(JsonV::Str(uuid)) => e.raw_event_ref == Some("transcript:"@ + uuid),
                _ => e.raw_event_ref is None,
            }
            &&& match v.get("timestamp"@) {
                Some(JsonV::Str(t)) => match instant_of(t) {
                    Some(ms) => i64::MIN <= ms <= i64::MAX ==> e.ts == ms,
                    None => e.ts == fallback,
                },
                _ => e.ts == fallback,
            }
        },
        value is Some && (forall|b: Seq<JsonV>| !#[trigger] is_spoken(value->0, b))
            ==> line_outcome(value, session, fallback) is Unrecognized,
{
    if value is Some {
        let v = value->0;
        match v.get("message"@) {
            Some(message) => match message.get("content"@) {
                Some(JsonV::Array(b)) => {
                    lemma_some_text(b);
                    if block_texts(b).len() > 0 && v.text_at("type"@) == Some("assistant"@) {
                        assert(v.get("type"@) == Some(JsonV::Str("assistant"@)));
                        assert(message.get("content"@) == Some(JsonV::Array(b)));
                        assert(is_spoken(v, b));
                    }
                    if is_spoken(v, blocks) {
                        lemma_payload_texts(joined(block_texts(b), "\n"@));
                    }
                },
                _ => {},
            },
            None => {},
        }
    }
}

proof fn lemma_payload_texts(text: Seq<char>)
    ensures
        JsonV::Object(
            seq![
                ("adapter_version"@, JsonV::Int(1)),
                ("role"@, JsonV::Str("assistant"@)),
                ("text"@, JsonV::Str(text)),
                ("transcript_type"@, JsonV::Str("assistant"@)),
            ],
        ).text_at("role"@) == Some("assistant"@),
        JsonV::Object(
            seq![
                ("adapter_version"@, JsonV::Int(1)),
                ("role"@, JsonV::Str("assistant"@)),
                ("text"@, JsonV::Str(text)),
                ("transcript_type"@, JsonV::Str("assistant"@)),
            ],
        ).text_at("text"@) == Some(text),
{
    reveal_strlit("adapter_version");
    reveal_strlit("role");
    reveal_strlit("text");
    assert("adapter_version"@.len() == 15 && "role"@.len() == 4 && "text"@.len() == 4);
    assert("role"@[0] == 'r' && "text"@[0] == 't');
    let m = seq![
        ("adapter_version"@, JsonV::Int(1)),
        ("role"@, JsonV::Str("assistant"@)),
        ("text"@, JsonV::Str(text)),
        ("transcript_type"@, JsonV::Str("assistant"@)),
    ];
    members_are_found_by_name(m, "role"@);
    assert(m[0].0 == "adapter_version"@ && m[1].0 == "role"@ && m[2].0 == "text"@);
    members_are_found_by_name(m, "text"@);
    assert(member(m, "role"@) == Some(m[1].1));
    assert(member(m, "text"@) == Some(m[2].1));
}

/// One line more adds its own event and nothing else to what was read before, and is
/// counted for what it is; a blank one changes nothing.
pub proof fn lines_are_read_one_by_one(
    before: Seq<Seq<char>>,
    l: Seq<char>,
    session: Seq<char>,
    fallback: i64,
)
    ensures
        is_blank(l) ==> read_lines(before.push(l), session, fallback) == read_lines(
            before,
            session,
            fallback,
        ),
        !is_blank(l) ==> {
            let a = read_lines(before, session, fallback);
            let b = read_lines(before.push(l), session, fallback);
            &&& b.stats.total_lines == a.stats.total_lines + 1
            &&& match line_outcome(parsed(l), session, fallback) {
                LineOutcomeV::Event(e) => b.events == a.events.push(e)
                    && b.stats.skipped_unparseable == a.stats.skipped_unparseable
                    && b.stats.skipped_unrecognized == a.stats.skipped_unrecognized,
                LineOutcomeV::Unparseable => b.events == a.events && b.stats.skipped_unparseable
                    == a.stats.skipped_unparseable + 1 && b.stats.skipped_unrecognized
                    == a.stats.skipped_unrecognized,
                LineOutcomeV::Unrecognized => b.events == a.events && b.stats.skipped_unparseable
                    == a.stats.skipped_unparseable && b.stats.skipped_unrecognized
                    == a.stats.skipped_unrecognized + 1,
            }
        },
{
    assert(before.push(l).drop_last() =~= before);
}

} // verus!
