//! Events grouped into a timeline.
//!
//! A tool call and its result, paired by the id of the tool use, are one entry;
//! every other event is an entry of its own. A call without a result is neither
//! dropped nor taken for a success.
use vstd::prelude::*;

use crate::event::{event_views, AgentEvent, Attribution, EventKind, EventV, Source};
use crate::json::JsonV;
use crate::selector::{count_kind, tool_calls_in};
use crate::split::{flat, one_line};
use crate::text::same;

verus! {

/// The outcome of a tool call, as observed from the hooks.
#[derive(Debug, Clone, Copy, PartialEq, Eq, Structural)]
pub enum ToolStatus {
    /// Completed with a result.
    Okay,
    /// Reported an explicit failure.
    Failed,
    /// No result was observed: a failed command, a call in progress or a missing
    /// hook. Never taken for a success.
    NoResult,
}

impl ToolStatus {
    /// The label of an outcome.
    pub open spec fn spec_label(self) -> Seq<char> {
        match self {
            ToolStatus::Okay => "ok"@,
            ToolStatus::Failed => "failed"@,
            ToolStatus::NoResult => "no-result"@,
        }
    }

    /// Short label for a timeline row.
    pub fn label(self) -> (r: &'static str)
        ensures
            r@ == self.spec_label(),
    {
        match self {
            ToolStatus::Okay => "ok",
            ToolStatus::Failed => "failed",
            ToolStatus::NoResult => "no-result",
        }
    }
}

/// One row of the timeline.
#[derive(Debug, PartialEq)]
pub struct TimelineEntry {
    /// Start time of the entry, Unix epoch milliseconds.
    pub ts: i64,
    /// Attribution of the primary event.
    pub attribution: Attribution,
    /// Origin of the primary event.
    pub source: Source,
    /// The outcome of a tool row; none for the other rows.
    pub tool_status: Option<ToolStatus>,
    /// Elapsed time of the tool call, if a result reported it.
    pub duration_ms: Option<i64>,
    /// Short tag: the tool name, or the kind of the event.
    pub tag: String,
    /// One-line summary.
    pub summary: String,
    /// The primary event.
    pub call: AgentEvent,
    /// The paired result, if any.
    pub result: Option<AgentEvent>,
}

/// The contents of a [`TimelineEntry`].
pub ghost struct EntryV {
    pub ts: i64,
    pub attribution: Attribution,
    pub source: Source,
    pub tool_status: Option<ToolStatus>,
    pub duration_ms: Option<int>,
    pub tag: Seq<char>,
    pub summary: Seq<char>,
    pub call: EventV,
    pub result: Option<EventV>,
}

impl View for TimelineEntry {
    type V = EntryV;

    open spec fn view(&self) -> EntryV {
        EntryV {
            ts: self.ts,
            attribution: self.attribution,
            source: self.source,
            tool_status: self.tool_status,
            duration_ms: match self.duration_ms {
                Some(d) => Some(d as int),
                None => None,
            },
            tag: self.tag@,
            summary: self.summary@,
            call: self.call@,
            result: match self.result {
                Some(e) => Some(e@),
                None => None,
            },
        }
    }
}

/// The contents of a list of entries.
pub open spec fn entry_views(v: Seq<TimelineEntry>) -> Seq<EntryV> {
    Seq::new(v.len(), |i: int| v[i]@)
}

/// Whether an event reports the result of a tool.
pub open spec fn is_result(e: EventV) -> bool {
    e.kind == EventKind::ToolResult || e.kind == EventKind::ToolFailure
}

/// The position of the first result of a tool use, from `from` on.
pub open spec fn result_from(events: Seq<EventV>, id: Seq<char>, from: int) -> Option<int>
    decreases events.len() - from,
{
    if from < 0 || from >= events.len() {
        None
    } else if is_result(events[from]) && events[from].text("tool_use_id"@) == Some(id) {
        Some(from)
    } else {
        result_from(events, id, from + 1)
    }
}

/// The position of the result that belongs to the tool call at `j`.
pub open spec fn paired(events: Seq<EventV>, j: int) -> Option<int> {
    match events[j].text("tool_use_id"@) {
        Some(id) => result_from(events, id, 0),
        None => None,
    }
}

/// Whether the result at `i` belongs to one of the first `upto` events.
pub open spec fn folded(events: Seq<EventV>, i: int, upto: int) -> bool {
    exists|j: int|
        0 <= j < upto && j < events.len() && #[trigger] events[j].kind == EventKind::ToolCall
            && paired(events, j) == Some(i)
}

/// The outcome that a result reports.
pub open spec fn status_of(result: EventV) -> ToolStatus {
    if result.kind == EventKind::ToolFailure {
        ToolStatus::Failed
    } else {
        ToolStatus::Okay
    }
}

/// The duration that a result reports.
pub open spec fn duration_of(result: EventV) -> Option<int> {
    match result.payload.get("duration_ms"@) {
        Some(v) => v.int64(),
        None => None,
    }
}

/// The tag of a tool row: the tool name where there is one.
pub open spec fn tool_tag_of(e: EventV) -> Seq<char> {
    match e.text("tool_name"@) {
        Some(name) => name,
        None => "tool"@,
    }
}

/// The summary of a tool row: the most telling field of the tool input, on one
/// line.
pub open spec fn tool_summary_of(e: EventV) -> Seq<char> {
    match e.input("file_path"@) {
        Some(s) => flat(s),
        None => match e.input("command"@) {
            Some(s) => flat(s),
            None => match e.input("path"@) {
                Some(s) => flat(s),
                None => match e.input("pattern"@) {
                    Some(s) => flat(s),
                    None => match e.input("url"@) {
                        Some(s) => flat(s),
                        None => match e.input("description"@) {
                            Some(s) => flat(s),
                            None => Seq::<char>::empty(),
                        },
                    },
                },
            },
        },
    }
}

/// The tag of a row that is no tool row.
pub open spec fn meta_tag_of(kind: EventKind) -> Seq<char> {
    match kind {
        EventKind::SessionStart => "SESSION"@,
        EventKind::Prompt => "PROMPT"@,
        EventKind::Stop => "STOP"@,
        EventKind::SessionEnd => "END"@,
        EventKind::Error => "ERROR"@,
        _ => "TOOL"@,
    }
}

/// The payload field that a row of a kind is summarized by.
pub open spec fn meta_key_of(kind: EventKind) -> Option<Seq<char>> {
    match kind {
        EventKind::SessionStart => Some("source"@),
        EventKind::Prompt => Some("prompt"@),
        EventKind::Stop => Some("last_assistant_message"@),
        EventKind::SessionEnd => Some("reason"@),
        EventKind::Error => Some("error"@),
        _ => None,
    }
}

/// The summary of a row that is no tool row.
pub open spec fn meta_summary_of(e: EventV) -> Seq<char> {
    match meta_key_of(e.kind) {
        Some(key) => match e.text(key) {
            Some(s) => flat(s),
            None => Seq::<char>::empty(),
        },
        None => Seq::<char>::empty(),
    }
}

/// The entry of the event at `i`.
pub open spec fn entry_of(events: Seq<EventV>, i: int) -> EntryV {
    let e = events[i];
    if e.kind == EventKind::ToolCall {
        let result = match paired(events, i) {
            Some(r) => Some(events[r]),
            None => None,
        };
        EntryV {
            ts: e.ts,
            attribution: e.attribution,
            source: e.source,
            tool_status: Some(
                match result {
                    Some(r) => status_of(r),
                    None => ToolStatus::NoResult,
                },
            ),
            duration_ms: match result {
                Some(r) => duration_of(r),
                None => None,
            },
            tag: tool_tag_of(e),
            summary: tool_summary_of(e),
            call: e,
            result,
        }
    } else if is_result(e) {
        EntryV {
            ts: e.ts,
            attribution: e.attribution,
            source: e.source,
            tool_status: Some(status_of(e)),
            duration_ms: duration_of(e),
            tag: tool_tag_of(e),
            summary: tool_summary_of(e),
            call: e,
            result: None,
        }
    } else {
        EntryV {
            ts: e.ts,
            attribution: e.attribution,
            source: e.source,
            tool_status: None,
            duration_ms: None,
            tag: meta_tag_of(e.kind),
            summary: meta_summary_of(e),
            call: e,
            result: None,
        }
    }
}

/// The entries of the first `k` events: all but the results that belong to a call
/// before them.
pub open spec fn rows(events: Seq<EventV>, k: int) -> Seq<EntryV>
    decreases k,
{
    if k <= 0 {
        Seq::<EntryV>::empty()
    } else if is_result(events[k - 1]) && folded(events, k - 1, k - 1) {
        rows(events, k - 1)
    } else {
        rows(events, k - 1).push(entry_of(events, k - 1))
    }
}

/// The timeline of a list of events.
pub open spec fn timeline_of(events: Seq<EventV>) -> Seq<EntryV> {
    rows(events, events.len() as int)
}

fn result_event(e: &AgentEvent) -> (r: bool)
    ensures
        r == is_result(e@),
{
    match e.kind {
        EventKind::ToolResult => true,
        EventKind::ToolFailure => true,
        _ => false,
    }
}

proof fn lemma_result_from(events: Seq<EventV>, id: Seq<char>, from: int, k: int)
    requires
        0 <= from <= k <= events.len(),
        forall|j: int|
            from <= j < k ==> !(is_result(#[trigger] events[j]) && events[j].text("tool_use_id"@)
                == Some(id)),
        k < events.len() ==> is_result(events[k]) && events[k].text("tool_use_id"@) == Some(id),
    ensures
        result_from(events, id, from) == (if k < events.len() {
            Some(k)
        } else {
            None::<int>
        }),
    decreases k - from,
{
    if from < k {
        assert(!(is_result(events[from]) && events[from].text("tool_use_id"@) == Some(id)));
        lemma_result_from(events, id, from + 1, k);
    }
}

/// The position of the result that belongs to a tool call.
fn result_of_call(events: &[AgentEvent], j: usize) -> (r: Option<usize>)
    requires
        j < events@.len(),
    ensures
        match r {
            Some(k) => k < events@.len() && paired(event_views(events@), j as int) == Some(
                k as int,
            ),
            None => paired(event_views(events@), j as int) is None,
        },
{
    let ghost ev = event_views(events@);
    let id = match events[j].str_field("tool_use_id") {
        Some(id) => id,
        None => {
            return None;
        },
    };
    let n: usize = events.len();
    let mut k: usize = 0;
    while k < n
        invariant
            n == events@.len(),
            ev == event_views(events@),
            k <= n,
            j < n,
            ev[j as int].text("tool_use_id"@) == Some(id@),
            forall|i: int|
                0 <= i < k ==> !(is_result(#[trigger] ev[i]) && ev[i].text("tool_use_id"@) == Some(
                    id@,
                )),
        decreases n - k,
    {
        proof {
            assert(ev[k as int] == events@[k as int]@);
        }
        let matches = result_event(&events[k]) && match events[k].str_field("tool_use_id") {
            Some(other) => same(other, id),
            None => false,
        };
        if matches {
            proof {
                lemma_result_from(ev, id@, 0, k as int);
            }
            return Some(k);
        }
        k = k + 1;
    }
    proof {
        lemma_result_from(ev, id@, 0, n as int);
    }
    None
}

fn result_status(e: &AgentEvent) -> (r: ToolStatus)
    ensures
        r == status_of(e@),
{
    match e.kind {
        EventKind::ToolFailure => ToolStatus::Failed,
        _ => ToolStatus::Okay,
    }
}

fn result_duration(e: &AgentEvent) -> (r: Option<i64>)
    ensures
        match r {
            Some(d) => duration_of(e@) == Some(d as int),
            None => duration_of(e@) is None,
        },
{
    match e.payload.get("duration_ms") {
        Some(v) => v.as_i64(),
        None => None,
    }
}

fn tool_tag(e: &AgentEvent) -> (r: String)
    ensures
        r@ == tool_tag_of(e@),
{
    match e.str_field("tool_name") {
        Some(name) => name.to_owned(),
        None => "tool".to_owned(),
    }
}

fn tool_summary(e: &AgentEvent) -> (r: String)
    ensures
        r@ == tool_summary_of(e@),
{
    match e.tool_input_str("file_path") {
        Some(s) => one_line(s),
        None => match e.tool_input_str("command") {
            Some(s) => one_line(s),
            None => match e.tool_input_str("path") {
                Some(s) => one_line(s),
                None => match e.tool_input_str("pattern") {
                    Some(s) => one_line(s),
                    None => match e.tool_input_str("url") {
                        Some(s) => one_line(s),
                        None => match e.tool_input_str("description") {
                            Some(s) => one_line(s),
                            None => String::new(),
                        },
                    },
                },
            },
        },
    }
}

fn meta_tag(kind: EventKind) -> (r: String)
    ensures
        r@ == meta_tag_of(kind),
{
    let tag = match kind {
        EventKind::SessionStart => "SESSION",
        EventKind::Prompt => "PROMPT",
        EventKind::Stop => "STOP",
        EventKind::SessionEnd => "END",
        EventKind::Error => "ERROR",
        _ => "TOOL",
    };
    tag.to_owned()
}

fn meta_summary(e: &AgentEvent) -> (r: String)
    ensures
        r@ == meta_summary_of(e@),
{
    let key = match e.kind {
        EventKind::SessionStart => "source",
        EventKind::Prompt => "prompt",
        EventKind::Stop => "last_assistant_message",
        EventKind::SessionEnd => "reason",
        EventKind::Error => "error",
        _ => {
            return String::new();
        },
    };
    match e.str_field(key) {
        Some(s) => one_line(s),
        None => String::new(),
    }
}

fn build_entry(events: &[AgentEvent], i: usize, result: Option<usize>) -> (r: TimelineEntry)
    requires
        i < events@.len(),
        match result {
            Some(k) => k < events@.len() && paired(event_views(events@), i as int) == Some(
                k as int,
            ),
            None => events@[i as int].kind == EventKind::ToolCall ==> paired(
                event_views(events@),
                i as int,
            ) is None,
        },
        result is Some ==> events@[i as int].kind == EventKind::ToolCall,
    ensures
        r@ == entry_of(event_views(events@), i as int),
{
    let e = &events[i];
    match e.kind {
        EventKind::ToolCall => {
            let (status, duration, paired_event) = match result {
                Some(k) => (
                    result_status(&events[k]),
                    result_duration(&events[k]),
                    Some(events[k].clone()),
                ),
                None => (ToolStatus::NoResult, None, None),
            };
            TimelineEntry {
                ts: e.ts,
                attribution: e.attribution,
                source: e.source,
                tool_status: Some(status),
                duration_ms: duration,
                tag: tool_tag(e),
                summary: tool_summary(e),
                call: e.clone(),
                result: paired_event,
            }
        },
        EventKind::ToolResult | EventKind::ToolFailure => TimelineEntry {
            ts: e.ts,
            attribution: e.attribution,
            source: e.source,
            tool_status: Some(result_status(e)),
            duration_ms: result_duration(e),
            tag: tool_tag(e),
            summary: tool_summary(e),
            call: e.clone(),
            result: None,
        },
        _ => TimelineEntry {
            ts: e.ts,
            attribution: e.attribution,
            source: e.source,
            tool_status: None,
            duration_ms: None,
            tag: meta_tag(e.kind),
            summary: meta_summary(e),
            call: e.clone(),
            result: None,
        },
    }
}

/// Groups events, in file order, into timeline entries.
pub fn build_timeline(events: &[AgentEvent]) -> (out: Vec<TimelineEntry>)
    ensures
        entry_views(out@) == timeline_of(event_views(events@)),
{
    let ghost ev = event_views(events@);
    let n: usize = events.len();
    let mut consumed: Vec<bool> = Vec::new();
    for i in 0..n
        invariant
            consumed@.len() == i,
            forall|k: int| 0 <= k < i ==> !#[trigger] consumed@[k],
    {
        consumed.push(false);
    }
    let mut out: Vec<TimelineEntry> = Vec::new();
    proof {
        assert(entry_views(out@) =~= rows(ev, 0));
    }
    for i in 0..n
        invariant
            n == events@.len(),
            ev == event_views(events@),
            consumed@.len() == n,
            forall|k: int| 0 <= k < n ==> #[trigger] consumed@[k] == folded(ev, k, i as int),
            entry_views(out@) == rows(ev, i as int),
    {
        let ghost out0 = entry_views(out@);
        let ghost consumed0 = consumed@;
        proof {
            assert(ev[i as int] == events@[i as int]@);
        }
        let is_call = match events[i].kind {
            EventKind::ToolCall => true,
            _ => false,
        };
        let result: Option<usize> = if is_call {
            result_of_call(events, i)
        } else {
            None
        };
        if result_event(&events[i]) && consumed[i] {
            proof {
                assert(folded(ev, i as int, i as int));
            }
        } else {
            let entry = build_entry(events, i, result);
            let ghost e0 = entry@;
            out.push(entry);
            proof {
                assert(entry_views(out@) =~= out0.push(e0));
            }
        }
        match result {
            Some(k) => {
                consumed.set(k, true);
            },
            None => {},
        }
        proof {
            assert forall|k: int| 0 <= k < n implies #[trigger] consumed@[k] == folded(
                ev,
                k,
                i + 1,
            ) by {
                if folded(ev, k, i as int) {
                    let j = choose|j: int|
                        0 <= j < i && j < ev.len() && #[trigger] ev[j].kind == EventKind::ToolCall
                            && paired(ev, j) == Some(k);
                    assert(ev[j].kind == EventKind::ToolCall);
                }
                if folded(ev, k, i + 1) && !folded(ev, k, i as int) {
                    let j = choose|j: int|
                        0 <= j < i + 1 && j < ev.len() && #[trigger] ev[j].kind
                            == EventKind::ToolCall && paired(ev, j) == Some(k);
                    assert(j == i);
                }
                assert(consumed0[k] == folded(ev, k, i as int));
            }
        }
    }
    out
}

/// The number of tool calls.
pub fn tool_call_count(events: &[AgentEvent]) -> (n: usize)
    ensures
        n == count_kind(event_views(events@), EventKind::ToolCall),
{
    tool_calls_in(events)
}

// ---------------------------------------------------------------------------
// Laws
// ---------------------------------------------------------------------------

proof fn lemma_rows_have(events: Seq<EventV>, k: int, i: int)
    requires
        0 <= i < k <= events.len(),
        !(is_result(events[i]) && folded(events, i, i)),
    ensures
        rows(events, k).contains(entry_of(events, i)),
    decreases k,
{
    if i == k - 1 {
        let r = rows(events, k);
        assert(r[r.len() - 1] == entry_of(events, i));
    } else {
        lemma_rows_have(events, k - 1, i);
        let b = rows(events, k - 1);
        let j = choose|j: int| 0 <= j < b.len() && b[j] == entry_of(events, i);
        assert(rows(events, k)[j] == entry_of(events, i));
    }
}

/// No event is dropped: each is the primary event of an entry, or the result of
/// the entry of a call before it.
pub proof fn no_event_is_dropped(events: Seq<EventV>, i: int)
    requires
        0 <= i < events.len(),
    ensures
        exists|k: int|
            0 <= k < timeline_of(events).len() && (#[trigger] timeline_of(events)[k]).call
                == events[i] || exists|k: int|
            0 <= k < timeline_of(events).len() && (#[trigger] timeline_of(events)[k]).result
                == Some(events[i]),
{
    let t = timeline_of(events);
    if is_result(events[i]) && folded(events, i, i) {
        let j = choose|j: int|
            0 <= j < i && j < events.len() && #[trigger] events[j].kind == EventKind::ToolCall
                && paired(events, j) == Some(i);
        lemma_rows_have(events, events.len() as int, j);
        let k = choose|k: int| 0 <= k < t.len() && t[k] == entry_of(events, j);
        assert(t[k].result == Some(events[i]));
    } else {
        lemma_rows_have(events, events.len() as int, i);
        let k = choose|k: int| 0 <= k < t.len() && t[k] == entry_of(events, i);
        assert(t[k].call == events[i]);
    }
}

/// A call is shown as a success or a failure only where a result says so: a call
/// without a result has none.
pub proof fn unpaired_calls_have_no_result(events: Seq<EventV>, i: int)
    requires
        0 <= i < events.len(),
        events[i].kind == EventKind::ToolCall,
    ensures
        entry_of(events, i).tool_status == Some(ToolStatus::NoResult) <==> paired(
            events,
            i,
        ) is None,
        entry_of(events, i).result is None <==> paired(events, i) is None,
{
}

/// Whether the event at `k` reports the result of the tool use `id`.
pub open spec fn answers(events: Seq<EventV>, k: int, id: Seq<char>) -> bool {
    &&& 0 <= k < events.len()
    &&& events[k].kind == EventKind::ToolResult || events[k].kind == EventKind::ToolFailure
    &&& events[k].payload.text_at("tool_use_id"@) == Some(id)
}

/// Whether it is the first that does.
pub open spec fn answers_first(events: Seq<EventV>, k: int, id: Seq<char>) -> bool {
    answers(events, k, id) && forall|j: int| 0 <= j < k ==> !#[trigger] answers(events, j, id)
}

/// Whether the event at `i` is the result of a call that stands before it.
pub open spec fn ends_a_call(events: Seq<EventV>, i: int) -> bool {
    exists|j: int|
        0 <= j < i && (#[trigger] events[j]).kind == EventKind::ToolCall && (
        events[j].payload.text_at("tool_use_id"@) matches Some(id) && answers_first(events, i, id))
}

/// The positions of the events that have a row of their own, in order.
pub open spec fn row_events(events: Seq<EventV>) -> Seq<int> {
    Seq::new(events.len(), |i: int| i).filter(|i: int| !ends_a_call(events, i))
}

/// Whether `row` is the row of the call at `i`: with the first result of its tool use,
/// wherever that stands, or without one where there is none.
pub open spec fn shows_call(events: Seq<EventV>, i: int, row: EntryV) -> bool {
    let e = events[i];
    match e.payload.text_at("tool_use_id"@) {
        Some(id) => {
            &&& forall|k: int| #[trigger]
                answers_first(events, k, id) ==> {
                    &&& row.result == Some(events[k])
                    &&& row.tool_status == Some(
                        if events[k].kind == EventKind::ToolFailure {
                            ToolStatus::Failed
                        } else {
                            ToolStatus::Okay
                        },
                    )
                    &&& row.duration_ms == (match events[k].payload.get("duration_ms"@) {
                        Some(JsonV::Int(n)) => if i64::MIN <= n <= i64::MAX {
                            Some(n)
                        } else {
                            None
                        },
                        _ => None,
                    })
                }
            &&& (forall|k: int| !#[trigger] answers(events, k, id)) ==> row.result is None
                && row.tool_status == Some(ToolStatus::NoResult) && row.duration_ms is None
        },
        None => row.result is None && row.tool_status == Some(ToolStatus::NoResult)
            && row.duration_ms is None,
    }
}

/// Whether `row` is the row of a result at `i` that no call before it takes.
pub open spec fn shows_result(events: Seq<EventV>, i: int, row: EntryV) -> bool {
    let e = events[i];
    &&& row.result is None
    &&& row.tool_status == Some(
        if e.kind == EventKind::ToolFailure {
            ToolStatus::Failed
        } else {
            ToolStatus::Okay
        },
    )
    &&& row.duration_ms == (match e.payload.get("duration_ms"@) {
        Some(JsonV::Int(n)) => if i64::MIN <= n <= i64::MAX {
            Some(n)
        } else {
            None
        },
        _ => None,
    })
}

/// The fields of a tool input that a row may be summarized by, the most telling first.
pub open spec fn telling_fields() -> Seq<Seq<char>> {
    seq!["file_path"@, "command"@, "path"@, "pattern"@, "url"@, "description"@]
}

/// Whether `row` shows what the event at `i` is about.
pub open spec fn shows_subject(e: EventV, row: EntryV) -> bool {
    if e.kind == EventKind::ToolCall || e.kind == EventKind::ToolResult || e.kind
        == EventKind::ToolFailure {
        let keys = telling_fields();
        &&& row.tag == (match e.payload.text_at("tool_name"@) {
            Some(name) => name,
            None => "tool"@,
        })
        &&& forall|k: int|
            0 <= k < keys.len() && e.input(#[trigger] keys[k]) is Some && (forall|j: int|
                0 <= j < k ==> e.input(#[trigger] keys[j]) is None) ==> row.summary == flat(
                e.input(keys[k])->0,
            )
        &&& (forall|k: int| 0 <= k < keys.len() ==> e.input(#[trigger] keys[k]) is None)
            ==> row.summary.len() == 0
    } else {
        let key = if e.kind == EventKind::SessionStart {
            "source"@
        } else if e.kind == EventKind::Prompt {
            "prompt"@
        } else if e.kind == EventKind::Stop {
            "last_assistant_message"@
        } else if e.kind == EventKind::SessionEnd {
            "reason"@
        } else {
            "error"@
        };
        &&& e.kind == EventKind::SessionStart ==> row.tag == "SESSION"@
        &&& e.kind == EventKind::Prompt ==> row.tag == "PROMPT"@
        &&& e.kind == EventKind::Stop ==> row.tag == "STOP"@
        &&& e.kind == EventKind::SessionEnd ==> row.tag == "END"@
        &&& e.kind == EventKind::Error ==> row.tag == "ERROR"@
        &&& row.tool_status is None && row.duration_ms is None && row.result is None
        &&& row.summary == (match e.payload.text_at(key) {
            Some(s) => flat(s),
            None => Seq::empty(),
        })
    }
}

/// Whether `row` is the row of the event at `i`.
pub open spec fn shows(events: Seq<EventV>, i: int, row: EntryV) -> bool {
    let e = events[i];
    &&& 0 <= i < events.len()
    &&& row.call == e
    &&& row.ts == e.ts
    &&& row.attribution == e.attribution
    &&& row.source == e.source
    &&& shows_subject(e, row)
    &&& e.kind == EventKind::ToolCall ==> shows_call(events, i, row)
    &&& e.kind == EventKind::ToolResult || e.kind == EventKind::ToolFailure ==> shows_result(
        events,
        i,
        row,
    )
}

proof fn lemma_first_answer(events: Seq<EventV>, id: Seq<char>, from: int)
    requires
        0 <= from <= events.len(),
        forall|j: int| 0 <= j < from ==> !#[trigger] answers(events, j, id),
    ensures
        match result_from(events, id, from) {
            Some(k) => answers_first(events, k, id),
            None => forall|k: int| !#[trigger] answers(events, k, id),
        },
    decreases events.len() - from,
{
    if from < events.len() && !answers(events, from, id) {
        lemma_first_answer(events, id, from + 1);
    }
}

proof fn lemma_paired(events: Seq<EventV>, j: int)
    requires
        0 <= j < events.len(),
    ensures
        match events[j].payload.text_at("tool_use_id"@) {
            Some(id) => {
                &&& forall|k: int| #[trigger]
                    answers_first(events, k, id) <==> paired(events, j) == Some(k)
                &&& paired(events, j) is None ==> forall|k: int| !#[trigger] answers(events, k, id)
            },
            None => paired(events, j) is None,
        },
{
    match events[j].payload.text_at("tool_use_id"@) {
        Some(id) => {
            lemma_first_answer(events, id, 0);
            assert forall|k: int| #[trigger] answers_first(events, k, id) implies paired(events, j)
                == Some(k) by {
                match result_from(events, id, 0) {
                    Some(r) => {
                        assert(answers(events, r, id));
                        assert(answers(events, k, id));
                    },
                    None => {
                        assert(answers(events, k, id));
                    },
                }
            }
        },
        None => {},
    }
}

proof fn lemma_folded(events: Seq<EventV>, i: int)
    requires
        0 <= i < events.len(),
    ensures
        ends_a_call(events, i) <==> is_result(events[i]) && folded(events, i, i),
{
    if ends_a_call(events, i) {
        let j = choose|j: int|
            0 <= j < i && (#[trigger] events[j]).kind == EventKind::ToolCall && (
            events[j].payload.text_at("tool_use_id"@) matches Some(id) && answers_first(
                events,
                i,
                id,
            ));
        lemma_paired(events, j);
        assert(events[j].kind == EventKind::ToolCall && paired(events, j) == Some(i));
    }
    if folded(events, i, i) {
        let j = choose|j: int|
            0 <= j < i && j < events.len() && #[trigger] events[j].kind == EventKind::ToolCall
                && paired(events, j) == Some(i);
        lemma_paired(events, j);
        assert(events[j].kind == EventKind::ToolCall);
    }
}

proof fn lemma_entry_subject(events: Seq<EventV>, i: int)
    requires
        0 <= i < events.len(),
    ensures
        shows_subject(events[i], entry_of(events, i)),
{
    let e = events[i];
    let row = entry_of(events, i);
    let keys = telling_fields();
    if e.kind == EventKind::ToolCall || is_result(e) {
        assert(keys[0] == "file_path"@ && keys[1] == "command"@ && keys[2] == "path"@ && keys[3]
            == "pattern"@ && keys[4] == "url"@ && keys[5] == "description"@);
        assert forall|k: int|
            0 <= k < keys.len() && e.input(#[trigger] keys[k]) is Some && (forall|j: int|
                0 <= j < k ==> e.input(#[trigger] keys[j]) is None) implies row.summary == flat(
            e.input(keys[k])->0,
        ) by {
            assert(k > 0 ==> e.input(keys[0]) is None);
            assert(k > 1 ==> e.input(keys[1]) is None);
            assert(k > 2 ==> e.input(keys[2]) is None);
            assert(k > 3 ==> e.input(keys[3]) is None);
            assert(k > 4 ==> e.input(keys[4]) is None);
        }
        if forall|k: int| 0 <= k < keys.len() ==> e.input(#[trigger] keys[k]) is None {
            assert(e.input(keys[0]) is None && e.input(keys[1]) is None && e.input(keys[2]) is None
                && e.input(keys[3]) is None && e.input(keys[4]) is None && e.input(keys[5]) is None);
        }
    }
}

proof fn lemma_entry_call(events: Seq<EventV>, i: int)
    requires
        0 <= i < events.len(),
        events[i].kind == EventKind::ToolCall,
    ensures
        shows_call(events, i, entry_of(events, i)),
{
    lemma_paired(events, i);
    let row = entry_of(events, i);
    match events[i].payload.text_at("tool_use_id"@) {
        Some(id) => {
            assert forall|k: int| #[trigger] answers_first(events, k, id) implies row.result == Some(
                events[k],
            ) && paired(events, i) == Some(k) by {}
            if forall|k: int| !#[trigger] answers(events, k, id) {
                match paired(events, i) {
                    Some(k) => {
                        assert(answers_first(events, k, id));
                        assert(answers(events, k, id));
                    },
                    None => {},
                }
            }
        },
        None => {},
    }
}

proof fn lemma_rows_shown(events: Seq<EventV>, k: int)
    requires
        0 <= k <= events.len(),
    ensures
        ({
            let at = Seq::new(k as nat, |i: int| i).filter(|i: int| !ends_a_call(events, i));
            &&& rows(events, k).len() == at.len()
            &&& forall|n: int|
                0 <= n < at.len() ==> shows(events, at[n], #[trigger] rows(events, k)[n])
        }),
    decreases k,
{
    reveal(Seq::filter);
    let p = |i: int| !ends_a_call(events, i);
    let all = Seq::new(k as nat, |i: int| i);
    if k > 0 {
        lemma_rows_shown(events, k - 1);
        assert(all.drop_last() =~= Seq::new((k - 1) as nat, |i: int| i));
        lemma_folded(events, k - 1);
        if !ends_a_call(events, k - 1) {
            let i = k - 1;
            lemma_entry_subject(events, i);
            if events[i].kind == EventKind::ToolCall {
                lemma_entry_call(events, i);
            }
            assert(shows(events, i, entry_of(events, i)));
        }
    }
}

/// The timeline has a row for each event, in order, but for the results of calls that
/// stand before them. The row of a call has the first result that was recorded for its
/// tool use, wherever that stands among the events, and says that it failed exactly if
/// that result is a failure; without such a result it says that there is none.
pub proof fn the_timeline_shows_what_was_recorded(events: Seq<EventV>)
    ensures
        timeline_of(events).len() == row_events(events).len(),
        forall|n: int|
            0 <= n < row_events(events).len() ==> shows(
                events,
                row_events(events)[n],
                #[trigger] timeline_of(events)[n],
            ),
{
    lemma_rows_shown(events, events.len() as int);
}

/// A call and its result are one row: where a result of its tool use was recorded, a call
/// is never shown without a result, and a result that a call before it has taken has no
/// row of its own.
pub proof fn calls_are_paired_wherever_their_results_stand(
    events: Seq<EventV>,
    i: int,
    k: int,
    id: Seq<char>,
)
    requires
        0 <= i < events.len(),
        events[i].kind == EventKind::ToolCall,
        events[i].payload.text_at("tool_use_id"@) == Some(id),
        answers(events, k, id),
    ensures
        exists|n: int|
            0 <= n < timeline_of(events).len() && (#[trigger] timeline_of(events)[n]).call
                == events[i] && timeline_of(events)[n].tool_status != Some(ToolStatus::NoResult)
                && (timeline_of(events)[n].result matches Some(r) && r.payload.text_at(
                "tool_use_id"@,
            ) == Some(id) && (r.kind == EventKind::ToolFailure <==> timeline_of(
                events,
            )[n].tool_status == Some(ToolStatus::Failed))),
{
    lemma_paired(events, i);
    lemma_rows_have(events, events.len() as int, i);
    let t = timeline_of(events);
    let n = choose|n: int| 0 <= n < t.len() && t[n] == entry_of(events, i);
    let r = paired(events, i)->0;
    assert(answers_first(events, r, id));
    assert(t[n].result == Some(events[r]));
}

} // verus!
