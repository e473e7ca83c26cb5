//! A shareable audit of one recorded session.
//!
//! The report is a pure function of the recorded events and the session's start.
//! It never claims more than was observed: files and commands carry their
//! attribution, a call without a result is never a success, the number of lines
//! that could not be read is told, and every report ends with what the
//! observation covers.
use vstd::prelude::*;

use crate::claim::{
    add_reference, build_claim_vs_reality, claim_of, file_views, run_views, with_reference,
    ClaimV, ClaimVsReality, TestCommandRun, TestFile, TestFileV, TestRunV,
};
use crate::doc::{add_lines, line, lines_text, lines_text_append, no_lines, own_line, render_lines};
use crate::event::{event_views, AgentEvent, Attribution, EventKind, EventV, Source};
use crate::flags::{flag_views, flags_for_command, flags_of, Flag, FlagV};
use crate::host::Host;
use crate::num::{decimal, decimal_usize};
use crate::order::{lemma_sorted_map, own_order, sort, sorted_by, Ordered};
use crate::selector::count_kind;
use crate::split::{flat, join, joined, one_line};
use crate::store::SessionRead;
use crate::text::{finishes, has_text, occurs_at, opt_view, views};
use crate::timefmt::{
    duration_text, format_duration_ms, format_offset_ms, format_utc, offset_text, utc_text,
};
use crate::timeline::{
    build_timeline, entry_views, timeline_of, tool_call_count, EntryV, TimelineEntry,
};

verus! {

/// The words by which every report tells its scope.
pub open spec fn scope_marker(host_name: Seq<char>) -> Seq<char> {
    "records only what "@ + host_name + " hooks report"@
}

/// Tells the words by which every report tells its scope.
pub fn observation_scope_marker(host: &Host) -> (out: String)
    ensures
        out@ == scope_marker(host@.name),
{
    "records only what ".to_owned().concat(host.name.as_str()).concat(" hooks report")
}

/// Headline numbers.
#[derive(Debug, Clone, Copy, PartialEq, Eq, Structural)]
pub struct Summary {
    /// Start of the session, Unix epoch milliseconds.
    pub started_ms: Option<i64>,
    /// Span from the first to the last event, milliseconds.
    pub duration_ms: Option<i64>,
    /// Number of tool calls.
    pub tool_calls: usize,
    /// Number of files named.
    pub touched_files: usize,
    /// Number of commands.
    pub commands: usize,
    /// Number of events.
    pub events: usize,
    /// Number of lines that could not be read.
    pub corrupt_lines: usize,
}

/// A file that tools named.
#[derive(Debug, Clone, PartialEq, Eq)]
pub struct TouchedFile {
    /// The path, verbatim.
    pub path: String,
    /// The tools that named it, in the order in which they first did.
    pub tools: Vec<String>,
    /// Attribution of the first call.
    pub attribution: Attribution,
}

impl View for TouchedFile {
    type V = TestFileV;

    open spec fn view(&self) -> TestFileV {
        TestFileV { path: self.path@, tools: views(self.tools@), attribution: self.attribution }
    }
}

/// The contents of a list of files.
pub open spec fn touched_views(v: Seq<TouchedFile>) -> Seq<TestFileV> {
    Seq::new(v.len(), |i: int| v[i]@)
}

/// A shell command that was recorded.
#[derive(Debug, Clone, PartialEq, Eq)]
pub struct CommandRun {
    /// The command, on one line.
    pub command: String,
    /// `ok`, `failed` or `no-result`.
    pub status: &'static str,
    /// Elapsed time, if reported.
    pub duration_ms: Option<i64>,
    /// Attribution of the call.
    pub attribution: Attribution,
}

/// The contents of a [`CommandRun`].
pub ghost struct CommandRunV {
    pub command: Seq<char>,
    pub status: Seq<char>,
    pub duration_ms: Option<int>,
    pub attribution: Attribution,
}

/// An optional number.
pub open spec fn opt_int(v: Option<i64>) -> Option<int> {
    match v {
        Some(n) => Some(n as int),
        None => None,
    }
}

impl View for CommandRun {
    type V = CommandRunV;

    open spec fn view(&self) -> CommandRunV {
        CommandRunV {
            command: self.command@,
            status: self.status@,
            duration_ms: opt_int(self.duration_ms),
            attribution: self.attribution,
        }
    }
}

/// The contents of a list of commands.
pub open spec fn command_views(v: Seq<CommandRun>) -> Seq<CommandRunV> {
    Seq::new(v.len(), |i: int| v[i]@)
}

/// One condensed timeline row.
#[derive(Debug, Clone, PartialEq, Eq)]
pub struct TimelineDigestEntry {
    /// Offset from the first event, milliseconds.
    pub offset_ms: i64,
    /// Attribution of the primary event.
    pub attribution: Attribution,
    /// Origin of the primary event.
    pub source: Source,
    /// Short tag.
    pub tag: String,
    /// The outcome of a tool row.
    pub status: Option<&'static str>,
    /// Elapsed time of a tool row, if reported.
    pub duration_ms: Option<i64>,
    /// One-line summary.
    pub summary: String,
}

/// The contents of a [`TimelineDigestEntry`].
pub ghost struct DigestEntryV {
    pub offset_ms: int,
    pub attribution: Attribution,
    pub source: Source,
    pub tag: Seq<char>,
    pub status: Option<Seq<char>>,
    pub duration_ms: Option<int>,
    pub summary: Seq<char>,
}

impl View for TimelineDigestEntry {
    type V = DigestEntryV;

    open spec fn view(&self) -> DigestEntryV {
        DigestEntryV {
            offset_ms: self.offset_ms as int,
            attribution: self.attribution,
            source: self.source,
            tag: self.tag@,
            status: match self.status {
                Some(s) => Some(s@),
                None => None,
            },
            duration_ms: opt_int(self.duration_ms),
            summary: self.summary@,
        }
    }
}

/// The contents of a list of rows.
pub open spec fn digest_views(v: Seq<TimelineDigestEntry>) -> Seq<DigestEntryV> {
    Seq::new(v.len(), |i: int| v[i]@)
}

/// The report of one session.
#[derive(Debug, PartialEq)]
pub struct SessionReport {
    /// The session.
    pub session_id: String,
    /// What the program is called whose hooks were recorded.
    pub host: String,
    /// Headline numbers.
    pub summary: Summary,
    /// Files that tools named, in the order in which they first were.
    pub touched_files: Vec<TouchedFile>,
    /// Shell commands, in order.
    pub commands: Vec<CommandRun>,
    /// Commands of a destructive class, the critical ones first.
    pub flags: Vec<Flag>,
    /// The final message and the facts beside it, if there are any.
    pub claim_vs_reality: Option<ClaimVsReality>,
    /// One row for each timeline entry.
    pub timeline: Vec<TimelineDigestEntry>,
    /// What the observation covers.
    pub disclaimer: Vec<String>,
}

/// The contents of a [`SessionReport`].
pub ghost struct ReportV {
    pub session_id: Seq<char>,
    pub host: Seq<char>,
    pub summary: Summary,
    pub touched_files: Seq<TestFileV>,
    pub commands: Seq<CommandRunV>,
    pub flags: Seq<FlagV>,
    pub claim_vs_reality: Option<ClaimV>,
    pub timeline: Seq<DigestEntryV>,
    pub disclaimer: Seq<Seq<char>>,
}

impl View for SessionReport {
    type V = ReportV;

    open spec fn view(&self) -> ReportV {
        ReportV {
            session_id: self.session_id@,
            host: self.host@,
            summary: self.summary,
            touched_files: touched_views(self.touched_files@),
            commands: command_views(self.commands@),
            flags: flag_views(self.flags@),
            claim_vs_reality: match self.claim_vs_reality {
                Some(c) => Some(c@),
                None => None,
            },
            timeline: digest_views(self.timeline@),
            disclaimer: views(self.disclaimer@),
        }
    }
}

// ---------------------------------------------------------------------------
// What a report holds
// ---------------------------------------------------------------------------

/// The files that tool rows name, in the order in which they first do.
pub open spec fn touched_of(entries: Seq<EntryV>) -> Seq<TestFileV>
    decreases entries.len(),
{
    if entries.len() == 0 {
        Seq::<TestFileV>::empty()
    } else {
        let before = touched_of(entries.drop_last());
        let e = entries.last();
        match (e.tool_status, e.call.input("file_path"@)) {
            (Some(_), Some(path)) => with_reference(before, path, e.tag, e.attribution),
            _ => before,
        }
    }
}

/// The command of a tool row, as it was recorded.
pub open spec fn command_of(e: EntryV) -> Option<Seq<char>> {
    if e.tool_status is Some {
        e.call.input("command"@)
    } else {
        None
    }
}

/// The commands of the tool rows, in order.
pub open spec fn commands_of(entries: Seq<EntryV>) -> Seq<CommandRunV>
    decreases entries.len(),
{
    if entries.len() == 0 {
        Seq::<CommandRunV>::empty()
    } else {
        let before = commands_of(entries.drop_last());
        let e = entries.last();
        match command_of(e) {
            Some(command) => before.push(
                CommandRunV {
                    command: flat(command),
                    status: e.tool_status->0.spec_label(),
                    duration_ms: e.duration_ms,
                    attribution: e.attribution,
                },
            ),
            None => before,
        }
    }
}

/// The flags of the commands, in order.
pub open spec fn raised_flags(entries: Seq<EntryV>) -> Seq<FlagV>
    decreases entries.len(),
{
    if entries.len() == 0 {
        Seq::<FlagV>::empty()
    } else {
        let before = raised_flags(entries.drop_last());
        match command_of(entries.last()) {
            Some(command) => before + flags_of(command),
            None => before,
        }
    }
}

/// Whether a flag is more severe than another.
pub open spec fn more_severe(a: FlagV, b: FlagV) -> bool {
    a.severity.spec_rank() < b.severity.spec_rank()
}

/// The flags of the commands, the critical ones first, else in order.
pub open spec fn report_flags(entries: Seq<EntryV>) -> Seq<FlagV> {
    sorted_by(raised_flags(entries), |a: FlagV, b: FlagV| more_severe(a, b))
}

/// The condensed row of an entry.
pub open spec fn digest_row(e: EntryV, base: int) -> DigestEntryV {
    DigestEntryV {
        offset_ms: e.ts - base,
        attribution: e.attribution,
        source: e.source,
        tag: e.tag,
        status: match e.tool_status {
            Some(s) => Some(s.spec_label()),
            None => None,
        },
        duration_ms: e.duration_ms,
        summary: e.summary,
    }
}

/// The condensed rows of a timeline.
pub open spec fn digest_rows(entries: Seq<EntryV>, base: int) -> Seq<DigestEntryV> {
    Seq::new(entries.len(), |i: int| digest_row(entries[i], base))
}

/// What the observation covers, one sentence to a line.
pub open spec fn disclaimer_of(corrupt: int, host_name: Seq<char>) -> Seq<Seq<char>> {
    seq![
        "agent-witness "@ + scope_marker(host_name)
            + ": tool calls and their inputs, not their side effects."@,
        "A command run via Bash is recorded by its command line only; what it does internally (e.g. `bash script.sh`) is not observed."@,
        "A failed Bash call fires no completion hook, so it appears as a call with no result — never as a success."@,
        decimal(corrupt as nat)
            + " corrupt/unreadable line(s) were skipped while reading this session."@,
    ]
}

/// The time of the first event.
pub open spec fn first_ts(events: Seq<EventV>) -> Option<i64> {
    if events.len() > 0 {
        Some(events[0].ts)
    } else {
        None
    }
}

/// Whether the time from the first event to each other one is a number that the
/// type of times holds.
pub open spec fn spans_fit(events: Seq<EventV>) -> bool {
    forall|i: int|
        0 <= i < events.len() ==> i64::MIN <= (#[trigger] events[i]).ts - events[0].ts <= i64::MAX
}

/// The report of a session.
pub open spec fn report_of(
    session_id: Seq<char>,
    events: Seq<EventV>,
    skipped: usize,
    started_ms: Option<i64>,
    host_name: Seq<char>,
) -> ReportV {
    let entries = timeline_of(events);
    let base = match first_ts(events) {
        Some(t) => t as int,
        None => 0,
    };
    ReportV {
        session_id,
        host: host_name,
        summary: Summary {
            started_ms: match started_ms {
                Some(t) => Some(t),
                None => first_ts(events),
            },
            duration_ms: if events.len() > 0 {
                Some((events.last().ts - events[0].ts) as i64)
            } else {
                None
            },
            tool_calls: count_kind(events, EventKind::ToolCall) as usize,
            touched_files: touched_of(entries).len() as usize,
            commands: commands_of(entries).len() as usize,
            events: events.len() as usize,
            corrupt_lines: skipped,
        },
        touched_files: touched_of(entries),
        commands: commands_of(entries),
        flags: report_flags(entries),
        claim_vs_reality: claim_of(events, entries),
        timeline: digest_rows(entries, base),
        disclaimer: disclaimer_of(skipped as int, host_name),
    }
}

/// Tests whether the time from the first event to each other one can be told.
pub fn times_fit(events: &[AgentEvent]) -> (r: bool)
    ensures
        r == spans_fit(event_views(events@)),
{
    let ghost ev = event_views(events@);
    for i in 0..events.len()
        invariant
            ev == event_views(events@),
            forall|k: int|
                0 <= k < i ==> i64::MIN <= (#[trigger] ev[k]).ts - ev[0].ts <= i64::MAX,
    {
        proof {
            assert(ev[i as int] == events@[i as int]@);
            assert(ev[0] == events@[0]@);
        }
        let d: i128 = events[i].ts as i128 - events[0].ts as i128;
        if d < i64::MIN as i128 || d > i64::MAX as i128 {
            return false;
        }
    }
    true
}

fn collect_touched_files(entries: &[TimelineEntry]) -> (out: Vec<TouchedFile>)
    ensures
        touched_views(out@) == touched_of(entry_views(entries@)),
{
    let ghost ev = entry_views(entries@);
    let mut files: Vec<TestFile> = Vec::new();
    proof {
        assert(file_views(files@) =~= touched_of(ev.take(0)));
    }
    for i in 0..entries.len()
        invariant
            ev == entry_views(entries@),
            file_views(files@) == touched_of(ev.take(i as int)),
    {
        proof {
            assert(ev.take(i + 1).drop_last() =~= ev.take(i as int));
            assert(ev.take(i + 1).last() == entries@[i as int]@);
        }
        let e = &entries[i];
        if e.tool_status.is_some() {
            match e.call.tool_input_str("file_path") {
                Some(path) => {
                    add_reference(&mut files, path, e.tag.as_str(), e.attribution);
                },
                None => {},
            }
        }
    }
    proof {
        assert(ev.take(ev.len() as int) =~= ev);
    }
    let ghost fs = files@;
    let mut out: Vec<TouchedFile> = Vec::new();
    for f in it: files
        invariant
            it.seq() == fs,
            out@.len() == it.index(),
            forall|k: int| 0 <= k < out@.len() ==> (#[trigger] out@[k])@ == fs[k]@,
    {
        out.push(TouchedFile { path: f.path, tools: f.tools, attribution: f.attribution });
    }
    proof {
        assert(touched_views(out@) =~= file_views(fs));
    }
    out
}

fn collect_commands(entries: &[TimelineEntry]) -> (out: Vec<CommandRun>)
    ensures
        command_views(out@) == commands_of(entry_views(entries@)),
{
    let ghost ev = entry_views(entries@);
    let mut out: Vec<CommandRun> = Vec::new();
    proof {
        assert(command_views(out@) =~= commands_of(ev.take(0)));
    }
    for i in 0..entries.len()
        invariant
            ev == entry_views(entries@),
            command_views(out@) == commands_of(ev.take(i as int)),
    {
        proof {
            assert(ev.take(i + 1).drop_last() =~= ev.take(i as int));
            assert(ev.take(i + 1).last() == entries@[i as int]@);
        }
        let e = &entries[i];
        let ghost out0 = command_views(out@);
        match (e.tool_status, e.call.tool_input_str("command")) {
            (Some(status), Some(command)) => {
                let run = CommandRun {
                    command: one_line(command),
                    status: status.label(),
                    duration_ms: e.duration_ms,
                    attribution: e.attribution,
                };
                let ghost rv = run@;
                out.push(run);
                proof {
                    assert(command_views(out@) =~= out0.push(rv));
                }
            },
            _ => {},
        }
    }
    proof {
        assert(ev.take(ev.len() as int) =~= ev);
    }
    out
}

impl Ordered for Flag {
    open spec fn before(a: Self, b: Self) -> bool {
        more_severe(a@, b@)
    }

    fn comes_before(&self, other: &Self) -> (r: bool) {
        self.severity.rank() < other.severity.rank()
    }
}

fn collect_flags(entries: &[TimelineEntry]) -> (out: Vec<Flag>)
    ensures
        flag_views(out@) == report_flags(entry_views(entries@)),
{
    let ghost ev = entry_views(entries@);
    let mut all: Vec<Flag> = Vec::new();
    proof {
        assert(flag_views(all@) =~= raised_flags(ev.take(0)));
    }
    for i in 0..entries.len()
        invariant
            ev == entry_views(entries@),
            flag_views(all@) == raised_flags(ev.take(i as int)),
    {
        proof {
            assert(ev.take(i + 1).drop_last() =~= ev.take(i as int));
            assert(ev.take(i + 1).last() == entries@[i as int]@);
        }
        let e = &entries[i];
        if e.tool_status.is_some() {
            match e.call.tool_input_str("command") {
                Some(command) => {
                    let mut more = flags_for_command(command);
                    let ghost a0 = all@;
                    let ghost m0 = more@;
                    all.append(&mut more);
                    proof {
                        assert(flag_views(all@) =~= flag_views(a0) + flag_views(m0));
                    }
                },
                None => {},
            }
        }
    }
    proof {
        assert(ev.take(ev.len() as int) =~= ev);
        let f = |x: Flag| x@;
        let lt2 = |a: FlagV, b: FlagV| more_severe(a, b);
        lemma_sorted_map(all@, f, own_order::<Flag>(), lt2);
    }
    sort(all)
}

fn collect_timeline(entries: &[TimelineEntry], base_ts: i64) -> (out: Vec<TimelineDigestEntry>)
    requires
        forall|i: int|
            0 <= i < entries@.len() ==> i64::MIN <= (#[trigger] entries@[i]).ts - base_ts
                <= i64::MAX,
    ensures
        digest_views(out@) == digest_rows(entry_views(entries@), base_ts as int),
{
    let ghost ev = entry_views(entries@);
    let mut out: Vec<TimelineDigestEntry> = Vec::new();
    for i in 0..entries.len()
        invariant
            ev == entry_views(entries@),
            out@.len() == i,
            forall|k: int|
                0 <= k < entries@.len() ==> i64::MIN <= (#[trigger] entries@[k]).ts - base_ts
                    <= i64::MAX,
            forall|k: int|
                0 <= k < i ==> (#[trigger] out@[k])@ == digest_row(ev[k], base_ts as int),
    {
        let e = &entries[i];
        proof {
            assert(entries@[i as int].ts - base_ts <= i64::MAX);
        }
        let status: Option<&'static str> = match e.tool_status {
            Some(s) => Some(s.label()),
            None => None,
        };
        out.push(
            TimelineDigestEntry {
                offset_ms: e.ts - base_ts,
                attribution: e.attribution,
                source: e.source,
                tag: e.tag.clone(),
                status,
                duration_ms: e.duration_ms,
                summary: e.summary.clone(),
            },
        );
    }
    proof {
        assert(digest_views(out@) =~= digest_rows(ev, base_ts as int));
    }
    out
}

fn disclaimer_lines(corrupt_lines: usize, host: &Host) -> (out: Vec<String>)
    ensures
        views(out@) == disclaimer_of(corrupt_lines as int, host@.name),
{
    let mut out = no_lines();
    own_line(
        &mut out,
        "agent-witness ".to_owned().concat(observation_scope_marker(host).as_str()).concat(
            ": tool calls and their inputs, not their side effects.",
        ),
    );
    line(
        &mut out,
        "A command run via Bash is recorded by its command line only; what it does internally (e.g. `bash script.sh`) is not observed.",
    );
    line(
        &mut out,
        "A failed Bash call fires no completion hook, so it appears as a call with no result — never as a success.",
    );
    own_line(
        &mut out,
        decimal_usize(corrupt_lines).concat(
            " corrupt/unreadable line(s) were skipped while reading this session.",
        ),
    );
    proof {
        assert(views(out@) =~= disclaimer_of(corrupt_lines as int, host@.name));
    }
    out
}

proof fn lemma_rows_times(events: Seq<EventV>, k: int, i: int)
    requires
        0 <= k <= events.len(),
        0 <= i < crate::timeline::rows(events, k).len(),
    ensures
        exists|j: int|
            0 <= j < k && crate::timeline::rows(events, k)[i].ts == (#[trigger] events[j]).ts,
    decreases k,
{
    if k > 0 {
        let b = crate::timeline::rows(events, k - 1);
        if i < b.len() {
            lemma_rows_times(events, k - 1, i);
            let j = choose|j: int| 0 <= j < k - 1 && b[i].ts == (#[trigger] events[j]).ts;
            assert(crate::timeline::rows(events, k)[i].ts == events[j].ts);
        } else {
            assert(crate::timeline::rows(events, k)[i].ts == events[k - 1].ts);
        }
    }
}

/// Builds the report of a session. Where no start is given, the session starts
/// with its first event.
pub fn build_report(
    session_id: &str,
    read: &SessionRead,
    started_ms: Option<i64>,
    host: &Host,
) -> (r: SessionReport)
    requires
        spans_fit(event_views(read.events@)),
    ensures
        r@ == report_of(
            session_id@,
            event_views(read.events@),
            read.skipped_lines,
            started_ms,
            host@.name,
        ),
{
    let ghost ev = event_views(read.events@);
    let n: usize = read.events.len();
    let entries = build_timeline(read.events.as_slice());
    let first: Option<i64> = if n > 0 {
        Some(read.events[0].ts)
    } else {
        None
    };
    let base: i64 = match first {
        Some(t) => t,
        None => 0,
    };
    proof {
        if n > 0 {
            assert(ev[0] == read.events@[0]@);
            assert(ev[n - 1] == read.events@[n - 1]@);
        }
        let tv = entry_views(entries@);
        assert forall|i: int| 0 <= i < entries@.len() implies i64::MIN <= (
        #[trigger] entries@[i]).ts - base <= i64::MAX by {
            assert(tv[i] == entries@[i]@);
            lemma_rows_times(ev, ev.len() as int, i);
            let j = choose|j: int| 0 <= j < ev.len() && tv[i].ts == (#[trigger] ev[j]).ts;
            assert(i64::MIN <= ev[j].ts - ev[0].ts <= i64::MAX);
        }
    }
    let duration_ms: Option<i64> = if n > 0 {
        Some(read.events[n - 1].ts - read.events[0].ts)
    } else {
        None
    };
    let touched_files = collect_touched_files(entries.as_slice());
    let commands = collect_commands(entries.as_slice());
    let flags = collect_flags(entries.as_slice());
    let claim_vs_reality = build_claim_vs_reality(read.events.as_slice(), entries.as_slice());
    let timeline = collect_timeline(entries.as_slice(), base);
    proof {
        assert(touched_views(touched_files@).len() == touched_files@.len());
        assert(command_views(commands@).len() == commands@.len());
    }
    let summary = Summary {
        started_ms: match started_ms {
            Some(t) => Some(t),
            None => first,
        },
        duration_ms,
        tool_calls: tool_call_count(read.events.as_slice()),
        touched_files: touched_files.len(),
        commands: commands.len(),
        events: n,
        corrupt_lines: read.skipped_lines,
    };
    SessionReport {
        session_id: session_id.to_owned(),
        host: host.name.clone(),
        summary,
        touched_files,
        commands,
        flags,
        claim_vs_reality,
        timeline,
        disclaimer: disclaimer_lines(read.skipped_lines, host),
    }
}

// ---------------------------------------------------------------------------
// Markdown
// ---------------------------------------------------------------------------

/// The word for an attribution.
pub open spec fn word_of(a: Attribution) -> Seq<char> {
    match a {
        Attribution::Direct => "direct"@,
        Attribution::Observed => "observed"@,
        Attribution::Inferred => "inferred"@,
    }
}

/// The word for an attribution.
pub fn attribution_word(a: Attribution) -> (r: &'static str)
    ensures
        r@ == word_of(a),
{
    match a {
        Attribution::Direct => "direct",
        Attribution::Observed => "observed",
        Attribution::Inferred => "inferred",
    }
}

/// A time, or a dash.
pub open spec fn time_or_dash(t: Option<i64>) -> Seq<char> {
    match t {
        Some(ms) => utc_text(ms as int),
        None => "-"@,
    }
}

/// A duration, or a dash.
pub open spec fn duration_or_dash(d: Option<i64>) -> Seq<char> {
    match d {
        Some(ms) => duration_text(ms as int),
        None => "-"@,
    }
}

/// The title of a report.
pub open spec fn header_lines(session_id: Seq<char>, host_name: Seq<char>) -> Seq<Seq<char>> {
    seq![
        "# Session report: "@ + session_id,
        ""@,
        "_Observation only — records what "@ + host_name
            + " hooks reported. See the scope note at the end._"@,
        ""@,
    ]
}

/// The section of the headline numbers.
pub open spec fn summary_lines(s: Summary) -> Seq<Seq<char>> {
    seq![
        "## Summary"@,
        ""@,
        "- Started: "@ + time_or_dash(s.started_ms),
        "- Duration: "@ + duration_or_dash(s.duration_ms),
        "- Tool calls: "@ + decimal(s.tool_calls as nat),
        "- Touched files: "@ + decimal(s.touched_files as nat),
        "- Commands: "@ + decimal(s.commands as nat),
        "- Events: "@ + decimal(s.events as nat),
        "- Corrupt lines: "@ + decimal(s.corrupt_lines as nat),
        ""@,
    ]
}

/// The row of a file.
pub open spec fn file_line(f: TestFileV) -> Seq<char> {
    "- `"@ + f.path + "` — "@ + joined(f.tools, ", "@) + " ("@ + word_of(f.attribution) + ")"@
}

/// The rows of a list of files.
pub open spec fn file_lines(fs: Seq<TestFileV>) -> Seq<Seq<char>> {
    Seq::new(fs.len(), |i: int| file_line(fs[i]))
}

/// The section of the files.
pub open spec fn touched_lines(fs: Seq<TestFileV>) -> Seq<Seq<char>> {
    let head = seq![
        "## Touched files"@,
        ""@,
        "_From `tool_input.file_path`; attribution noted._"@,
        ""@,
    ];
    if fs.len() == 0 {
        head + seq!["_None observed._"@, ""@]
    } else {
        head + file_lines(fs) + seq![""@]
    }
}

/// The row of a command.
pub open spec fn command_line(c: CommandRunV) -> Seq<char> {
    let duration = match c.duration_ms {
        Some(d) => ", "@ + duration_text(d),
        None => ""@,
    };
    "- `"@ + c.command + "` — "@ + c.status + duration + " ("@ + word_of(c.attribution) + ")"@
}

/// The rows of a list of commands.
pub open spec fn command_lines(cs: Seq<CommandRunV>) -> Seq<Seq<char>> {
    Seq::new(cs.len(), |i: int| command_line(cs[i]))
}

/// The section of the commands.
pub open spec fn executed_lines(cs: Seq<CommandRunV>) -> Seq<Seq<char>> {
    let head = seq![
        "## Executed commands"@,
        ""@,
        "_From Bash `tool_input.command`._"@,
        ""@,
    ];
    if cs.len() == 0 {
        head + seq!["_None observed._"@, ""@]
    } else {
        head + command_lines(cs) + seq![""@]
    }
}

/// The row of a flag.
pub open spec fn flag_line(f: FlagV) -> Seq<char> {
    "- **"@ + f.severity.spec_label() + "** `"@ + flat(f.command) + "` — "@ + f.rationale + " ("@
        + f.pattern + ")"@
}

/// The rows of a list of flags.
pub open spec fn flag_lines(fs: Seq<FlagV>) -> Seq<Seq<char>> {
    Seq::new(fs.len(), |i: int| flag_line(fs[i]))
}

/// The section of the flagged commands, which is left out where there are none.
pub open spec fn flagged_lines(fs: Seq<FlagV>) -> Seq<Seq<char>> {
    if fs.len() == 0 {
        Seq::<Seq<char>>::empty()
    } else {
        seq![
            "## Flagged commands"@,
            ""@,
            "_Command class only — no claim about intent, outcome, or damage. Best-effort match on the recorded text._"@,
            ""@,
        ] + flag_lines(fs) + seq![""@]
    }
}

/// The row of a test-like command.
pub open spec fn run_line(r: TestRunV) -> Seq<char> {
    "- `"@ + r.command + "` — "@ + r.kind + ", "@ + r.status + " ("@ + word_of(r.attribution) + ")"@
}

/// The rows of a list of test-like commands.
pub open spec fn run_lines(rs: Seq<TestRunV>) -> Seq<Seq<char>> {
    Seq::new(rs.len(), |i: int| run_line(rs[i]))
}

/// The rows of a list of notes.
pub open spec fn cue_lines(cs: Seq<Seq<char>>) -> Seq<Seq<char>> {
    Seq::new(cs.len(), |i: int| "- "@ + cs[i])
}

/// A message as a quotation, line by line.
pub open spec fn quoted_lines(ls: Seq<Seq<char>>) -> Seq<Seq<char>> {
    Seq::new(ls.len(), |i: int| "> "@ + ls[i])
}

/// The part of the panel that holds the final message.
pub open spec fn message_lines(message: Option<Seq<char>>) -> Seq<Seq<char>> {
    match message {
        Some(m) => seq!["Final message (verbatim):"@, ""@] + quoted_lines(
            crate::split::lines_of(m),
        ) + seq![""@],
        None => seq!["_No final message recorded._"@, ""@],
    }
}

/// A part of the panel with a heading, which is left out where it has no rows.
pub open spec fn part_lines(heading: Seq<char>, rows: Seq<Seq<char>>) -> Seq<Seq<char>> {
    if rows.len() == 0 {
        Seq::<Seq<char>>::empty()
    } else {
        seq![heading, ""@] + rows + seq![""@]
    }
}

/// The section of the final message and the facts beside it, which is left out
/// where there is nothing to set side by side.
pub open spec fn claim_lines(claim: Option<ClaimV>) -> Seq<Seq<char>> {
    match claim {
        None => Seq::<Seq<char>>::empty(),
        Some(c) => seq![
            "## Claim vs reality"@,
            ""@,
            "_The final message beside the recorded facts; no judgement is made._"@,
            ""@,
        ] + message_lines(c.final_message) + part_lines(
            "Test-like commands recorded:"@,
            run_lines(c.test_commands),
        ) + part_lines("Test files written or edited:"@, file_lines(c.test_files)) + seq![
            "Calls with no result: "@ + decimal(c.no_result_calls as nat) + " (outcome not observed)"@,
            ""@,
        ] + part_lines("Notes:"@, cue_lines(c.cues)),
    }
}

/// The row of a timeline entry.
pub open spec fn timeline_line(e: DigestEntryV) -> Seq<char> {
    let status = match e.status {
        Some(s) => " ["@ + s + "]"@ + (match e.duration_ms {
            Some(d) => " ("@ + duration_text(d) + ")"@,
            None => ""@,
        }),
        None => ""@,
    };
    let summary = if e.summary.len() == 0 {
        ""@
    } else {
        " · "@ + e.summary
    };
    "- `"@ + offset_text(e.offset_ms) + "` · "@ + e.tag + status + summary + " · "@ + word_of(
        e.attribution,
    )
}

/// The rows of a timeline.
pub open spec fn timeline_rows(es: Seq<DigestEntryV>) -> Seq<Seq<char>> {
    Seq::new(es.len(), |i: int| timeline_line(es[i]))
}

/// The section of the timeline.
pub open spec fn timeline_lines(es: Seq<DigestEntryV>) -> Seq<Seq<char>> {
    let head = seq!["## Timeline"@, ""@];
    if es.len() == 0 {
        head + seq!["_No events recorded._"@, ""@]
    } else {
        head + timeline_rows(es) + seq![""@]
    }
}

/// The scope note.
pub open spec fn scope_lines(disclaimer: Seq<Seq<char>>) -> Seq<Seq<char>> {
    seq!["## Observation scope"@, ""@] + disclaimer
}

/// The lines of a report.
pub open spec fn report_lines(r: ReportV) -> Seq<Seq<char>> {
    header_lines(r.session_id, r.host) + summary_lines(r.summary) + touched_lines(r.touched_files)
        + executed_lines(r.commands) + flagged_lines(r.flags) + claim_lines(r.claim_vs_reality)
        + timeline_lines(r.timeline) + scope_lines(r.disclaimer)
}

fn time_text(t: Option<i64>) -> (out: String)
    ensures
        out@ == time_or_dash(t),
{
    match t {
        Some(ms) => format_utc(ms),
        None => "-".to_owned(),
    }
}

fn span_text(d: Option<i64>) -> (out: String)
    ensures
        out@ == duration_or_dash(d),
{
    match d {
        Some(ms) => format_duration_ms(ms),
        None => "-".to_owned(),
    }
}

fn labelled(label: &str, value: String) -> (out: String)
    ensures
        out@ == label@ + value@,
{
    label.to_owned().concat(value.as_str())
}

fn render_header(session_id: &str, host_name: &str) -> (out: Vec<String>)
    ensures
        views(out@) == header_lines(session_id@, host_name@),
{
    let mut out = no_lines();
    own_line(&mut out, "# Session report: ".to_owned().concat(session_id));
    line(&mut out, "");
    own_line(
        &mut out,
        "_Observation only — records what ".to_owned().concat(host_name).concat(
            " hooks reported. See the scope note at the end._",
        ),
    );
    line(&mut out, "");
    proof {
        assert(views(out@) =~= header_lines(session_id@, host_name@));
    }
    out
}

fn render_summary(s: &Summary) -> (out: Vec<String>)
    ensures
        views(out@) == summary_lines(*s),
{
    let mut out = no_lines();
    line(&mut out, "## Summary");
    line(&mut out, "");
    own_line(&mut out, labelled("- Started: ", time_text(s.started_ms)));
    own_line(&mut out, labelled("- Duration: ", span_text(s.duration_ms)));
    own_line(&mut out, labelled("- Tool calls: ", decimal_usize(s.tool_calls)));
    own_line(&mut out, labelled("- Touched files: ", decimal_usize(s.touched_files)));
    own_line(&mut out, labelled("- Commands: ", decimal_usize(s.commands)));
    own_line(&mut out, labelled("- Events: ", decimal_usize(s.events)));
    own_line(&mut out, labelled("- Corrupt lines: ", decimal_usize(s.corrupt_lines)));
    line(&mut out, "");
    proof {
        assert(views(out@) =~= summary_lines(*s));
    }
    out
}

fn render_file(path: &str, tools: &Vec<String>, attribution: Attribution) -> (out: String)
    ensures
        out@ == file_line(TestFileV { path: path@, tools: views(tools@), attribution }),
{
    "- `".to_owned().concat(path).concat("` — ").concat(join(tools, ", ").as_str()).concat(
        " (",
    ).concat(attribution_word(attribution)).concat(")")
}

fn render_touched_files(files: &Vec<TouchedFile>) -> (out: Vec<String>)
    ensures
        views(out@) == touched_lines(touched_views(files@)),
{
    let ghost fv = touched_views(files@);
    let mut out = no_lines();
    line(&mut out, "## Touched files");
    line(&mut out, "");
    line(&mut out, "_From `tool_input.file_path`; attribution noted._");
    line(&mut out, "");
    let ghost head = views(out@);
    if files.len() == 0 {
        line(&mut out, "_None observed._");
        line(&mut out, "");
        proof {
            assert(views(out@) =~= touched_lines(fv));
        }
        return out;
    }
    proof {
        assert(head + file_lines(fv).take(0) =~= head);
    }
    for i in 0..files.len()
        invariant
            fv == touched_views(files@),
            views(out@) == head + file_lines(fv).take(i as int),
    {
        let f = &files[i];
        own_line(&mut out, render_file(f.path.as_str(), &f.tools, f.attribution));
        proof {
            assert(file_lines(fv)[i as int] == file_line(files@[i as int]@));
            assert(views(out@) =~= head + file_lines(fv).take(i + 1));
        }
    }
    line(&mut out, "");
    proof {
        assert(views(out@) =~= touched_lines(fv));
    }
    out
}

fn render_command(c: &CommandRun) -> (out: String)
    ensures
        out@ == command_line(c@),
{
    let duration = match c.duration_ms {
        Some(d) => ", ".to_owned().concat(format_duration_ms(d).as_str()),
        None => "".to_owned(),
    };
    "- `".to_owned().concat(c.command.as_str()).concat("` — ").concat(c.status).concat(
        duration.as_str(),
    ).concat(" (").concat(attribution_word(c.attribution)).concat(")")
}

fn render_commands(commands: &Vec<CommandRun>) -> (out: Vec<String>)
    ensures
        views(out@) == executed_lines(command_views(commands@)),
{
    let ghost cv = command_views(commands@);
    let mut out = no_lines();
    line(&mut out, "## Executed commands");
    line(&mut out, "");
    line(&mut out, "_From Bash `tool_input.command`._");
    line(&mut out, "");
    let ghost head = views(out@);
    if commands.len() == 0 {
        line(&mut out, "_None observed._");
        line(&mut out, "");
        proof {
            assert(views(out@) =~= executed_lines(cv));
        }
        return out;
    }
    proof {
        assert(head + command_lines(cv).take(0) =~= head);
    }
    for i in 0..commands.len()
        invariant
            cv == command_views(commands@),
            views(out@) == head + command_lines(cv).take(i as int),
    {
        own_line(&mut out, render_command(&commands[i]));
        proof {
            assert(command_lines(cv)[i as int] == command_line(commands@[i as int]@));
            assert(views(out@) =~= head + command_lines(cv).take(i + 1));
        }
    }
    line(&mut out, "");
    proof {
        assert(views(out@) =~= executed_lines(cv));
    }
    out
}

fn render_flag(f: &Flag) -> (out: String)
    ensures
        out@ == flag_line(f@),
{
    "- **".to_owned().concat(f.severity.label()).concat("** `").concat(
        one_line(f.command.as_str()).as_str(),
    ).concat("` — ").concat(f.rationale).concat(" (").concat(f.pattern).concat(")")
}

fn render_flags(flags: &Vec<Flag>) -> (out: Vec<String>)
    ensures
        views(out@) == flagged_lines(flag_views(flags@)),
{
    let ghost fv = flag_views(flags@);
    let mut out = no_lines();
    if flags.len() == 0 {
        return out;
    }
    line(&mut out, "## Flagged commands");
    line(&mut out, "");
    line(
        &mut out,
        "_Command class only — no claim about intent, outcome, or damage. Best-effort match on the recorded text._",
    );
    line(&mut out, "");
    let ghost head = views(out@);
    proof {
        assert(head + flag_lines(fv).take(0) =~= head);
    }
    for i in 0..flags.len()
        invariant
            fv == flag_views(flags@),
            views(out@) == head + flag_lines(fv).take(i as int),
    {
        own_line(&mut out, render_flag(&flags[i]));
        proof {
            assert(flag_lines(fv)[i as int] == flag_line(flags@[i as int]@));
            assert(views(out@) =~= head + flag_lines(fv).take(i + 1));
        }
    }
    line(&mut out, "");
    proof {
        assert(views(out@) =~= flagged_lines(fv));
    }
    out
}

fn render_part(heading: &str, rows: Vec<String>) -> (out: Vec<String>)
    ensures
        views(out@) == part_lines(heading@, views(rows@)),
{
    let mut out = no_lines();
    proof {
        assert(views(rows@).len() == rows@.len());
    }
    if rows.len() == 0 {
        return out;
    }
    line(&mut out, heading);
    line(&mut out, "");
    let ghost head = views(out@);
    let ghost rv = views(rows@);
    add_lines(&mut out, rows);
    line(&mut out, "");
    proof {
        assert(head =~= seq![heading@, ""@]);
        assert(views(out@) =~= part_lines(heading@, rv));
    }
    out
}

fn render_runs(runs: &Vec<TestCommandRun>) -> (out: Vec<String>)
    ensures
        views(out@) == run_lines(run_views(runs@)),
{
    let ghost rv = run_views(runs@);
    let mut out = no_lines();
    proof {
        assert(run_lines(rv).take(0) =~= Seq::<Seq<char>>::empty());
    }
    for i in 0..runs.len()
        invariant
            rv == run_views(runs@),
            views(out@) == run_lines(rv).take(i as int),
    {
        let r = &runs[i];
        own_line(
            &mut out,
            "- `".to_owned().concat(r.command.as_str()).concat("` — ").concat(r.kind).concat(
                ", ",
            ).concat(r.status).concat(" (").concat(attribution_word(r.attribution)).concat(")"),
        );
        proof {
            assert(run_lines(rv)[i as int] == run_line(runs@[i as int]@));
            assert(views(out@) =~= run_lines(rv).take(i + 1));
        }
    }
    proof {
        assert(run_lines(rv).take(rv.len() as int) =~= run_lines(rv));
    }
    out
}

fn render_test_files(files: &Vec<TestFile>) -> (out: Vec<String>)
    ensures
        views(out@) == file_lines(file_views(files@)),
{
    let ghost fv = file_views(files@);
    let mut out = no_lines();
    proof {
        assert(file_lines(fv).take(0) =~= Seq::<Seq<char>>::empty());
    }
    for i in 0..files.len()
        invariant
            fv == file_views(files@),
            views(out@) == file_lines(fv).take(i as int),
    {
        let f = &files[i];
        own_line(&mut out, render_file(f.path.as_str(), &f.tools, f.attribution));
        proof {
            assert(file_lines(fv)[i as int] == file_line(files@[i as int]@));
            assert(views(out@) =~= file_lines(fv).take(i + 1));
        }
    }
    proof {
        assert(file_lines(fv).take(fv.len() as int) =~= file_lines(fv));
    }
    out
}

/// Puts `prefix` before each line.
fn prefix_lines(prefix: &str, all: &Vec<String>) -> (out: Vec<String>)
    ensures
        out@.len() == all@.len(),
        forall|i: int| 0 <= i < all@.len() ==> (#[trigger] out@[i])@ == prefix@ + all@[i]@,
{
    let mut out: Vec<String> = Vec::new();
    for i in 0..all.len()
        invariant
            out@.len() == i,
            forall|k: int| 0 <= k < i ==> (#[trigger] out@[k])@ == prefix@ + all@[k]@,
    {
        out.push(prefix.to_owned().concat(all[i].as_str()));
    }
    out
}

fn render_message(message: &Option<String>) -> (out: Vec<String>)
    ensures
        views(out@) == message_lines(opt_view(*message)),
{
    let mut out = no_lines();
    match message {
        Some(m) => {
            line(&mut out, "Final message (verbatim):");
            line(&mut out, "");
            let all = crate::split::lines(m.as_str());
            let quoted = prefix_lines("> ", &all);
            proof {
                let lv = crate::split::lines_of(m@);
                assert forall|i: int| 0 <= i < lv.len() implies lv[i] == (#[trigger] all@[i])@ by {
                    assert(views(all@)[i] == all@[i]@);
                }
                assert(views(quoted@) =~= quoted_lines(lv));
            }
            add_lines(&mut out, quoted);
            line(&mut out, "");
            proof {
                assert(views(out@) =~= message_lines(Some(m@)));
            }
        },
        None => {
            line(&mut out, "_No final message recorded._");
            line(&mut out, "");
            proof {
                assert(views(out@) =~= message_lines(None));
            }
        },
    }
    out
}

fn render_claim(claim: &Option<ClaimVsReality>) -> (out: Vec<String>)
    ensures
        views(out@) == claim_lines(
            match *claim {
                Some(c) => Some(c@),
                None => None,
            },
        ),
{
    let mut out = no_lines();
    match claim {
        None => {},
        Some(c) => {
            line(&mut out, "## Claim vs reality");
            line(&mut out, "");
            line(&mut out, "_The final message beside the recorded facts; no judgement is made._");
            line(&mut out, "");
            proof {
                assert(views(out@) =~= seq![
                    "## Claim vs reality"@,
                    ""@,
                    "_The final message beside the recorded facts; no judgement is made._"@,
                    ""@,
                ]);
            }
            add_lines(&mut out, render_message(&c.final_message));
            add_lines(
                &mut out,
                render_part("Test-like commands recorded:", render_runs(&c.test_commands)),
            );
            add_lines(
                &mut out,
                render_part("Test files written or edited:", render_test_files(&c.test_files)),
            );
            let mut counts = no_lines();
            own_line(
                &mut counts,
                "Calls with no result: ".to_owned().concat(
                    decimal_usize(c.no_result_calls).as_str(),
                ).concat(" (outcome not observed)"),
            );
            line(&mut counts, "");
            proof {
                assert(views(counts@) =~= seq![
                    "Calls with no result: "@ + decimal(c.no_result_calls as nat)
                        + " (outcome not observed)"@,
                    ""@,
                ]);
            }
            add_lines(&mut out, counts);
            let cues = prefix_lines("- ", &c.cues);
            proof {
                assert(views(cues@) =~= cue_lines(views(c.cues@)));
            }
            add_lines(&mut out, render_part("Notes:", cues));
        },
    }
    out
}

fn render_entry(e: &TimelineDigestEntry) -> (out: String)
    ensures
        out@ == timeline_line(e@),
{
    let status = match e.status {
        Some(s) => {
            let d = match e.duration_ms {
                Some(d) => " (".to_owned().concat(format_duration_ms(d).as_str()).concat(")"),
                None => "".to_owned(),
            };
            " [".to_owned().concat(s).concat("]").concat(d.as_str())
        },
        None => "".to_owned(),
    };
    let summary = if e.summary.as_str().is_empty() {
        "".to_owned()
    } else {
        " · ".to_owned().concat(e.summary.as_str())
    };
    "- `".to_owned().concat(format_offset_ms(e.offset_ms).as_str()).concat("` · ").concat(
        e.tag.as_str(),
    ).concat(status.as_str()).concat(summary.as_str()).concat(" · ").concat(
        attribution_word(e.attribution),
    )
}

fn render_timeline(timeline: &Vec<TimelineDigestEntry>) -> (out: Vec<String>)
    ensures
        views(out@) == timeline_lines(digest_views(timeline@)),
{
    let ghost tv = digest_views(timeline@);
    let mut out = no_lines();
    line(&mut out, "## Timeline");
    line(&mut out, "");
    let ghost head = views(out@);
    if timeline.len() == 0 {
        line(&mut out, "_No events recorded._");
        line(&mut out, "");
        proof {
            assert(views(out@) =~= timeline_lines(tv));
        }
        return out;
    }
    proof {
        assert(head + timeline_rows(tv).take(0) =~= head);
    }
    for i in 0..timeline.len()
        invariant
            tv == digest_views(timeline@),
            views(out@) == head + timeline_rows(tv).take(i as int),
    {
        own_line(&mut out, render_entry(&timeline[i]));
        proof {
            assert(timeline_rows(tv)[i as int] == timeline_line(timeline@[i as int]@));
            assert(views(out@) =~= head + timeline_rows(tv).take(i + 1));
        }
    }
    line(&mut out, "");
    proof {
        assert(views(out@) =~= timeline_lines(tv));
    }
    out
}

/// Renders a report as a markdown document.
pub fn render_markdown(report: &SessionReport) -> (out: String)
    ensures
        out@ == lines_text(report_lines(report@)),
{
    let mut all = render_header(report.session_id.as_str(), report.host.as_str());
    add_lines(&mut all, render_summary(&report.summary));
    add_lines(&mut all, render_touched_files(&report.touched_files));
    add_lines(&mut all, render_commands(&report.commands));
    add_lines(&mut all, render_flags(&report.flags));
    add_lines(&mut all, render_claim(&report.claim_vs_reality));
    add_lines(&mut all, render_timeline(&report.timeline));
    let mut scope = no_lines();
    line(&mut scope, "## Observation scope");
    line(&mut scope, "");
    add_lines(&mut scope, crate::text::clone_strings(&report.disclaimer));
    proof {
        assert(views(scope@) =~= scope_lines(report@.disclaimer));
    }
    add_lines(&mut all, scope);
    render_lines(&all)
}

/// Renders reports in one format.
pub trait SessionExporter {
    /// The report as a text that stands by itself.
    fn export(&self, report: &SessionReport) -> (out: String);
}

/// Renders a report as a markdown document.
#[derive(Debug, Clone, Copy)]
pub struct MarkdownExporter;

impl SessionExporter for MarkdownExporter {
    fn export(&self, report: &SessionReport) -> (out: String)
        ensures
            out@ == lines_text(report_lines(report@)),
    {
        render_markdown(report)
    }
}

// ---------------------------------------------------------------------------
// Laws
// ---------------------------------------------------------------------------

/// Every report of a session, whatever was recorded, states in its text that
/// only what the hooks report is recorded, and how many lines could not be read.
pub proof fn every_report_states_its_scope(
    session_id: Seq<char>,
    events: Seq<EventV>,
    skipped: usize,
    started_ms: Option<i64>,
    host_name: Seq<char>,
)
    ensures
        ({
            let r = report_of(session_id, events, skipped, started_ms, host_name);
            &&& has_text(lines_text(report_lines(r)), scope_marker(host_name))
            &&& finishes(
                lines_text(report_lines(r)),
                lines_text(disclaimer_of(skipped as int, host_name)),
            )
        }),
{
    let r = report_of(session_id, events, skipped, started_ms, host_name);
    let d = disclaimer_of(skipped as int, host_name);
    let before = header_lines(r.session_id, r.host) + summary_lines(r.summary) + touched_lines(
        r.touched_files,
    ) + executed_lines(r.commands) + flagged_lines(r.flags) + claim_lines(r.claim_vs_reality)
        + timeline_lines(r.timeline);
    let head = before + seq!["## Observation scope"@, ""@];
    assert(report_lines(r) =~= head + d);
    lines_text_append(head, d);
    let first = d.take(1);
    assert(d =~= first + d.skip(1));
    lines_text_append(first, d.skip(1));
    assert(first.drop_last() =~= Seq::<Seq<char>>::empty());
    assert(lines_text(first.drop_last()) =~= Seq::<char>::empty());
    let marker = scope_marker(host_name);
    let whole = lines_text(report_lines(r));
    reveal_strlit("agent-witness ");
    assert(first.last() == "agent-witness "@ + marker
        + ": tool calls and their inputs, not their side effects."@);
    let k = lines_text(head).len() + 14;
    assert(whole.subrange(k as int, k as int + marker.len()) =~= marker);
    assert(occurs_at(whole, marker, k as int));
    let tail = lines_text(d);
    assert(whole.subrange(whole.len() - tail.len(), whole.len() as int) =~= tail);
}

/// The flags of a report stand with the critical ones first.
pub proof fn critical_flags_come_first(entries: Seq<EntryV>, i: int, j: int)
    requires
        0 <= i < j < report_flags(entries).len(),
    ensures
        report_flags(entries)[i].severity.spec_rank() <= report_flags(
            entries,
        )[j].severity.spec_rank(),
{
    let lt = |a: FlagV, b: FlagV| more_severe(a, b);
    crate::order::sorted_by_sorts(raised_flags(entries), lt);
    assert(!lt(report_flags(entries)[j], report_flags(entries)[i]));
}

} // verus!
