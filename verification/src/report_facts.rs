//! What a report promises of the files, the commands and the rows that it shows.
use vstd::prelude::*;

use crate::claim::{file_at, looks_like_test, test_files_of, with_reference, TestFileV};
use crate::count::{how_many, lemma_how_many_at_most};
use crate::event::{Attribution, EventKind, EventV};
use crate::flags::{flags_of, FlagSeverity, FlagV};
use crate::num::decimal;
use crate::order::{is_order, sorted_by_sorts};
use crate::report::{
    claim_lines, command_lines, commands_of, cue_lines, executed_lines, file_lines, flag_lines,
    flagged_lines, header_lines, message_lines, more_severe, part_lines, quoted_lines,
    raised_flags, report_flags, report_lines, report_of, run_lines, scope_lines, summary_lines,
    timeline_line, timeline_lines, timeline_rows, touched_lines, touched_of, CommandRunV, ReportV,
};
use crate::split::{flat, joined, lines_of};
use crate::timefmt::{duration_text, offset_text, utc_text};
use crate::timeline::{timeline_of, EntryV, ToolStatus};

verus! {

// ---------------------------------------------------------------------------
// Files
// ---------------------------------------------------------------------------

/// The files that rows name, in the order in which they first do.
pub open spec fn gathered(
    rows: Seq<EntryV>,
    named: spec_fn(EntryV) -> Option<Seq<char>>,
) -> Seq<TestFileV>
    decreases rows.len(),
{
    if rows.len() == 0 {
        Seq::<TestFileV>::empty()
    } else {
        let before = gathered(rows.drop_last(), named);
        let e = rows.last();
        match named(e) {
            Some(path) => with_reference(before, path, e.tag, e.attribution),
            None => before,
        }
    }
}

/// Whether one of the rows names a file.
pub open spec fn is_named(
    rows: Seq<EntryV>,
    named: spec_fn(EntryV) -> Option<Seq<char>>,
    path: Seq<char>,
) -> bool {
    exists|k: int| 0 <= k < rows.len() && named(#[trigger] rows[k]) == Some(path)
}

/// Whether a path stands among files.
pub open spec fn is_among(files: Seq<TestFileV>, path: Seq<char>) -> bool {
    exists|i: int| 0 <= i < files.len() && (#[trigger] files[i]).path == path
}

proof fn lemma_file_at(files: Seq<TestFileV>, path: Seq<char>)
    ensures
        0 <= file_at(files, path) <= files.len(),
        file_at(files, path) < files.len() ==> files[file_at(files, path)].path == path,
        forall|j: int| 0 <= j < file_at(files, path) ==> (#[trigger] files[j]).path != path,
    decreases files.len(),
{
    if files.len() > 0 && files[0].path != path {
        let t = files.skip(1);
        lemma_file_at(t, path);
        let k = file_at(files, path);
        assert forall|j: int| 0 <= j < k implies (#[trigger] files[j]).path != path by {
            if j > 0 {
                assert(t[j - 1] == files[j]);
            }
        }
        if k < files.len() {
            assert(t[k - 1] == files[k]);
        }
    }
}

proof fn lemma_gathered(
    rows: Seq<EntryV>,
    named: spec_fn(EntryV) -> Option<Seq<char>>,
    path: Seq<char>,
)
    ensures
        is_among(gathered(rows, named), path) <==> is_named(rows, named, path),
        forall|i: int, j: int|
            0 <= i < j < gathered(rows, named).len() ==> (#[trigger] gathered(rows, named)[i]).path
                != (#[trigger] gathered(rows, named)[j]).path,
    decreases rows.len(),
{
    if rows.len() > 0 {
        let t = rows.drop_last();
        let e = rows.last();
        lemma_gathered(t, named, path);
        let before = gathered(t, named);
        let after = gathered(rows, named);
        match named(e) {
            Some(p) => {
                lemma_file_at(before, p);
            },
            None => {},
        }
        if is_named(t, named, path) {
            let k = choose|k: int| 0 <= k < t.len() && named(#[trigger] t[k]) == Some(path);
            assert(rows[k] == t[k]);
            let i = choose|i: int| 0 <= i < before.len() && (#[trigger] before[i]).path == path;
            assert(after[i].path == path);
        }
        if is_named(rows, named, path) {
            let k = choose|k: int| 0 <= k < rows.len() && named(#[trigger] rows[k]) == Some(path);
            if k < t.len() {
                assert(t[k] == rows[k]);
            }
        }
        match named(e) {
            Some(p) => {
                let k = file_at(before, p);
                if p == path {
                    assert(rows[rows.len() - 1] == e);
                    assert(after[k].path == path);
                }
                assert forall|i: int, j: int| 0 <= i < j < after.len() implies (
                #[trigger] after[i]).path != (#[trigger] after[j]).path by {
                    if j < before.len() {
                        assert(before[i].path != before[j].path);
                    } else {
                        assert(before[i].path != p);
                    }
                }
                if is_among(after, path) && p != path {
                    let i = choose|i: int| 0 <= i < after.len() && (#[trigger] after[i]).path == path;
                    assert(before[i].path == path);
                }
            },
            None => {},
        }
    }
}

/// What one row more does to the files that rows name.
pub open spec fn is_gathered_behind(
    before: Seq<TestFileV>,
    after: Seq<TestFileV>,
    rows: Seq<EntryV>,
    named: spec_fn(EntryV) -> Option<Seq<char>>,
    e: EntryV,
) -> bool {
    match named(e) {
        None => after == before,
        Some(path) => if is_named(rows, named, path) {
            &&& after.len() == before.len()
            &&& forall|i: int|
                0 <= i < before.len() ==> (#[trigger] after[i]).path == before[i].path
                    && after[i].attribution == before[i].attribution && after[i].tools == (
                if before[i].path == path && !before[i].tools.contains(e.tag) {
                    before[i].tools.push(e.tag)
                } else {
                    before[i].tools
                })
        } else {
            after == before.push(
                TestFileV { path, tools: seq![e.tag], attribution: e.attribution },
            )
        },
    }
}

proof fn lemma_gathered_behind(
    rows: Seq<EntryV>,
    named: spec_fn(EntryV) -> Option<Seq<char>>,
    e: EntryV,
)
    ensures
        is_gathered_behind(
            gathered(rows, named),
            gathered(rows.push(e), named),
            rows,
            named,
            e,
        ),
{
    assert(rows.push(e).drop_last() =~= rows);
    let before = gathered(rows, named);
    let after = gathered(rows.push(e), named);
    match named(e) {
        Some(path) => {
            lemma_gathered(rows, named, path);
            lemma_file_at(before, path);
            let k = file_at(before, path);
            if is_named(rows, named, path) {
                assert(is_among(before, path));
                let i = choose|i: int| 0 <= i < before.len() && (#[trigger] before[i]).path == path;
                assert(k < before.len());
                assert forall|i: int| 0 <= i < before.len() implies (#[trigger] after[i]).path
                    == before[i].path && after[i].attribution == before[i].attribution
                    && after[i].tools == (if before[i].path == path
                    && !before[i].tools.contains(e.tag) {
                    before[i].tools.push(e.tag)
                } else {
                    before[i].tools
                }) by {
                    if i < k {
                        assert(before[i].path != before[k].path);
                    } else if k < i {
                        assert(before[k].path != before[i].path);
                    }
                }
            } else if k < before.len() {
                assert(is_among(before, path));
            }
        },
        None => {},
    }
}

/// The file that a tool row names.
pub open spec fn named_file(e: EntryV) -> Option<Seq<char>> {
    if e.tool_status is Some {
        e.call.input("file_path"@)
    } else {
        None
    }
}

/// The test file that a tool row writes: one that a writing tool names and that looks like
/// a test.
pub open spec fn named_test(e: EntryV) -> Option<Seq<char>> {
    match named_file(e) {
        Some(path) => if looks_like_test(path) && (e.tag == "Write"@ || e.tag == "Edit"@ || e.tag
            == "MultiEdit"@) {
            Some(path)
        } else {
            None
        },
        None => None,
    }
}

proof fn lemma_touched(rows: Seq<EntryV>)
    ensures
        touched_of(rows) == gathered(rows, |e: EntryV| named_file(e)),
    decreases rows.len(),
{
    if rows.len() > 0 {
        lemma_touched(rows.drop_last());
    }
}

proof fn lemma_tests(rows: Seq<EntryV>)
    ensures
        test_files_of(rows) == gathered(rows, |e: EntryV| named_test(e)),
    decreases rows.len(),
{
    if rows.len() > 0 {
        lemma_tests(rows.drop_last());
    }
}

/// The touched files are gathered row by row: a tool row that names a file which no row
/// before it named puts it behind the others, with its tool and its attribution; one that
/// names a file again adds its tool where that is new, and changes nothing else.
pub proof fn touched_files_are_gathered(rows: Seq<EntryV>, e: EntryV)
    ensures
        is_gathered_behind(
            touched_of(rows),
            touched_of(rows.push(e)),
            rows,
            |x: EntryV| named_file(x),
            e,
        ),
        touched_of(Seq::empty()).len() == 0,
{
    lemma_touched(rows);
    lemma_touched(rows.push(e));
    lemma_gathered_behind(rows, |x: EntryV| named_file(x), e);
}

/// The test files are gathered row by row in the same way, from the rows of writing tools
/// that name a test.
pub proof fn test_files_are_gathered(rows: Seq<EntryV>, e: EntryV)
    ensures
        is_gathered_behind(
            test_files_of(rows),
            test_files_of(rows.push(e)),
            rows,
            |x: EntryV| named_test(x),
            e,
        ),
        test_files_of(Seq::empty()).len() == 0,
{
    lemma_tests(rows);
    lemma_tests(rows.push(e));
    lemma_gathered_behind(rows, |x: EntryV| named_test(x), e);
}

// ---------------------------------------------------------------------------
// Commands and flags
// ---------------------------------------------------------------------------

/// The word for an outcome.
pub open spec fn outcome_word(s: ToolStatus) -> Seq<char> {
    match s {
        ToolStatus::Okay => "ok"@,
        ToolStatus::Failed => "failed"@,
        ToolStatus::NoResult => "no-result"@,
    }
}

/// The commands are listed row by row: a tool row with a command puts it behind the others,
/// with its outcome, its duration and its attribution; every other row adds none.
pub proof fn commands_are_listed_row_by_row(rows: Seq<EntryV>, e: EntryV, command: Seq<char>)
    ensures
        e.tool_status is Some && e.call.input("command"@) == Some(command) ==> commands_of(
            rows.push(e),
        ) == commands_of(rows).push(
            CommandRunV {
                command: flat(command),
                status: outcome_word(e.tool_status->0),
                duration_ms: e.duration_ms,
                attribution: e.attribution,
            },
        ),
        e.tool_status is None || e.call.input("command"@) is None ==> commands_of(rows.push(e))
            == commands_of(rows),
        commands_of(Seq::empty()).len() == 0,
{
    assert(rows.push(e).drop_last() =~= rows);
}

/// Whether a row raises a flag.
pub open spec fn raises(e: EntryV, f: FlagV) -> bool {
    e.tool_status is Some && e.call.input("command"@) is Some && flags_of(
        e.call.input("command"@)->0,
    ).contains(f)
}

proof fn lemma_raised(rows: Seq<EntryV>, f: FlagV)
    ensures
        raised_flags(rows).contains(f) <==> exists|i: int|
            0 <= i < rows.len() && raises(#[trigger] rows[i], f),
    decreases rows.len(),
{
    if rows.len() > 0 {
        let t = rows.drop_last();
        lemma_raised(t, f);
        let a = raised_flags(t);
        let b = raised_flags(rows);
        if a.contains(f) {
            let k = a.index_of(f);
            assert(b[k] == f);
            let i = choose|i: int| 0 <= i < t.len() && raises(#[trigger] t[i], f);
            assert(raises(rows[i], f));
        }
        if raises(rows.last(), f) {
            let c = flags_of(rows.last().call.input("command"@)->0);
            let k = c.index_of(f);
            assert(b[a.len() + k] == f);
            assert(raises(rows[rows.len() - 1], f));
        }
        if exists|i: int| 0 <= i < rows.len() && raises(#[trigger] rows[i], f) {
            let i = choose|i: int| 0 <= i < rows.len() && raises(#[trigger] rows[i], f);
            if i < t.len() {
                assert(raises(t[i], f));
            }
        }
        if b.contains(f) && !a.contains(f) {
            let k = b.index_of(f);
            if k < a.len() {
                assert(a[k] == f);
            } else {
                let c = flags_of(rows.last().call.input("command"@)->0);
                assert(c[k - a.len()] == f);
            }
        }
    }
}

/// A report shows a flag exactly if the command of one of its rows raises it, and shows the
/// critical ones before the others.
pub proof fn flags_are_shown_for_every_command(rows: Seq<EntryV>, f: FlagV)
    ensures
        report_flags(rows).contains(f) <==> exists|i: int|
            0 <= i < rows.len() && raises(#[trigger] rows[i], f),
        report_flags(rows).len() == raised_flags(rows).len(),
        forall|i: int, j: int|
            0 <= i < j < report_flags(rows).len() && (#[trigger] report_flags(rows)[j]).severity
                == FlagSeverity::Critical ==> (#[trigger] report_flags(rows)[i]).severity
                == FlagSeverity::Critical,
{
    broadcast use vstd::seq_lib::group_to_multiset_ensures;

    lemma_raised(rows, f);
    let lt = |a: FlagV, b: FlagV| more_severe(a, b);
    assert(is_order(lt));
    sorted_by_sorts(raised_flags(rows), lt);
    let o = report_flags(rows);
    assert(o.contains(f) <==> o.to_multiset().count(f) > 0);
    assert(raised_flags(rows).contains(f) <==> raised_flags(rows).to_multiset().count(f) > 0);
    assert forall|i: int, j: int|
        0 <= i < j < o.len() && (#[trigger] o[j]).severity == FlagSeverity::Critical implies (
    #[trigger] o[i]).severity == FlagSeverity::Critical by {
        assert(!lt(o[j], o[i]));
    }
}

/// The numbers at the head of a report are those of what it was made from: the events, the
/// calls among them, the files and commands that it lists, the lines that could not be
/// read, and the time from the first event to the last.
pub proof fn reports_count_what_they_show(
    session_id: Seq<char>,
    events: Seq<EventV>,
    skipped: usize,
    started_ms: Option<i64>,
    host_name: Seq<char>,
)
    requires
        events.len() <= usize::MAX,
        events.len() > 0 ==> i64::MIN <= events[events.len() - 1].ts - events[0].ts <= i64::MAX,
    ensures
        ({
            let r = report_of(session_id, events, skipped, started_ms, host_name);
            let rows = timeline_of(events);
            &&& r.session_id == session_id
            &&& r.summary.events == events.len()
            &&& r.summary.tool_calls == how_many(events, |e: EventV| e.kind == EventKind::ToolCall)
            &&& r.summary.corrupt_lines == skipped
            &&& started_ms is Some ==> r.summary.started_ms == started_ms
            &&& started_ms is None && events.len() > 0 ==> r.summary.started_ms == Some(
                events[0].ts,
            )
            &&& events.len() > 0 ==> r.summary.duration_ms is Some && r.summary.duration_ms->0
                == events[events.len() - 1].ts - events[0].ts
            &&& events.len() == 0 ==> r.summary.duration_ms is None
            &&& r.touched_files == touched_of(rows)
            &&& r.commands == commands_of(rows)
            &&& r.flags == report_flags(rows)
            &&& r.timeline.len() == rows.len()
            &&& forall|i: int|
                0 <= i < rows.len() ==> (#[trigger] r.timeline[i]).tag == rows[i].tag
                    && r.timeline[i].offset_ms == rows[i].ts - events[0].ts
                    && r.timeline[i].attribution == rows[i].attribution && r.timeline[i].source
                    == rows[i].source && r.timeline[i].duration_ms == rows[i].duration_ms
                    && r.timeline[i].summary == rows[i].summary && match rows[i].tool_status {
                    Some(s) => r.timeline[i].status == Some(outcome_word(s)),
                    None => r.timeline[i].status is None,
                }
        }),
{
    crate::selection::summaries_tell_of_the_events(session_id, None, events);
    lemma_how_many_at_most(events, |e: EventV| e.kind == EventKind::ToolCall);
}

// ---------------------------------------------------------------------------
// Lines
// ---------------------------------------------------------------------------

/// The word for an attribution.
pub open spec fn attribution_word_of(a: Attribution) -> Seq<char> {
    match a {
        Attribution::Direct => "direct"@,
        Attribution::Observed => "observed"@,
        Attribution::Inferred => "inferred"@,
    }
}

proof fn lemma_shown(a: Seq<Seq<char>>, b: Seq<Seq<char>>, c: Seq<Seq<char>>, k: int)
    requires
        0 <= k < b.len(),
    ensures
        (a + b + c).contains(b[k]),
{
    assert((a + b + c)[a.len() + k] == b[k]);
}

/// The sections of a report stand one behind the other.
proof fn lemma_sections(
    a: Seq<Seq<char>>,
    b: Seq<Seq<char>>,
    c: Seq<Seq<char>>,
    d: Seq<Seq<char>>,
    x: Seq<char>,
)
    ensures
        b.contains(x) ==> (a + b + c + d).contains(x),
        c.contains(x) ==> (a + b + c + d).contains(x),
{
    if b.contains(x) {
        let k = b.index_of(x);
        assert((a + b + c + d)[a.len() + k] == x);
    }
    if c.contains(x) {
        let k = c.index_of(x);
        assert((a + b + c + d)[a.len() + b.len() + k] == x);
    }
}

/// A report shows each of its files, commands, flags and timeline rows on a line of its
/// own, with its outcome and its attribution, and the numbers at its head.
pub proof fn every_row_is_shown(r: ReportV, i: int)
    ensures
        0 <= i < r.touched_files.len() ==> report_lines(r).contains(
            "- `"@ + r.touched_files[i].path + "` — "@ + joined(r.touched_files[i].tools, ", "@)
                + " ("@ + attribution_word_of(r.touched_files[i].attribution) + ")"@,
        ),
        0 <= i < r.commands.len() ==> report_lines(r).contains(
            "- `"@ + r.commands[i].command + "` — "@ + r.commands[i].status + (match r.commands[i].duration_ms {
                Some(d) => ", "@ + duration_text(d),
                None => ""@,
            }) + " ("@ + attribution_word_of(r.commands[i].attribution) + ")"@,
        ),
        0 <= i < r.flags.len() ==> report_lines(r).contains(
            "- **"@ + (match r.flags[i].severity {
                FlagSeverity::Critical => "critical"@,
                FlagSeverity::Warning => "warning"@,
            }) + "** `"@ + flat(r.flags[i].command) + "` — "@ + r.flags[i].rationale + " ("@
                + r.flags[i].pattern + ")"@,
        ),
        report_lines(r).contains("- Tool calls: "@ + decimal(r.summary.tool_calls as nat)),
        report_lines(r).contains("- Touched files: "@ + decimal(r.summary.touched_files as nat)),
        report_lines(r).contains("- Commands: "@ + decimal(r.summary.commands as nat)),
        report_lines(r).contains("- Events: "@ + decimal(r.summary.events as nat)),
        report_lines(r).contains("- Corrupt lines: "@ + decimal(r.summary.corrupt_lines as nat)),
        r.summary.started_ms is Some ==> report_lines(r).contains(
            "- Started: "@ + utc_text(r.summary.started_ms->0 as int),
        ),
        r.summary.duration_ms is Some ==> report_lines(r).contains(
            "- Duration: "@ + duration_text(r.summary.duration_ms->0 as int),
        ),
{
    let head = header_lines(r.session_id, r.host);
    let numbers = summary_lines(r.summary);
    let files = touched_lines(r.touched_files);
    let commands = executed_lines(r.commands);
    let flags = flagged_lines(r.flags);
    let behind = claim_lines(r.claim_vs_reality) + timeline_lines(r.timeline) + scope_lines(
        r.disclaimer,
    );
    let all = report_lines(r);
    assert(all =~= head + numbers + (files + commands + flags + behind) + Seq::<Seq<char>>::empty());
    assert(all =~= (head + numbers) + files + commands + (flags + behind));
    assert(all =~= (head + numbers + files + commands) + flags + behind + Seq::<Seq<char>>::empty());
    assert forall|x: Seq<char>|
        numbers.contains(x) || files.contains(x) || commands.contains(x) || flags.contains(
            x,
        ) implies #[trigger] all.contains(x) by {
        lemma_sections(
            head,
            numbers,
            files + commands + flags + behind,
            Seq::<Seq<char>>::empty(),
            x,
        );
        lemma_sections(head + numbers, files, commands, flags + behind, x);
        lemma_sections(
            head + numbers + files + commands,
            flags,
            behind,
            Seq::<Seq<char>>::empty(),
            x,
        );
    }
    assert(numbers.contains(numbers[2]) && numbers.contains(numbers[3]) && numbers.contains(
        numbers[4],
    ) && numbers.contains(numbers[5]) && numbers.contains(numbers[6]) && numbers.contains(
        numbers[7],
    ) && numbers.contains(numbers[8]));
    if 0 <= i < r.touched_files.len() {
        let rows = file_lines(r.touched_files);
        assert(files[4 + i] == rows[i]);
        assert(files.contains(rows[i]));
        assert(all.contains(rows[i]));
    }
    if 0 <= i < r.commands.len() {
        let rows = command_lines(r.commands);
        assert(commands[4 + i] == rows[i]);
        assert(commands.contains(rows[i]));
        assert(all.contains(rows[i]));
    }
    if 0 <= i < r.flags.len() {
        let rows = flag_lines(r.flags);
        assert(flags[4 + i] == rows[i]);
        assert(flags.contains(rows[i]));
        assert(all.contains(rows[i]));
    }
}

/// A report shows each row of its timeline with its offset, its outcome, its summary and
/// its attribution.
pub proof fn every_timeline_row_is_shown(r: ReportV, i: int)
    requires
        0 <= i < r.timeline.len(),
    ensures
        ({
            let e = r.timeline[i];
            let outcome = match (e.status, e.duration_ms) {
                (Some(s), Some(d)) => " ["@ + s + "]"@ + (" ("@ + duration_text(d) + ")"@),
                (Some(s), None) => " ["@ + s + "]"@ + ""@,
                (None, _) => ""@,
            };
            let summary = if e.summary.len() == 0 {
                ""@
            } else {
                " · "@ + e.summary
            };
            report_lines(r).contains(
                "- `"@ + offset_text(e.offset_ms) + "` · "@ + e.tag + outcome + summary + " · "@
                    + attribution_word_of(e.attribution),
            )
        }),
{
    let ahead = header_lines(r.session_id, r.host) + summary_lines(r.summary) + touched_lines(
        r.touched_files,
    ) + executed_lines(r.commands) + flagged_lines(r.flags) + claim_lines(r.claim_vs_reality);
    let rows = timeline_rows(r.timeline);
    let lines = timeline_lines(r.timeline);
    assert(lines[2 + i] == rows[i]);
    lemma_shown(ahead, lines, scope_lines(r.disclaimer), 2 + i);
    assert(rows[i] == timeline_line(r.timeline[i]));
}

proof fn lemma_part_shown(
    a: Seq<Seq<char>>,
    heading: Seq<char>,
    rows: Seq<Seq<char>>,
    b: Seq<Seq<char>>,
    i: int,
)
    requires
        0 <= i < rows.len(),
    ensures
        (a + part_lines(heading, rows) + b).contains(rows[i]),
{
    let part = part_lines(heading, rows);
    assert(part[2 + i] == rows[i]);
    assert((a + part + b)[a.len() + 2 + i] == rows[i]);
}

proof fn lemma_claim_part_shown(r: ReportV, x: Seq<char>)
    requires
        claim_lines(r.claim_vs_reality).contains(x),
    ensures
        report_lines(r).contains(x),
{
    let ahead = header_lines(r.session_id, r.host) + summary_lines(r.summary) + touched_lines(
        r.touched_files,
    ) + executed_lines(r.commands) + flagged_lines(r.flags);
    lemma_sections(
        ahead,
        claim_lines(r.claim_vs_reality),
        timeline_lines(r.timeline),
        scope_lines(r.disclaimer),
        x,
    );
}

/// The panel shows the final message line by line as a quotation, the test-like commands
/// with their kind and outcome, the test files, the calls without a result, and the notes.
pub proof fn the_panel_is_shown_in_full(r: ReportV, i: int)
    requires
        r.claim_vs_reality is Some,
    ensures
        ({
            let c = r.claim_vs_reality->0;
            &&& 0 <= i < c.test_commands.len() ==> report_lines(r).contains(
                "- `"@ + c.test_commands[i].command + "` — "@ + c.test_commands[i].kind + ", "@
                    + c.test_commands[i].status + " ("@ + attribution_word_of(
                    c.test_commands[i].attribution,
                ) + ")"@,
            )
            &&& 0 <= i < c.test_files.len() ==> report_lines(r).contains(
                "- `"@ + c.test_files[i].path + "` — "@ + joined(c.test_files[i].tools, ", "@)
                    + " ("@ + attribution_word_of(c.test_files[i].attribution) + ")"@,
            )
            &&& 0 <= i < c.cues.len() ==> report_lines(r).contains("- "@ + c.cues[i])
            &&& report_lines(r).contains(
                "Calls with no result: "@ + decimal(c.no_result_calls as nat)
                    + " (outcome not observed)"@,
            )
            &&& c.final_message is Some && 0 <= i < lines_of(c.final_message->0).len()
                ==> report_lines(r).contains("> "@ + lines_of(c.final_message->0)[i])
        }),
{
    let c = r.claim_vs_reality->0;
    let all = claim_lines(Some(c));
    let head = seq![
        "## Claim vs reality"@,
        ""@,
        "_The final message beside the recorded facts; no judgement is made._"@,
        ""@,
    ];
    let message = message_lines(c.final_message);
    let runs = part_lines("Test-like commands recorded:"@, run_lines(c.test_commands));
    let files = part_lines("Test files written or edited:"@, file_lines(c.test_files));
    let silent = seq![
        "Calls with no result: "@ + decimal(c.no_result_calls as nat) + " (outcome not observed)"@,
        ""@,
    ];
    let notes = part_lines("Notes:"@, cue_lines(c.cues));
    let none = Seq::<Seq<char>>::empty();
    if 0 <= i < c.test_commands.len() {
        let rows = run_lines(c.test_commands);
        lemma_part_shown(
            head + message,
            "Test-like commands recorded:"@,
            rows,
            files + silent + notes,
            i,
        );
        assert((head + message) + runs + (files + silent + notes) =~= all);
        lemma_claim_part_shown(r, rows[i]);
    }
    if 0 <= i < c.test_files.len() {
        let rows = file_lines(c.test_files);
        lemma_part_shown(
            head + message + runs,
            "Test files written or edited:"@,
            rows,
            silent + notes,
            i,
        );
        assert((head + message + runs) + files + (silent + notes) =~= all);
        lemma_claim_part_shown(r, rows[i]);
    }
    if 0 <= i < c.cues.len() {
        let rows = cue_lines(c.cues);
        lemma_part_shown(head + message + runs + files + silent, "Notes:"@, rows, none, i);
        assert((head + message + runs + files + silent) + notes + none =~= all);
        lemma_claim_part_shown(r, rows[i]);
    }
    lemma_shown(head + message + runs + files, silent, notes, 0);
    assert((head + message + runs + files) + silent + notes =~= all);
    lemma_claim_part_shown(r, silent[0]);
    if c.final_message is Some && 0 <= i < lines_of(c.final_message->0).len() {
        let q = quoted_lines(lines_of(c.final_message->0));
        assert(message[2 + i] == q[i]);
        lemma_shown(head, message, runs + files + silent + notes, 2 + i);
        assert(head + message + (runs + files + silent + notes) =~= all);
        lemma_claim_part_shown(r, q[i]);
    }
}

} // verus!
