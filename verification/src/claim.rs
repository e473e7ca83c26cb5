//! The agent's final message beside the recorded facts.
//!
//! The message is shown verbatim next to the test, build and lint commands that
//! were recorded, the calls without a result and the test files that were
//! written. The message is never parsed for what it claims, and no verdict on it
//! is drawn. A call without a result is not a failure.
use vstd::prelude::*;

use crate::count::{how_many, lemma_how_many, lemma_how_many_some};
use crate::event::{event_views, AgentEvent, Attribution, EventKind, EventV};
use crate::num::{decimal, decimal_reads_back, decimal_usize, is_digit};
use crate::split::{
    a_cut_parts_the_pieces, ascii_lowercase, flat, is_alnum, lower_char, lowered, one_line, pieces,
    split, uncut_texts_are_one_piece, Cut,
};
use crate::testcmd::{classify_command, command_kind, TestKind};
use crate::text::{
    begins, blank, contains_text, has_text, is_blank, list_has, occurs_at, opt_view, same,
    starts_with, views,
};
use crate::timeline::{build_timeline, entry_views, timeline_of, EntryV, TimelineEntry, ToolStatus};

verus! {

/// A recorded test-like command and its observed outcome.
#[derive(Debug, Clone, PartialEq, Eq)]
pub struct TestCommandRun {
    /// The command, on one line.
    pub command: String,
    /// `test`, `build` or `lint`.
    pub kind: &'static str,
    /// `ok`, `failed` or `no-result`.
    pub status: &'static str,
    /// Attribution of the call.
    pub attribution: Attribution,
}

/// The contents of a [`TestCommandRun`].
pub ghost struct TestRunV {
    pub command: Seq<char>,
    pub kind: Seq<char>,
    pub status: Seq<char>,
    pub attribution: Attribution,
}

impl View for TestCommandRun {
    type V = TestRunV;

    open spec fn view(&self) -> TestRunV {
        TestRunV {
            command: self.command@,
            kind: self.kind@,
            status: self.status@,
            attribution: self.attribution,
        }
    }
}

/// The contents of a list of runs.
pub open spec fn run_views(v: Seq<TestCommandRun>) -> Seq<TestRunV> {
    Seq::new(v.len(), |i: int| v[i]@)
}

/// A file that looks like a test file and was written or edited.
#[derive(Debug, Clone, PartialEq, Eq)]
pub struct TestFile {
    /// The path, verbatim.
    pub path: String,
    /// The tools that referenced it, in the order in which they first did.
    pub tools: Vec<String>,
    /// Attribution of the first call.
    pub attribution: Attribution,
}

/// The contents of a [`TestFile`].
pub ghost struct TestFileV {
    pub path: Seq<char>,
    pub tools: Seq<Seq<char>>,
    pub attribution: Attribution,
}

impl View for TestFile {
    type V = TestFileV;

    open spec fn view(&self) -> TestFileV {
        TestFileV { path: self.path@, tools: views(self.tools@), attribution: self.attribution }
    }
}

/// The contents of a list of files.
pub open spec fn file_views(v: Seq<TestFile>) -> Seq<TestFileV> {
    Seq::new(v.len(), |i: int| v[i]@)
}

/// The final message and the recorded facts beside it.
#[derive(Debug, Clone, PartialEq, Eq)]
pub struct ClaimVsReality {
    /// The final message, verbatim, if there is one.
    pub final_message: Option<String>,
    /// Test-like commands, in call order.
    pub test_commands: Vec<TestCommandRun>,
    /// The number of calls without a result.
    pub no_result_calls: usize,
    /// Test files written or edited, in the order in which they first were.
    pub test_files: Vec<TestFile>,
    /// Neutral notes that restate the facts.
    pub cues: Vec<String>,
}

/// The contents of a [`ClaimVsReality`].
pub ghost struct ClaimV {
    pub final_message: Option<Seq<char>>,
    pub test_commands: Seq<TestRunV>,
    pub no_result_calls: int,
    pub test_files: Seq<TestFileV>,
    pub cues: Seq<Seq<char>>,
}

impl View for ClaimVsReality {
    type V = ClaimV;

    open spec fn view(&self) -> ClaimV {
        ClaimV {
            final_message: opt_view(self.final_message),
            test_commands: run_views(self.test_commands@),
            no_result_calls: self.no_result_calls as int,
            test_files: file_views(self.test_files@),
            cues: views(self.cues@),
        }
    }
}

// ---------------------------------------------------------------------------
// The facts
// ---------------------------------------------------------------------------

/// The message of a turn's end, if it has one that is not blank.
pub open spec fn stop_message(e: EventV) -> Option<Seq<char>> {
    if e.kind == EventKind::Stop {
        match e.text("last_assistant_message"@) {
            Some(m) => if is_blank(m) {
                None
            } else {
                Some(m)
            },
            None => None,
        }
    } else {
        None
    }
}

/// The last message of a turn's end.
pub open spec fn final_message_of(events: Seq<EventV>) -> Option<Seq<char>>
    decreases events.len(),
{
    if events.len() == 0 {
        None
    } else {
        match stop_message(events.last()) {
            Some(m) => Some(m),
            None => final_message_of(events.drop_last()),
        }
    }
}

/// The test-like command of a tool row.
pub open spec fn run_of(entry: EntryV) -> Option<TestRunV> {
    match (entry.tool_status, entry.call.input("command"@)) {
        (Some(status), Some(command)) => match command_kind(command) {
            Some(kind) => Some(
                TestRunV {
                    command: flat(command),
                    kind: kind.spec_label(),
                    status: status.spec_label(),
                    attribution: entry.attribution,
                },
            ),
            None => None,
        },
        _ => None,
    }
}

/// The test-like commands, in call order.
pub open spec fn runs_of(entries: Seq<EntryV>) -> Seq<TestRunV>
    decreases entries.len(),
{
    if entries.len() == 0 {
        Seq::<TestRunV>::empty()
    } else {
        match run_of(entries.last()) {
            Some(r) => runs_of(entries.drop_last()).push(r),
            None => runs_of(entries.drop_last()),
        }
    }
}

/// A directory of tests.
pub open spec fn is_test_dir(s: Seq<char>) -> bool {
    s == "test"@ || s == "tests"@ || s == "__tests__"@ || s == "spec"@ || s == "specs"@
}

/// The file name of a test.
pub open spec fn is_test_name(s: Seq<char>) -> bool {
    begins(s, "test_"@) || has_text(s, "_test."@) || has_text(s, ".test."@) || has_text(s, ".spec."@)
        || has_text(s, "_spec."@)
}

/// Whether a path looks like that of a test file: under a directory of tests, or
/// with the file name of a test.
pub open spec fn looks_like_test(path: Seq<char>) -> bool {
    let parts = pieces(lowered(path), Cut::Slashes);
    (exists|i: int| 0 <= i < parts.len() && is_test_dir(#[trigger] parts[i])) || is_test_name(
        parts.last(),
    )
}

/// A tool that changes the file it names.
pub open spec fn is_writer(tag: Seq<char>) -> bool {
    tag == "Write"@ || tag == "Edit"@ || tag == "MultiEdit"@
}

/// The test file that a tool row writes.
pub open spec fn written_test(entry: EntryV) -> Option<Seq<char>> {
    if entry.tool_status is Some && is_writer(entry.tag) {
        match entry.call.input("file_path"@) {
            Some(path) => if looks_like_test(path) {
                Some(path)
            } else {
                None
            },
            None => None,
        }
    } else {
        None
    }
}

/// The position of the file at `path`, or the number of files.
pub open spec fn file_at(files: Seq<TestFileV>, path: Seq<char>) -> int
    decreases files.len(),
{
    if files.len() == 0 || files[0].path == path {
        0
    } else {
        1 + file_at(files.skip(1), path)
    }
}

/// The files with one more reference by `tool`.
pub open spec fn with_reference(
    files: Seq<TestFileV>,
    path: Seq<char>,
    tool: Seq<char>,
    attribution: Attribution,
) -> Seq<TestFileV> {
    let k = file_at(files, path);
    if k < files.len() {
        if files[k].tools.contains(tool) {
            files
        } else {
            files.update(k, TestFileV { tools: files[k].tools.push(tool), ..files[k] })
        }
    } else {
        files.push(TestFileV { path, tools: seq![tool], attribution })
    }
}

/// The test files that were written, in the order in which they first were.
pub open spec fn test_files_of(entries: Seq<EntryV>) -> Seq<TestFileV>
    decreases entries.len(),
{
    if entries.len() == 0 {
        Seq::<TestFileV>::empty()
    } else {
        let before = test_files_of(entries.drop_last());
        let e = entries.last();
        match written_test(e) {
            Some(path) => with_reference(before, path, e.tag, e.attribution),
            None => before,
        }
    }
}

/// The number of rows with an outcome.
pub open spec fn count_status(entries: Seq<EntryV>, status: ToolStatus) -> int
    decreases entries.len(),
{
    if entries.len() == 0 {
        0
    } else {
        count_status(entries.drop_last(), status) + (if entries.last().tool_status == Some(status) {
            1int
        } else {
            0
        })
    }
}

/// Whether a message mentions tests: has a word that begins with `test`.
pub open spec fn mentions(message: Seq<char>) -> bool {
    let words = pieces(message, Cut::NonAlphanumeric);
    exists|i: int| 0 <= i < words.len() && begins(lowered(#[trigger] words[i]), "test"@)
}

/// Whether a test was recorded.
pub open spec fn has_test(runs: Seq<TestRunV>) -> bool {
    exists|i: int| 0 <= i < runs.len() && (#[trigger] runs[i]).kind == "test"@
}

/// The number of tests recorded with a failure.
pub open spec fn failed_tests(runs: Seq<TestRunV>) -> int
    decreases runs.len(),
{
    if runs.len() == 0 {
        0
    } else {
        failed_tests(runs.drop_last()) + (if runs.last().kind == "test"@ && runs.last().status
            == "failed"@ {
            1int
        } else {
            0
        })
    }
}

/// The note that a message mentions tests where none were recorded.
pub open spec fn mention_cue() -> Seq<char> {
    "The final message mentions tests, but no test-like command was recorded in this session."@
}

/// The note on recorded failures.
pub open spec fn failed_cue(n: int) -> Seq<char> {
    decimal(n as nat) + " test-like command(s) were recorded with a failed result."@
}

/// The note on calls without a result.
pub open spec fn no_result_cue(n: int) -> Seq<char> {
    decimal(n as nat)
        + " recorded tool call(s) have no result — a failed Bash fires no completion hook, so an unpaired call is not observed as success or failure."@
}

/// The notes.
pub open spec fn cues_of(
    message: Option<Seq<char>>,
    runs: Seq<TestRunV>,
    no_result_calls: int,
) -> Seq<Seq<char>> {
    let a = if message is Some && mentions(message->0) && !has_test(runs) {
        seq![mention_cue()]
    } else {
        Seq::<Seq<char>>::empty()
    };
    let b = if failed_tests(runs) > 0 {
        seq![failed_cue(failed_tests(runs))]
    } else {
        Seq::<Seq<char>>::empty()
    };
    let c = if no_result_calls > 0 {
        seq![no_result_cue(no_result_calls)]
    } else {
        Seq::<Seq<char>>::empty()
    };
    a + b + c
}

/// The final message and the facts beside it: none where there is neither a
/// message nor test-like activity.
pub open spec fn claim_of(events: Seq<EventV>, entries: Seq<EntryV>) -> Option<ClaimV> {
    let message = final_message_of(events);
    let runs = runs_of(entries);
    let files = test_files_of(entries);
    let no_result = count_status(entries, ToolStatus::NoResult);
    if message is None && runs.len() == 0 && files.len() == 0 {
        None
    } else {
        Some(
            ClaimV {
                final_message: message,
                test_commands: runs,
                no_result_calls: no_result,
                test_files: files,
                cues: cues_of(message, runs, no_result),
            },
        )
    }
}

// ---------------------------------------------------------------------------
// Collecting the facts
// ---------------------------------------------------------------------------

fn last_final_message(events: &[AgentEvent]) -> (r: Option<String>)
    ensures
        opt_view(r) == final_message_of(event_views(events@)),
{
    let ghost ev = event_views(events@);
    let mut k: usize = events.len();
    proof {
        assert(ev.take(k as int) =~= ev);
    }
    while k > 0
        invariant
            k <= events@.len(),
            ev == event_views(events@),
            final_message_of(ev) == final_message_of(ev.take(k as int)),
        decreases k,
    {
        proof {
            assert(ev.take(k as int).last() == events@[k - 1]@);
            assert(ev.take(k as int).drop_last() =~= ev.take(k - 1));
        }
        k = k - 1;
        let stop = match events[k].kind {
            EventKind::Stop => true,
            _ => false,
        };
        if stop {
            match events[k].str_field("last_assistant_message") {
                Some(m) => {
                    if !blank(m) {
                        return Some(m.to_owned());
                    }
                },
                None => {},
            }
        }
    }
    None
}

/// The test-like commands of a timeline, in call order.
pub fn collect_test_commands(entries: &[TimelineEntry]) -> (out: Vec<TestCommandRun>)
    ensures
        run_views(out@) == runs_of(entry_views(entries@)),
        out@.len() <= entries@.len(),
{
    let ghost ev = entry_views(entries@);
    let mut out: Vec<TestCommandRun> = Vec::new();
    proof {
        assert(run_views(out@) =~= runs_of(ev.take(0)));
    }
    for i in 0..entries.len()
        invariant
            ev == entry_views(entries@),
            run_views(out@) == runs_of(ev.take(i as int)),
            out@.len() <= i,
    {
        proof {
            assert(ev.take(i + 1).drop_last() =~= ev.take(i as int));
            assert(ev.take(i + 1).last() == entries@[i as int]@);
        }
        let e = &entries[i];
        let ghost out0 = run_views(out@);
        match (e.tool_status, e.call.tool_input_str("command")) {
            (Some(status), Some(command)) => {
                match classify_command(command) {
                    Some(kind) => {
                        let run = TestCommandRun {
                            command: one_line(command),
                            kind: kind.label(),
                            status: status.label(),
                            attribution: e.attribution,
                        };
                        let ghost rv = run@;
                        out.push(run);
                        proof {
                            assert(run_views(out@) =~= out0.push(rv));
                        }
                    },
                    None => {},
                }
            },
            _ => {},
        }
    }
    proof {
        assert(ev.take(ev.len() as int) =~= ev);
    }
    out
}

/// The test-like commands of a list of events, in call order.
pub fn test_command_runs(events: &[AgentEvent]) -> (out: Vec<TestCommandRun>)
    ensures
        run_views(out@) == runs_of(timeline_of(event_views(events@))),
{
    let entries = build_timeline(events);
    collect_test_commands(entries.as_slice())
}

/// Tests whether a path looks like that of a test file.
pub fn is_test_file(path: &str) -> (r: bool)
    ensures
        r == looks_like_test(path@),
{
    let lower = ascii_lowercase(path);
    let parts = split(lower.as_str(), Cut::Slashes);
    let ghost pv = views(parts@);
    let n: usize = parts.len();
    for i in 0..n
        invariant
            n == parts@.len(),
            pv == views(parts@),
            pv == pieces(lowered(path@), Cut::Slashes),
            forall|k: int| 0 <= k < i ==> !is_test_dir(#[trigger] pv[k]),
    {
        proof {
            assert(pv[i as int] == parts@[i as int]@);
        }
        let s = parts[i].as_str();
        if same(s, "test") || same(s, "tests") || same(s, "__tests__") || same(s, "spec") || same(
            s,
            "specs",
        ) {
            return true;
        }
    }
    proof {
        assert(pv.last() == parts@[n - 1]@);
    }
    let file = parts[n - 1].as_str();
    starts_with(file, "test_") || contains_text(file, "_test.") || contains_text(file, ".test.")
        || contains_text(file, ".spec.") || contains_text(file, "_spec.")
}

proof fn lemma_file_at(files: Seq<TestFileV>, path: Seq<char>, k: int)
    requires
        0 <= k <= files.len(),
        forall|j: int| 0 <= j < k ==> (#[trigger] files[j]).path != path,
        k < files.len() ==> files[k].path == path,
    ensures
        file_at(files, path) == k,
    decreases files.len(),
{
    if k > 0 {
        assert(files[0].path != path);
        let t = files.skip(1);
        assert forall|j: int| 0 <= j < k - 1 implies (#[trigger] t[j]).path != path by {
            assert(t[j] == files[j + 1]);
        }
        lemma_file_at(t, path, k - 1);
    }
}

pub(crate) fn add_reference(files: &mut Vec<TestFile>, path: &str, tool: &str, attribution: Attribution)
    ensures
        file_views(final(files)@) == with_reference(
            file_views(old(files)@),
            path@,
            tool@,
            attribution,
        ),
{
    let ghost fv = file_views(files@);
    let n: usize = files.len();
    let mut k: usize = 0;
    while k < n && !same(files[k].path.as_str(), path)
        invariant
            n == files@.len(),
            fv == file_views(files@),
            k <= n,
            forall|j: int| 0 <= j < k ==> (#[trigger] fv[j]).path != path@,
        decreases n - k,
    {
        k = k + 1;
    }
    proof {
        if k < n {
            assert(fv[k as int] == files@[k as int]@);
        }
        lemma_file_at(fv, path@, k as int);
    }
    if k < n {
        if !list_has(&files[k].tools, tool) {
            let mut tools = crate::text::clone_strings(&files[k].tools);
            let ghost t0 = views(tools@);
            tools.push(tool.to_owned());
            proof {
                assert(views(tools@) =~= t0.push(tool@));
            }
            let file = TestFile {
                path: files[k].path.clone(),
                tools,
                attribution: files[k].attribution,
            };
            let ghost f0 = file@;
            files.set(k, file);
            proof {
                assert(file_views(files@) =~= fv.update(k as int, f0));
            }
        }
    } else {
        let mut tools: Vec<String> = Vec::new();
        tools.push(tool.to_owned());
        proof {
            assert(views(tools@) =~= seq![tool@]);
        }
        let file = TestFile { path: path.to_owned(), tools, attribution };
        let ghost f0 = file@;
        files.push(file);
        proof {
            assert(file_views(files@) =~= fv.push(f0));
        }
    }
}

fn collect_test_files(entries: &[TimelineEntry]) -> (out: Vec<TestFile>)
    ensures
        file_views(out@) == test_files_of(entry_views(entries@)),
{
    let ghost ev = entry_views(entries@);
    let mut out: Vec<TestFile> = Vec::new();
    proof {
        assert(file_views(out@) =~= test_files_of(ev.take(0)));
    }
    for i in 0..entries.len()
        invariant
            ev == entry_views(entries@),
            file_views(out@) == test_files_of(ev.take(i as int)),
    {
        proof {
            assert(ev.take(i + 1).drop_last() =~= ev.take(i as int));
            assert(ev.take(i + 1).last() == entries@[i as int]@);
        }
        let e = &entries[i];
        let tag = e.tag.as_str();
        let writes = e.tool_status.is_some() && (same(tag, "Write") || same(tag, "Edit") || same(
            tag,
            "MultiEdit",
        ));
        if writes {
            match e.call.tool_input_str("file_path") {
                Some(path) => {
                    if is_test_file(path) {
                        add_reference(&mut out, path, tag, e.attribution);
                    }
                },
                None => {},
            }
        }
    }
    proof {
        assert(ev.take(ev.len() as int) =~= ev);
    }
    out
}

/// Counts the rows without a result.
fn count_no_result(entries: &[TimelineEntry]) -> (n: usize)
    ensures
        n == count_status(entry_views(entries@), ToolStatus::NoResult),
{
    let ghost ev = entry_views(entries@);
    let mut n: usize = 0;
    for i in 0..entries.len()
        invariant
            ev == entry_views(entries@),
            n == count_status(ev.take(i as int), ToolStatus::NoResult),
            n <= i,
    {
        proof {
            assert(ev.take(i + 1).drop_last() =~= ev.take(i as int));
            assert(ev.take(i + 1).last() == entries@[i as int]@);
        }
        match entries[i].tool_status {
            Some(ToolStatus::NoResult) => {
                n = n + 1;
            },
            _ => {},
        }
    }
    proof {
        assert(ev.take(ev.len() as int) =~= ev);
    }
    n
}

/// Tests whether a message mentions tests: has a word that begins with `test`,
/// so that `latest` and `contest` do not count.
pub fn mentions_tests(message: &str) -> (r: bool)
    ensures
        r == mentions(message@),
{
    let words = split(message, Cut::NonAlphanumeric);
    let ghost wv = views(words@);
    for i in 0..words.len()
        invariant
            wv == views(words@),
            wv == pieces(message@, Cut::NonAlphanumeric),
            forall|k: int| 0 <= k < i ==> !begins(lowered(#[trigger] wv[k]), "test"@),
    {
        proof {
            assert(wv[i as int] == words@[i as int]@);
        }
        let lower = ascii_lowercase(words[i].as_str());
        if starts_with(lower.as_str(), "test") {
            return true;
        }
    }
    false
}

/// The notes on the final message and the recorded facts. Each restates facts;
/// where a sign is absent or ambiguous there is no note.
pub fn build_cues(
    final_message: Option<&str>,
    test_commands: &Vec<TestCommandRun>,
    no_result_calls: usize,
) -> (out: Vec<String>)
    ensures
        views(out@) == cues_of(
            match final_message {
                Some(m) => Some(m@),
                None => None,
            },
            run_views(test_commands@),
            no_result_calls as int,
        ),
{
    let ghost rv = run_views(test_commands@);
    let mut any_test = false;
    let mut failed: usize = 0;
    for i in 0..test_commands.len()
        invariant
            rv == run_views(test_commands@),
            any_test == exists|k: int| 0 <= k < i && (#[trigger] rv[k]).kind == "test"@,
            failed == failed_tests(rv.take(i as int)),
            failed <= i,
    {
        proof {
            assert(rv.take(i + 1).drop_last() =~= rv.take(i as int));
            assert(rv.take(i + 1).last() == test_commands@[i as int]@);
            assert(rv[i as int] == test_commands@[i as int]@);
        }
        let c = &test_commands[i];
        let is_test = same(c.kind, "test");
        if is_test {
            any_test = true;
            if same(c.status, "failed") {
                failed = failed + 1;
            }
        }
    }
    proof {
        assert(rv.take(rv.len() as int) =~= rv);
    }
    let mut out: Vec<String> = Vec::new();
    let said = match final_message {
        Some(m) => mentions_tests(m),
        None => false,
    };
    if said && !any_test {
        out.push(
            "The final message mentions tests, but no test-like command was recorded in this session.".to_owned(),
        );
    }
    if failed > 0 {
        out.push(
            decimal_usize(failed).concat(
                " test-like command(s) were recorded with a failed result.",
            ),
        );
    }
    if no_result_calls > 0 {
        out.push(
            decimal_usize(no_result_calls).concat(
                " recorded tool call(s) have no result — a failed Bash fires no completion hook, so an unpaired call is not observed as success or failure.",
            ),
        );
    }
    proof {
        let message = match final_message {
            Some(m) => Some(m@),
            None => None,
        };
        assert(said == (message is Some && mentions(message->0)));
        assert(any_test == has_test(rv));
        assert(views(out@) =~= cues_of(message, rv, no_result_calls as int));
    }
    out
}

/// Builds the panel of the final message and the recorded facts: none where
/// there is neither a message nor test-like activity.
pub fn build_claim_vs_reality(events: &[AgentEvent], entries: &[TimelineEntry]) -> (r: Option<
    ClaimVsReality,
>)
    ensures
        match r {
            Some(c) => claim_of(event_views(events@), entry_views(entries@)) == Some(c@),
            None => claim_of(event_views(events@), entry_views(entries@)) is None,
        },
{
    let final_message = last_final_message(events);
    let test_commands = collect_test_commands(entries);
    let test_files = collect_test_files(entries);
    let no_result_calls: usize = count_no_result(entries);
    proof {
        assert(run_views(test_commands@).len() == test_commands@.len());
        assert(file_views(test_files@).len() == test_files@.len());
    }
    if final_message.is_none() && test_commands.len() == 0 && test_files.len() == 0 {
        return None;
    }
    let message: Option<&str> = match &final_message {
        Some(m) => Some(m.as_str()),
        None => None,
    };
    let cues = build_cues(message, &test_commands, no_result_calls);
    Some(ClaimVsReality { final_message, test_commands, no_result_calls, test_files, cues })
}

// ---------------------------------------------------------------------------
// Laws
// ---------------------------------------------------------------------------

/// A note never turns a call without a result into a failure: however many there
/// are, the notes on failures stay as they are.
pub proof fn missing_results_are_no_failures(
    message: Option<Seq<char>>,
    runs: Seq<TestRunV>,
    n: int,
)
    requires
        n > 0,
    ensures
        cues_of(message, runs, n) == cues_of(message, runs, 0).push(no_result_cue(n)),
{
    assert(cues_of(message, runs, n) =~= cues_of(message, runs, 0).push(no_result_cue(n)));
}

/// Every test-like command that is shown was recorded: its text, on one line, is
/// that of a tool row of its kind and outcome.
pub proof fn shown_commands_were_recorded(entries: Seq<EntryV>, i: int)
    requires
        0 <= i < runs_of(entries).len(),
    ensures
        exists|k: int|
            0 <= k < entries.len() && run_of(#[trigger] entries[k]) == Some(runs_of(entries)[i]),
    decreases entries.len(),
{
    if entries.len() > 0 {
        let t = entries.drop_last();
        if i < runs_of(t).len() {
            shown_commands_were_recorded(t, i);
            let k = choose|k: int|
                0 <= k < t.len() && run_of(#[trigger] t[k]) == Some(runs_of(t)[i]);
            assert(run_of(entries[k]) == Some(runs_of(entries)[i]));
        } else {
            assert(run_of(entries[entries.len() - 1]) == Some(runs_of(entries)[i]));
        }
    }
}

/// The words by which a note would judge a claim.
pub open spec fn verdict_words() -> Seq<Seq<char>> {
    seq!["lied"@, "false"@, "contradict"@, "did not pass"@, "the agent"@, "dishonest"@]
}

/// Whether one of the letter groups stands at `k` without which none of the
/// [`verdict_words`] can be written.
spec fn judging_at(s: Seq<char>, k: int) -> bool {
    ||| s[k] == 'i' && s[k + 1] == 'e'
    ||| s[k] == 'l' && s[k + 1] == 's'
    ||| s[k] == 'd' && s[k + 1] == 'i'
    ||| k + 2 < s.len() && s[k] == 'e' && s[k + 1] == ' ' && s[k + 2] == 'a'
}

/// Whether none of these letter groups stands in the first `k` places.
spec fn neutral(s: Seq<char>, k: nat) -> bool
    decreases k,
{
    k == 0 || (neutral(s, (k - 1) as nat) && !judging_at(s, k - 1))
}

proof fn lemma_neutral(s: Seq<char>, k: nat, j: int)
    requires
        neutral(s, k),
        0 <= j < k,
    ensures
        !judging_at(s, j),
    decreases k,
{
    if j < k - 1 {
        lemma_neutral(s, (k - 1) as nat, j);
    }
}

/// A text in which these letter groups do not stand holds no verdict.
proof fn lemma_no_verdict(s: Seq<char>, j: int)
    requires
        forall|k: int| 0 <= k && k + 2 <= s.len() ==> !#[trigger] judging_at(s, k),
        0 <= j < verdict_words().len(),
    ensures
        !has_text(s, verdict_words()[j]),
{
    reveal_strlit("lied");
    reveal_strlit("false");
    reveal_strlit("contradict");
    reveal_strlit("did not pass");
    reveal_strlit("the agent");
    reveal_strlit("dishonest");
    let w = verdict_words()[j];
    if has_text(s, w) {
        let k = choose|k: int| occurs_at(s, w, k);
        let part = s.subrange(k, k + w.len());
        assert forall|i: int| 0 <= i < w.len() implies s[k + i] == #[trigger] w[i] by {
            assert(part[i] == s[k + i]);
        }
        if j == 0 {
            assert(w[1] == 'i' && w[2] == 'e');
            assert(judging_at(s, k + 1));
        } else if j == 1 {
            assert(w[2] == 'l' && w[3] == 's');
            assert(judging_at(s, k + 2));
        } else if j == 2 {
            assert(w[6] == 'd' && w[7] == 'i');
            assert(judging_at(s, k + 6));
        } else if j == 4 {
            assert(w[2] == 'e' && w[3] == ' ' && w[4] == 'a');
            assert(judging_at(s, k + 2));
        } else {
            assert(w[0] == 'd' && w[1] == 'i');
            assert(judging_at(s, k));
        }
    }
}

/// The mention of tests holds none of the letter groups.
#[verifier::spinoff_prover]
#[verifier::rlimit(60)]
proof fn lemma_mention_is_neutral(k: int)
    requires
        0 <= k,
        k + 2 <= mention_cue().len(),
    ensures
        !judging_at(lowered(mention_cue()), k),
{
    reveal_strlit(
        "The final message mentions tests, but no test-like command was recorded in this session.",
    );
    let t =
        "The final message mentions tests, but no test-like command was recorded in this session."@;
    let n = (t.len() - 1) as nat;
    assert(neutral(t, n)) by {
        reveal_with_fuel(neutral, 100);
    }
    lemma_neutral(t, n, k);
    assert(t[0] == 'T');
    assert forall|i: int| 1 <= i < t.len() implies lower_char(#[trigger] t[i]) == t[i] by {}
}

/// The note on failures holds none of the letter groups behind its number.
#[verifier::spinoff_prover]
#[verifier::rlimit(60)]
proof fn lemma_failed_is_neutral(k: int)
    requires
        0 <= k,
        k + 2 <= " test-like command(s) were recorded with a failed result."@.len(),
    ensures
        !judging_at(lowered(" test-like command(s) were recorded with a failed result."@), k),
        " test-like command(s) were recorded with a failed result."@[0] == ' ',
{
    reveal_strlit(" test-like command(s) were recorded with a failed result.");
    let t = " test-like command(s) were recorded with a failed result."@;
    let n = (t.len() - 1) as nat;
    assert(neutral(t, n)) by {
        reveal_with_fuel(neutral, 70);
    }
    lemma_neutral(t, n, k);
    assert(lowered(t) =~= t);
}

/// The note on missing results holds none of the letter groups behind its number.
#[verifier::spinoff_prover]
#[verifier::rlimit(100)]
proof fn lemma_no_result_is_neutral(k: int)
    requires
        0 <= k,
        k + 2
            <= " recorded tool call(s) have no result — a failed Bash fires no completion hook, so an unpaired call is not observed as success or failure."@.len(),
    ensures
        !judging_at(
            lowered(
                " recorded tool call(s) have no result — a failed Bash fires no completion hook, so an unpaired call is not observed as success or failure."@,
            ),
            k,
        ),
        " recorded tool call(s) have no result — a failed Bash fires no completion hook, so an unpaired call is not observed as success or failure."@[0]
            == ' ',
{
    reveal_strlit(
        " recorded tool call(s) have no result — a failed Bash fires no completion hook, so an unpaired call is not observed as success or failure.",
    );
    let t =
        " recorded tool call(s) have no result — a failed Bash fires no completion hook, so an unpaired call is not observed as success or failure."@;
    let n = (t.len() - 1) as nat;
    assert(neutral(t, 70)) by {
        reveal_with_fuel(neutral, 71);
    }
    assert(neutral(t, n)) by {
        reveal_with_fuel(neutral, 71);
    }
    lemma_neutral(t, n, k);
    assert(t[49] == 'B');
    assert forall|i: int| 0 <= i < t.len() && i != 49 implies lower_char(#[trigger] t[i])
        == t[i] by {}
    assert(lowered(t)[49] == 'b');
    assert(t[50] == 'a' && t[48] == ' ' && t[47] == 'd');
}

/// A number ahead of a note brings none of the letter groups into it.
proof fn lemma_numbered_is_neutral(n: nat, t: Seq<char>, k: int)
    requires
        t.len() > 0,
        t[0] == ' ',
        forall|i: int| 0 <= i && i + 2 <= t.len() ==> !#[trigger] judging_at(lowered(t), i),
        0 <= k,
        k + 2 <= decimal(n).len() + t.len(),
    ensures
        !judging_at(lowered(decimal(n) + t), k),
{
    decimal_reads_back(n);
    let d = decimal(n);
    let s = lowered(d + t);
    if k < d.len() {
        assert(is_digit(d[k]));
        assert(s[k] == d[k]);
    } else {
        let i = k - d.len();
        assert(!judging_at(lowered(t), i));
        assert(s[k] == lowered(t)[i] && s[k + 1] == lowered(t)[i + 1]);
        if i + 2 < t.len() {
            assert(s[k + 2] == lowered(t)[i + 2]);
        }
    }
}

/// No note judges a claim: whatever was recorded and whatever the final message
/// says, none of the [`verdict_words`] stands in a note, in capitals or not.
pub proof fn notes_give_no_verdict(
    message: Option<Seq<char>>,
    runs: Seq<TestRunV>,
    no_result_calls: int,
    i: int,
    j: int,
)
    requires
        0 <= i < cues_of(message, runs, no_result_calls).len(),
        0 <= j < verdict_words().len(),
    ensures
        !has_text(lowered(cues_of(message, runs, no_result_calls)[i]), verdict_words()[j]),
{
    let cue = cues_of(message, runs, no_result_calls)[i];
    let failed = " test-like command(s) were recorded with a failed result."@;
    let missing =
        " recorded tool call(s) have no result — a failed Bash fires no completion hook, so an unpaired call is not observed as success or failure."@;
    assert forall|k: int| 0 <= k && k + 2 <= lowered(cue).len() implies !#[trigger] judging_at(
        lowered(cue),
        k,
    ) by {
        if cue == mention_cue() {
            lemma_mention_is_neutral(k);
        } else if cue == failed_cue(failed_tests(runs)) {
            assert forall|m: int| 0 <= m && m + 2 <= failed.len() implies !#[trigger] judging_at(
                lowered(failed),
                m,
            ) by {
                lemma_failed_is_neutral(m);
            }
            reveal_strlit(" test-like command(s) were recorded with a failed result.");
            lemma_failed_is_neutral(0);
            lemma_numbered_is_neutral(failed_tests(runs) as nat, failed, k);
        } else {
            assert(cue == no_result_cue(no_result_calls));
            assert forall|m: int| 0 <= m && m + 2 <= missing.len() implies !#[trigger] judging_at(
                lowered(missing),
                m,
            ) by {
                lemma_no_result_is_neutral(m);
            }
            reveal_strlit(
                " recorded tool call(s) have no result — a failed Bash fires no completion hook, so an unpaired call is not observed as success or failure.",
            );
            lemma_no_result_is_neutral(0);
            lemma_numbered_is_neutral(no_result_calls as nat, missing, k);
        }
    }
    lemma_no_verdict(lowered(cue), j);
}

/// The number of recorded tests with a failed result.
pub open spec fn recorded_failures(runs: Seq<TestRunV>) -> nat {
    how_many(runs, |r: TestRunV| r.kind == "test"@ && r.status == "failed"@)
}

proof fn lemma_failures(runs: Seq<TestRunV>)
    ensures
        failed_tests(runs) == recorded_failures(runs),
    decreases runs.len(),
{
    lemma_how_many(runs, |r: TestRunV| r.kind == "test"@ && r.status == "failed"@);
    if runs.len() > 0 {
        lemma_failures(runs.drop_last());
    }
}

/// The notes are these, in this order, and no others: that tests are mentioned, where the
/// final message mentions them and no test was recorded; the number of tests recorded with
/// a failed result, where there are such; and the number of calls without a result, where
/// there are such. A test without a result is counted in no note on failures.
pub proof fn notes_restate_what_was_recorded(
    message: Option<Seq<char>>,
    runs: Seq<TestRunV>,
    n: int,
)
    ensures
        ({
            let cues = cues_of(message, runs, n);
            let mentioned = message matches Some(m) && mentions(m) && (forall|i: int|
                0 <= i < runs.len() ==> (#[trigger] runs[i]).kind != "test"@);
            let k = recorded_failures(runs);
            let a: int = if mentioned {
                1
            } else {
                0
            };
            let b: int = if k > 0 {
                1
            } else {
                0
            };
            let c: int = if n > 0 {
                1
            } else {
                0
            };
            &&& cues.len() == a + b + c
            &&& mentioned ==> cues[0]
                == "The final message mentions tests, but no test-like command was recorded in this session."@
            &&& k > 0 ==> cues[a] == decimal(k)
                + " test-like command(s) were recorded with a failed result."@
            &&& n > 0 ==> cues[a + b] == decimal(n as nat)
                + " recorded tool call(s) have no result — a failed Bash fires no completion hook, so an unpaired call is not observed as success or failure."@
        }),
        (forall|i: int| 0 <= i < runs.len() ==> (#[trigger] runs[i]).status != "failed"@)
            ==> recorded_failures(runs) == 0,
{
    lemma_failures(runs);
    lemma_how_many_some(runs, |r: TestRunV| r.kind == "test"@ && r.status == "failed"@);
    if exists|i: int| 0 <= i < runs.len() && (#[trigger] runs[i]).kind == "test"@ {
        let i = choose|i: int| 0 <= i < runs.len() && (#[trigger] runs[i]).kind == "test"@;
        assert(runs[i].kind == "test"@);
    }
}

/// A message mentions tests exactly if one of its words does, and a word does exactly if
/// it begins with `test`, in capitals or not.
pub proof fn mentions_go_by_words(a: Seq<char>, c: char, b: Seq<char>, word: Seq<char>)
    requires
        !is_alnum(c),
        forall|i: int| 0 <= i < word.len() ==> is_alnum(#[trigger] word[i]),
    ensures
        mentions(a.push(c) + b) <==> mentions(a) || mentions(b),
        mentions(word) <==> begins(lowered(word), "test"@),
{
    let cut = Cut::NonAlphanumeric;
    a_cut_parts_the_pieces(a, c, b, cut);
    let x = pieces(a, cut);
    let y = pieces(b, cut);
    let z = pieces(a.push(c) + b, cut);
    if mentions(a) {
        let i = choose|i: int| 0 <= i < x.len() && begins(lowered(#[trigger] x[i]), "test"@);
        assert(z[i] == x[i]);
    }
    if mentions(b) {
        let i = choose|i: int| 0 <= i < y.len() && begins(lowered(#[trigger] y[i]), "test"@);
        assert(z[x.len() + i] == y[i]);
    }
    if mentions(a.push(c) + b) {
        let i = choose|i: int| 0 <= i < z.len() && begins(lowered(#[trigger] z[i]), "test"@);
        if i < x.len() {
            assert(x[i] == z[i]);
        } else {
            assert(y[i - x.len()] == z[i]);
        }
    }
    assert forall|i: int| 0 <= i < word.len() implies !cut.cuts(#[trigger] word[i]) by {}
    uncut_texts_are_one_piece(word, cut);
    assert(pieces(word, cut)[0] == word);
}

/// The final message is that of the last turn's end which has one that is not blank, as it
/// was recorded.
pub proof fn the_final_message_is_the_last(events: Seq<EventV>)
    ensures
        match final_message_of(events) {
            Some(m) => exists|i: int|
                0 <= i < events.len() && (#[trigger] events[i]).kind == EventKind::Stop
                    && events[i].payload.text_at("last_assistant_message"@) == Some(m) && !is_blank(
                    m,
                ) && forall|j: int|
                    i < j < events.len() && (#[trigger] events[j]).kind == EventKind::Stop ==> (
                    events[j].payload.text_at("last_assistant_message"@) matches Some(t) ==> is_blank(
                        t,
                    )),
            None => forall|j: int|
                0 <= j < events.len() && (#[trigger] events[j]).kind == EventKind::Stop ==> (
                events[j].payload.text_at("last_assistant_message"@) matches Some(t) ==> is_blank(
                    t,
                )),
        },
    decreases events.len(),
{
    if events.len() > 0 {
        let t = events.drop_last();
        let n = events.len() - 1;
        the_final_message_is_the_last(t);
        match stop_message(events.last()) {
            Some(m) => {
                assert(events[n].kind == EventKind::Stop);
            },
            None => {
                match final_message_of(t) {
                    Some(m) => {
                        let i = choose|i: int|
                            0 <= i < t.len() && (#[trigger] t[i]).kind == EventKind::Stop
                                && t[i].payload.text_at("last_assistant_message"@) == Some(m)
                                && !is_blank(m) && forall|j: int|
                                i < j < t.len() && (#[trigger] t[j]).kind == EventKind::Stop ==> (
                                t[j].payload.text_at("last_assistant_message"@) matches Some(x)
                                    ==> is_blank(x));
                        assert(events[i] == t[i]);
                        assert forall|j: int|
                            i < j < events.len() && (#[trigger] events[j]).kind
                                == EventKind::Stop implies (events[j].payload.text_at(
                            "last_assistant_message"@,
                        ) matches Some(x) ==> is_blank(x)) by {
                            if j < n {
                                assert(t[j] == events[j]);
                            }
                        }
                    },
                    None => {
                        assert forall|j: int|
                            0 <= j < events.len() && (#[trigger] events[j]).kind
                                == EventKind::Stop implies (events[j].payload.text_at(
                            "last_assistant_message"@,
                        ) matches Some(x) ==> is_blank(x)) by {
                            if j < n {
                                assert(t[j] == events[j]);
                            }
                        }
                    },
                }
            },
        }
    }
}

/// The rows that have a test-like command.
pub open spec fn test_like_rows(entries: Seq<EntryV>) -> Seq<EntryV> {
    entries.filter(
        |r: EntryV|
            r.tool_status is Some && (r.call.input("command"@) matches Some(c) && command_kind(
                c,
            ) is Some),
    )
}

/// The test-like commands that are shown are those of the rows, each row once and in order,
/// with the command on one line, its kind, and the outcome that the row shows.
pub proof fn test_like_rows_are_all_shown(entries: Seq<EntryV>)
    ensures
        runs_of(entries).len() == test_like_rows(entries).len(),
        forall|i: int|
            0 <= i < runs_of(entries).len() ==> {
                let run = #[trigger] runs_of(entries)[i];
                let row = test_like_rows(entries)[i];
                &&& run.command == flat(row.call.input("command"@)->0)
                &&& run.attribution == row.attribution
                &&& (run.kind == "test"@) == (command_kind(row.call.input("command"@)->0) == Some(
                    TestKind::Test,
                ))
                &&& (run.kind == "build"@) == (command_kind(row.call.input("command"@)->0) == Some(
                    TestKind::Build,
                ))
                &&& (run.kind == "lint"@) == (command_kind(row.call.input("command"@)->0) == Some(
                    TestKind::Lint,
                ))
                &&& (run.status == "ok"@) == (row.tool_status == Some(ToolStatus::Okay))
                &&& (run.status == "failed"@) == (row.tool_status == Some(ToolStatus::Failed))
                &&& (run.status == "no-result"@) == (row.tool_status == Some(ToolStatus::NoResult))
            },
    decreases entries.len(),
{
    reveal(Seq::filter);
    reveal_strlit("ok");
    reveal_strlit("failed");
    reveal_strlit("no-result");
    reveal_strlit("test");
    reveal_strlit("build");
    reveal_strlit("lint");
    assert("ok"@.len() == 2 && "failed"@.len() == 6 && "no-result"@.len() == 9);
    assert("test"@[0] == 't' && "build"@[0] == 'b' && "lint"@[0] == 'l');
    if entries.len() > 0 {
        test_like_rows_are_all_shown(entries.drop_last());
    }
}

proof fn lemma_failed_rows(entries: Seq<EntryV>)
    ensures
        recorded_failures(runs_of(entries)) == how_many(
            entries,
            |r: EntryV|
                r.tool_status == Some(ToolStatus::Failed) && (r.call.input("command"@) matches Some(
                    c,
                ) && command_kind(c) == Some(TestKind::Test)),
        ),
        count_status(entries, ToolStatus::NoResult) == how_many(
            entries,
            |r: EntryV| r.tool_status == Some(ToolStatus::NoResult),
        ),
    decreases entries.len(),
{
    let p = |r: EntryV|
        r.tool_status == Some(ToolStatus::Failed) && (r.call.input("command"@) matches Some(c)
            && command_kind(c) == Some(TestKind::Test));
    let q = |r: TestRunV| r.kind == "test"@ && r.status == "failed"@;
    let runs = runs_of(entries);
    lemma_how_many(entries, p);
    lemma_how_many(runs, q);
    lemma_how_many(entries, |r: EntryV| r.tool_status == Some(ToolStatus::NoResult));
    reveal_strlit("ok");
    reveal_strlit("failed");
    reveal_strlit("no-result");
    reveal_strlit("test");
    reveal_strlit("build");
    reveal_strlit("lint");
    assert("ok"@.len() == 2 && "failed"@.len() == 6 && "no-result"@.len() == 9);
    assert("test"@[0] == 't' && "build"@[0] == 'b' && "lint"@[0] == 'l');
    if entries.len() > 0 {
        let t = entries.drop_last();
        lemma_failed_rows(t);
        match run_of(entries.last()) {
            Some(r) => {
                assert(runs.drop_last() =~= runs_of(t));
            },
            None => {},
        }
    }
}

/// The panel puts beside the final message what the rows show, and notes as failures
/// exactly the tests whose rows have failed. It is there exactly if there is a message, a
/// test-like row, or a test file.
pub proof fn the_panel_shows_the_record(events: Seq<EventV>, entries: Seq<EntryV>)
    ensures
        claim_of(events, entries) is None <==> final_message_of(events) is None && test_like_rows(
            entries,
        ).len() == 0 && test_files_of(entries).len() == 0,
        claim_of(events, entries) matches Some(c) ==> {
            let failed = how_many(
                entries,
                |r: EntryV|
                    r.tool_status == Some(ToolStatus::Failed) && (r.call.input(
                        "command"@,
                    ) matches Some(c) && command_kind(c) == Some(TestKind::Test)),
            );
            &&& c.final_message == final_message_of(events)
            &&& c.test_commands == runs_of(entries)
            &&& c.test_files == test_files_of(entries)
            &&& c.no_result_calls == how_many(
                entries,
                |r: EntryV| r.tool_status == Some(ToolStatus::NoResult),
            )
            &&& c.cues == cues_of(c.final_message, c.test_commands, c.no_result_calls)
            &&& c.cues.contains(
                decimal(failed) + " test-like command(s) were recorded with a failed result."@,
            ) || failed == 0
            &&& recorded_failures(c.test_commands) == failed
        },
{
    test_like_rows_are_all_shown(entries);
    lemma_failed_rows(entries);
    let runs = runs_of(entries);
    let n = count_status(entries, ToolStatus::NoResult);
    let message = final_message_of(events);
    notes_restate_what_was_recorded(message, runs, n);
    let cues = cues_of(message, runs, n);
    let k = recorded_failures(runs);
    if k > 0 {
        let mentioned = message matches Some(m) && mentions(m) && (forall|i: int|
            0 <= i < runs.len() ==> (#[trigger] runs[i]).kind != "test"@);
        let a: int = if mentioned {
            1
        } else {
            0
        };
        assert(cues[a] == decimal(k) + " test-like command(s) were recorded with a failed result."@);
    }
}

/// A path looks like that of a test exactly if one of its parts is a directory of tests,
/// or its last part is named like a test, in capitals or not.
pub proof fn test_paths_go_by_their_parts(dir: Seq<char>, name: Seq<char>)
    requires
        forall|i: int| 0 <= i < name.len() ==> (#[trigger] name[i]) != '/' && name[i] != '\\',
    ensures
        looks_like_test(name) <==> is_test_part(name) || is_test_file_name(name),
        looks_like_test(dir.push('/') + name) <==> (exists|i: int|
            0 <= i < pieces(dir, Cut::Slashes).len() && is_test_part(
                #[trigger] pieces(dir, Cut::Slashes)[i],
            )) || is_test_part(name) || is_test_file_name(name),
{
    let cut = Cut::Slashes;
    let low = lowered(name);
    assert forall|i: int| 0 <= i < low.len() implies !cut.cuts(#[trigger] low[i]) by {
        assert(name[i] != '/');
    }
    uncut_texts_are_one_piece(low, cut);
    assert(pieces(low, cut)[0] == low);
    lemma_test_parts(name);
    let s = lowered(dir.push('/') + name);
    assert(s =~= lowered(dir).push('/') + low);
    a_cut_parts_the_pieces(lowered(dir), '/', low, cut);
    let x = pieces(lowered(dir), cut);
    let z = pieces(s, cut);
    assert(z =~= x.push(low));
    lemma_lowered_pieces(dir);
    let p = pieces(dir, cut);
    if exists|i: int| 0 <= i < p.len() && is_test_part(#[trigger] p[i]) {
        let i = choose|i: int| 0 <= i < p.len() && is_test_part(#[trigger] p[i]);
        lemma_test_parts(p[i]);
        assert(z[i] == lowered(p[i]));
    }
    if is_test_part(name) {
        assert(z[x.len() as int] == low);
    }
    if looks_like_test(dir.push('/') + name) {
        if exists|i: int| 0 <= i < z.len() && is_test_dir(#[trigger] z[i]) {
            let i = choose|i: int| 0 <= i < z.len() && is_test_dir(#[trigger] z[i]);
            if i < x.len() {
                lemma_test_parts(p[i]);
                assert(z[i] == lowered(p[i]));
                assert(is_test_part(p[i]));
            } else {
                assert(z[i] == low);
            }
        }
    }
}

/// Whether a part of a path is the name of a directory of tests.
pub open spec fn is_test_part(s: Seq<char>) -> bool {
    seq!["test"@, "tests"@, "__tests__"@, "spec"@, "specs"@].contains(lowered(s))
}

/// Whether a file name is that of a test.
pub open spec fn is_test_file_name(s: Seq<char>) -> bool {
    begins(lowered(s), "test_"@) || exists|k: int|
        occurs_at(lowered(s), "_test."@, k) || occurs_at(lowered(s), ".test."@, k) || occurs_at(
            lowered(s),
            ".spec."@,
            k,
        ) || occurs_at(lowered(s), "_spec."@, k)
}

proof fn lemma_test_parts(s: Seq<char>)
    ensures
        is_test_part(s) <==> is_test_dir(lowered(s)),
        is_test_file_name(s) <==> is_test_name(lowered(s)),
{
    let all = seq!["test"@, "tests"@, "__tests__"@, "spec"@, "specs"@];
    assert(all[0] == "test"@ && all[1] == "tests"@ && all[2] == "__tests__"@ && all[3] == "spec"@
        && all[4] == "specs"@);
    let t = lowered(s);
    if is_test_file_name(s) && !begins(t, "test_"@) {
        let k = choose|k: int|
            occurs_at(t, "_test."@, k) || occurs_at(t, ".test."@, k) || occurs_at(t, ".spec."@, k)
                || occurs_at(t, "_spec."@, k);
        assert(occurs_at(t, "_test."@, k) || occurs_at(t, ".test."@, k) || occurs_at(
            t,
            ".spec."@,
            k,
        ) || occurs_at(t, "_spec."@, k));
    }
    if has_text(t, "_test."@) {
        let k = choose|k: int| occurs_at(t, "_test."@, k);
        assert(occurs_at(t, "_test."@, k));
    }
    if has_text(t, ".test."@) {
        let k = choose|k: int| occurs_at(t, ".test."@, k);
        assert(occurs_at(t, ".test."@, k));
    }
    if has_text(t, ".spec."@) {
        let k = choose|k: int| occurs_at(t, ".spec."@, k);
        assert(occurs_at(t, ".spec."@, k));
    }
    if has_text(t, "_spec."@) {
        let k = choose|k: int| occurs_at(t, "_spec."@, k);
        assert(occurs_at(t, "_spec."@, k));
    }
}

/// The parts of a path in small letters are the small letters of its parts.
proof fn lemma_lowered_pieces(s: Seq<char>)
    ensures
        pieces(lowered(s), Cut::Slashes).len() == pieces(s, Cut::Slashes).len(),
        forall|i: int|
            0 <= i < pieces(s, Cut::Slashes).len() ==> pieces(lowered(s), Cut::Slashes)[i] == lowered(
                #[trigger] pieces(s, Cut::Slashes)[i],
            ),
    decreases s.len(),
{
    let cut = Cut::Slashes;
    crate::split::lemma_pieces_nonempty(s, cut);
    if s.len() > 0 {
        let t = s.drop_last();
        crate::split::lemma_pieces_nonempty(t, cut);
        lemma_lowered_pieces(t);
        assert(lowered(s).drop_last() =~= lowered(t));
        let p = pieces(t, cut);
        let c = s.last();
        assert(lowered(s).last() == lower_char(c));
        if cut.cuts(c) {
            assert(lowered(Seq::<char>::empty()) =~= Seq::<char>::empty());
        } else {
            assert(lowered(p.last().push(c)) =~= lowered(p.last()).push(lower_char(c)));
            let n = p.len() - 1;
            assert(pieces(lowered(t), cut)[n] == lowered(p[n]));
        }
    } else {
        assert(lowered(s) =~= s);
        assert(pieces(s, cut)[0] =~= Seq::<char>::empty());
    }
}

} // verus!
