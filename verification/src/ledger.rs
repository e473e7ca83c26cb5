//! What a ledger counts of one session, and the sums of such counts.
use vstd::prelude::*;

use crate::claim::{run_views, runs_of, test_command_runs, TestCommandRun, TestRunV};
use crate::count::{how_many, lemma_how_many};
use crate::event::{event_views, AgentEvent, EventKind, EventV, Source};
use crate::flags::{flag_views, flags_for_command, flags_of, Flag, FlagSeverity, FlagV};
use crate::testcmd::{command_kind, TestKind};
use crate::text::same;
use crate::timeline::{timeline_of, EntryV, ToolStatus};

verus! {

/// Flags of destructive commands, by severity. They are matches over the text of
/// commands, not verdicts.
#[derive(Debug, Clone, Copy, PartialEq, Eq, Structural)]
pub struct FlagCounts {
    /// Critical ones.
    pub critical: usize,
    /// Warnings.
    pub warning: usize,
}

/// Test-like commands, by kind and by outcome.
#[derive(Debug, Clone, Copy, PartialEq, Eq, Structural)]
pub struct TestActivity {
    /// Commands that test.
    pub test: usize,
    /// Commands that build.
    pub build: usize,
    /// Commands that lint.
    pub lint: usize,
    /// Those with a good result.
    pub ok: usize,
    /// Those with a failed result.
    pub failed: usize,
    /// Those without a result, which are no failures.
    pub no_result: usize,
}

impl TestActivity {
    /// The number of test-like commands.
    pub fn total(&self) -> (n: usize)
        requires
            self.test + self.build + self.lint <= usize::MAX,
        ensures
            n == self.test + self.build + self.lint,
    {
        self.test + self.build + self.lint
    }
}

/// The counts of one session or of several.
#[derive(Debug, Clone, Copy, PartialEq, Eq, Structural)]
pub struct Counts {
    /// Sessions.
    pub sessions: usize,
    /// Prompts of the user.
    pub prompts: usize,
    /// Tool calls.
    pub tool_calls: usize,
    /// Commands.
    pub commands: usize,
    /// Flags of commands.
    pub flags: FlagCounts,
    /// Test-like commands.
    pub test_activity: TestActivity,
    /// Sessions without a record of their usage.
    pub usage_unavailable: usize,
    /// Sessions in more than one working directory.
    pub multi_cwd: usize,
    /// Sessions in no working directory.
    pub unknown: usize,
    /// Lines that could not be read.
    pub corrupt_lines: usize,
}

/// The contents of [`Counts`].
#[verifier::ext_equal]
pub ghost struct CountsV {
    pub sessions: nat,
    pub prompts: nat,
    pub tool_calls: nat,
    pub commands: nat,
    pub critical: nat,
    pub warning: nat,
    pub test: nat,
    pub build: nat,
    pub lint: nat,
    pub ok: nat,
    pub failed: nat,
    pub no_result: nat,
    pub usage_unavailable: nat,
    pub multi_cwd: nat,
    pub unknown: nat,
    pub corrupt_lines: nat,
}

impl View for Counts {
    type V = CountsV;

    open spec fn view(&self) -> CountsV {
        CountsV {
            sessions: self.sessions as nat,
            prompts: self.prompts as nat,
            tool_calls: self.tool_calls as nat,
            commands: self.commands as nat,
            critical: self.flags.critical as nat,
            warning: self.flags.warning as nat,
            test: self.test_activity.test as nat,
            build: self.test_activity.build as nat,
            lint: self.test_activity.lint as nat,
            ok: self.test_activity.ok as nat,
            failed: self.test_activity.failed as nat,
            no_result: self.test_activity.no_result as nat,
            usage_unavailable: self.usage_unavailable as nat,
            multi_cwd: self.multi_cwd as nat,
            unknown: self.unknown as nat,
            corrupt_lines: self.corrupt_lines as nat,
        }
    }
}

/// Counts of nothing.
pub open spec fn no_counts() -> CountsV {
    CountsV {
        sessions: 0,
        prompts: 0,
        tool_calls: 0,
        commands: 0,
        critical: 0,
        warning: 0,
        test: 0,
        build: 0,
        lint: 0,
        ok: 0,
        failed: 0,
        no_result: 0,
        usage_unavailable: 0,
        multi_cwd: 0,
        unknown: 0,
        corrupt_lines: 0,
    }
}

impl CountsV {
    /// The sums of two counts.
    pub open spec fn plus(self, other: CountsV) -> CountsV {
        CountsV {
            sessions: self.sessions + other.sessions,
            prompts: self.prompts + other.prompts,
            tool_calls: self.tool_calls + other.tool_calls,
            commands: self.commands + other.commands,
            critical: self.critical + other.critical,
            warning: self.warning + other.warning,
            test: self.test + other.test,
            build: self.build + other.build,
            lint: self.lint + other.lint,
            ok: self.ok + other.ok,
            failed: self.failed + other.failed,
            no_result: self.no_result + other.no_result,
            usage_unavailable: self.usage_unavailable + other.usage_unavailable,
            multi_cwd: self.multi_cwd + other.multi_cwd,
            unknown: self.unknown + other.unknown,
            corrupt_lines: self.corrupt_lines + other.corrupt_lines,
        }
    }

    /// Whether no count is greater than in `other`.
    pub open spec fn within(self, other: CountsV) -> bool {
        &&& self.sessions <= other.sessions
        &&& self.prompts <= other.prompts
        &&& self.tool_calls <= other.tool_calls
        &&& self.commands <= other.commands
        &&& self.critical <= other.critical
        &&& self.warning <= other.warning
        &&& self.test <= other.test
        &&& self.build <= other.build
        &&& self.lint <= other.lint
        &&& self.ok <= other.ok
        &&& self.failed <= other.failed
        &&& self.no_result <= other.no_result
        &&& self.usage_unavailable <= other.usage_unavailable
        &&& self.multi_cwd <= other.multi_cwd
        &&& self.unknown <= other.unknown
        &&& self.corrupt_lines <= other.corrupt_lines
    }

    /// Whether each count is a number that the type of counts holds.
    pub open spec fn fits(self) -> bool {
        &&& self.sessions <= usize::MAX
        &&& self.prompts <= usize::MAX
        &&& self.tool_calls <= usize::MAX
        &&& self.commands <= usize::MAX
        &&& self.critical <= usize::MAX
        &&& self.warning <= usize::MAX
        &&& self.test <= usize::MAX
        &&& self.build <= usize::MAX
        &&& self.lint <= usize::MAX
        &&& self.ok <= usize::MAX
        &&& self.failed <= usize::MAX
        &&& self.no_result <= usize::MAX
        &&& self.usage_unavailable <= usize::MAX
        &&& self.multi_cwd <= usize::MAX
        &&& self.unknown <= usize::MAX
        &&& self.corrupt_lines <= usize::MAX
    }
}

/// Counts of nothing.
pub fn zero_counts() -> (c: Counts)
    ensures
        c@ == no_counts(),
{
    Counts {
        sessions: 0,
        prompts: 0,
        tool_calls: 0,
        commands: 0,
        flags: FlagCounts { critical: 0, warning: 0 },
        test_activity: TestActivity { test: 0, build: 0, lint: 0, ok: 0, failed: 0, no_result: 0 },
        usage_unavailable: 0,
        multi_cwd: 0,
        unknown: 0,
        corrupt_lines: 0,
    }
}

/// Adds two numbers, if the sum can be told.
fn sum(a: usize, b: usize, fine: &mut bool) -> (r: usize)
    ensures
        *final(fine) == (*old(fine) && a + b <= usize::MAX),
        *final(fine) ==> r == a + b,
{
    if a <= usize::MAX - b {
        a + b
    } else {
        *fine = false;
        0
    }
}

/// Adds two counts, if the sums can be told.
pub fn add_counts(a: &Counts, b: &Counts) -> (r: Option<Counts>)
    ensures
        match r {
            Some(c) => c@ == a@.plus(b@) && c@.fits(),
            None => !a@.plus(b@).fits(),
        },
{
    let mut fine = true;
    let flags = FlagCounts {
        critical: sum(a.flags.critical, b.flags.critical, &mut fine),
        warning: sum(a.flags.warning, b.flags.warning, &mut fine),
    };
    let test_activity = TestActivity {
        test: sum(a.test_activity.test, b.test_activity.test, &mut fine),
        build: sum(a.test_activity.build, b.test_activity.build, &mut fine),
        lint: sum(a.test_activity.lint, b.test_activity.lint, &mut fine),
        ok: sum(a.test_activity.ok, b.test_activity.ok, &mut fine),
        failed: sum(a.test_activity.failed, b.test_activity.failed, &mut fine),
        no_result: sum(a.test_activity.no_result, b.test_activity.no_result, &mut fine),
    };
    let c = Counts {
        sessions: sum(a.sessions, b.sessions, &mut fine),
        prompts: sum(a.prompts, b.prompts, &mut fine),
        tool_calls: sum(a.tool_calls, b.tool_calls, &mut fine),
        commands: sum(a.commands, b.commands, &mut fine),
        flags,
        test_activity,
        usage_unavailable: sum(a.usage_unavailable, b.usage_unavailable, &mut fine),
        multi_cwd: sum(a.multi_cwd, b.multi_cwd, &mut fine),
        unknown: sum(a.unknown, b.unknown, &mut fine),
        corrupt_lines: sum(a.corrupt_lines, b.corrupt_lines, &mut fine),
    };
    if fine {
        Some(c)
    } else {
        None
    }
}

// ---------------------------------------------------------------------------
// One session
// ---------------------------------------------------------------------------

/// The number of flags of a severity.
pub open spec fn severity_count(fs: Seq<FlagV>, severity: FlagSeverity) -> nat
    decreases fs.len(),
{
    if fs.len() == 0 {
        0
    } else {
        severity_count(fs.drop_last(), severity) + (if fs.last().severity == severity {
            1nat
        } else {
            0
        })
    }
}

/// The flags of the command of a call.
pub open spec fn call_flags(e: EventV) -> Seq<FlagV> {
    match e.input("command"@) {
        Some(command) => flags_of(command),
        None => Seq::<FlagV>::empty(),
    }
}

/// Whether an event is the call of a command.
pub open spec fn is_command_call(e: EventV) -> bool {
    e.kind == EventKind::ToolCall && e.text("tool_name"@) == Some("Bash"@)
}

/// What an event counts for. Prompts of the transcript are not those of a user.
pub open spec fn event_counts(e: EventV) -> CountsV {
    if e.kind == EventKind::Prompt && e.source == Source::Hooks {
        CountsV { prompts: 1, ..no_counts() }
    } else if is_command_call(e) {
        CountsV {
            tool_calls: 1,
            commands: 1,
            critical: severity_count(call_flags(e), FlagSeverity::Critical),
            warning: severity_count(call_flags(e), FlagSeverity::Warning),
            ..no_counts()
        }
    } else if e.kind == EventKind::ToolCall {
        CountsV { tool_calls: 1, ..no_counts() }
    } else {
        no_counts()
    }
}

/// What events count for.
pub open spec fn events_counts(es: Seq<EventV>) -> CountsV
    decreases es.len(),
{
    if es.len() == 0 {
        no_counts()
    } else {
        events_counts(es.drop_last()).plus(event_counts(es.last()))
    }
}

/// What a test-like command counts for.
pub open spec fn run_counts(r: TestRunV) -> CountsV {
    CountsV {
        test: if r.kind == "test"@ {
            1
        } else {
            0
        },
        build: if r.kind == "build"@ {
            1
        } else {
            0
        },
        lint: if r.kind == "lint"@ {
            1
        } else {
            0
        },
        ok: if r.status == "ok"@ {
            1
        } else {
            0
        },
        failed: if r.status == "failed"@ {
            1
        } else {
            0
        },
        no_result: if r.status == "no-result"@ {
            1
        } else {
            0
        },
        ..no_counts()
    }
}

/// What test-like commands count for.
pub open spec fn runs_counts(rs: Seq<TestRunV>) -> CountsV
    decreases rs.len(),
{
    if rs.len() == 0 {
        no_counts()
    } else {
        runs_counts(rs.drop_last()).plus(run_counts(rs.last()))
    }
}

/// What the events of a session count for, with the test-like commands among
/// them.
pub open spec fn activity_of(es: Seq<EventV>) -> CountsV {
    events_counts(es).plus(runs_counts(runs_of(timeline_of(es))))
}

fn count_severity(fs: &Vec<Flag>, severity: FlagSeverity) -> (n: usize)
    ensures
        n == severity_count(flag_views(fs@), severity),
{
    let ghost fv = flag_views(fs@);
    let mut n: usize = 0;
    for i in 0..fs.len()
        invariant
            fv == flag_views(fs@),
            n == severity_count(fv.take(i as int), severity),
            n <= i,
    {
        proof {
            assert(fv.take(i + 1).drop_last() =~= fv.take(i as int));
            assert(fv.take(i + 1).last() == fs@[i as int]@);
        }
        if fs[i].severity == severity {
            n = n + 1;
        }
    }
    proof {
        assert(fv.take(fv.len() as int) =~= fv);
    }
    n
}

fn count_event(e: &AgentEvent) -> (c: Counts)
    ensures
        c@ == event_counts(e@),
{
    let mut c = zero_counts();
    match e.kind {
        EventKind::Prompt => {
            match e.source {
                Source::Hooks => {
                    c.prompts = 1;
                },
                Source::Transcript => {},
            }
        },
        EventKind::ToolCall => {
            c.tool_calls = 1;
            let is_bash = match e.str_field("tool_name") {
                Some(t) => same(t, "Bash"),
                None => false,
            };
            if is_bash {
                c.commands = 1;
                let fs: Vec<Flag> = match e.tool_input_str("command") {
                    Some(command) => flags_for_command(command),
                    None => Vec::new(),
                };
                proof {
                    assert(flag_views(fs@) =~= call_flags(e@));
                }
                c.flags = FlagCounts {
                    critical: count_severity(&fs, FlagSeverity::Critical),
                    warning: count_severity(&fs, FlagSeverity::Warning),
                };
            }
        },
        _ => {},
    }
    c
}

fn one_if(b: bool) -> (n: usize)
    ensures
        n == (if b {
            1int
        } else {
            0
        }),
{
    if b {
        1
    } else {
        0
    }
}

fn count_run(r: &TestCommandRun) -> (c: Counts)
    ensures
        c@ == run_counts(r@),
{
    let mut c = zero_counts();
    c.test_activity = TestActivity {
        test: one_if(same(r.kind, "test")),
        build: one_if(same(r.kind, "build")),
        lint: one_if(same(r.kind, "lint")),
        ok: one_if(same(r.status, "ok")),
        failed: one_if(same(r.status, "failed")),
        no_result: one_if(same(r.status, "no-result")),
    };
    c
}

proof fn lemma_events_within(es: Seq<EventV>, k: int)
    requires
        0 <= k <= es.len(),
    ensures
        events_counts(es.take(k)).within(events_counts(es)),
    decreases es.len(),
{
    if k < es.len() {
        lemma_events_within(es.drop_last(), k);
        assert(es.drop_last().take(k) =~= es.take(k));
    } else {
        assert(es.take(k) =~= es);
    }
}

proof fn lemma_runs_within(rs: Seq<TestRunV>, k: int)
    requires
        0 <= k <= rs.len(),
    ensures
        runs_counts(rs.take(k)).within(runs_counts(rs)),
    decreases rs.len(),
{
    if k < rs.len() {
        lemma_runs_within(rs.drop_last(), k);
        assert(rs.drop_last().take(k) =~= rs.take(k));
    } else {
        assert(rs.take(k) =~= rs);
    }
}

fn count_events(events: &[AgentEvent]) -> (r: Option<Counts>)
    ensures
        match r {
            Some(c) => c@ == events_counts(event_views(events@)) && c@.fits(),
            None => !events_counts(event_views(events@)).fits(),
        },
{
    let ghost ev = event_views(events@);
    let mut c = zero_counts();
    for i in 0..events.len()
        invariant
            ev == event_views(events@),
            c@ == events_counts(ev.take(i as int)),
            c@.fits(),
    {
        proof {
            assert(ev.take(i + 1).drop_last() =~= ev.take(i as int));
            assert(ev.take(i + 1).last() == events@[i as int]@);
            lemma_events_within(ev, i + 1);
        }
        match add_counts(&c, &count_event(&events[i])) {
            Some(d) => {
                c = d;
            },
            None => {
                return None;
            },
        }
    }
    proof {
        assert(ev.take(ev.len() as int) =~= ev);
    }
    Some(c)
}

fn count_runs(runs: &Vec<TestCommandRun>) -> (r: Option<Counts>)
    ensures
        match r {
            Some(c) => c@ == runs_counts(run_views(runs@)) && c@.fits(),
            None => !runs_counts(run_views(runs@)).fits(),
        },
{
    let ghost rv = run_views(runs@);
    let mut c = zero_counts();
    for i in 0..runs.len()
        invariant
            rv == run_views(runs@),
            c@ == runs_counts(rv.take(i as int)),
            c@.fits(),
    {
        proof {
            assert(rv.take(i + 1).drop_last() =~= rv.take(i as int));
            assert(rv.take(i + 1).last() == runs@[i as int]@);
            lemma_runs_within(rv, i + 1);
        }
        match add_counts(&c, &count_run(&runs[i])) {
            Some(d) => {
                c = d;
            },
            None => {
                return None;
            },
        }
    }
    proof {
        assert(rv.take(rv.len() as int) =~= rv);
    }
    Some(c)
}

/// Counts the events of a session, if the counts can be told.
pub fn count_activity(events: &[AgentEvent]) -> (r: Option<Counts>)
    ensures
        match r {
            Some(c) => c@ == activity_of(event_views(events@)) && c@.fits(),
            None => !activity_of(event_views(events@)).fits(),
        },
{
    let runs = test_command_runs(events);
    match (count_events(events), count_runs(&runs)) {
        (Some(a), Some(b)) => add_counts(&a, &b),
        _ => None,
    }
}

// ---------------------------------------------------------------------------
// Laws
// ---------------------------------------------------------------------------

/// Prompts of the transcript, which are what the assistant wrote, count for
/// nothing.
pub proof fn transcript_prompts_do_not_count(e: EventV)
    requires
        e.kind == EventKind::Prompt,
        e.source == Source::Transcript,
    ensures
        event_counts(e) == no_counts(),
{
}

/// A test-like command without a result counts for no failure.
pub proof fn missing_results_count_for_no_failure(r: TestRunV)
    requires
        r.status == "no-result"@,
    ensures
        run_counts(r).failed == 0,
        run_counts(r).no_result == 1,
{
    reveal_strlit("no-result");
    reveal_strlit("failed");
    assert("no-result"@.len() != "failed"@.len());
}

/// The kind of the test-like command that a row is of, if it is one.
pub open spec fn row_kind(row: EntryV) -> Option<TestKind> {
    if row.tool_status is Some {
        match row.call.input("command"@) {
            Some(command) => command_kind(command),
            None => None,
        }
    } else {
        None
    }
}

/// The number of test-like rows with an outcome.
pub open spec fn rows_with_outcome(rows: Seq<EntryV>, status: ToolStatus) -> nat {
    how_many(rows, |r: EntryV| row_kind(r) is Some && r.tool_status == Some(status))
}

/// The number of test-like rows of a kind.
pub open spec fn rows_of_kind(rows: Seq<EntryV>, kind: TestKind) -> nat {
    how_many(rows, |r: EntryV| row_kind(r) == Some(kind))
}

proof fn lemma_labels()
    ensures
        "ok"@ != "failed"@,
        "ok"@ != "no-result"@,
        "failed"@ != "no-result"@,
        "test"@ != "build"@,
        "test"@ != "lint"@,
        "build"@ != "lint"@,
{
    reveal_strlit("ok");
    reveal_strlit("failed");
    reveal_strlit("no-result");
    reveal_strlit("test");
    reveal_strlit("build");
    reveal_strlit("lint");
    assert("ok"@.len() == 2 && "failed"@.len() == 6 && "no-result"@.len() == 9);
    assert("test"@[0] == 't' && "build"@[0] == 'b' && "lint"@[0] == 'l');
}

proof fn lemma_rows_counted(rows: Seq<EntryV>)
    ensures
        ({
            let c = runs_counts(runs_of(rows));
            &&& c.ok == rows_with_outcome(rows, ToolStatus::Okay)
            &&& c.failed == rows_with_outcome(rows, ToolStatus::Failed)
            &&& c.no_result == rows_with_outcome(rows, ToolStatus::NoResult)
            &&& c.test == rows_of_kind(rows, TestKind::Test)
            &&& c.build == rows_of_kind(rows, TestKind::Build)
            &&& c.lint == rows_of_kind(rows, TestKind::Lint)
            &&& c.ok + c.failed + c.no_result == c.test + c.build + c.lint
            &&& c.sessions == 0 && c.prompts == 0 && c.tool_calls == 0 && c.commands == 0
            &&& c.critical == 0 && c.warning == 0
            &&& c.usage_unavailable == 0 && c.multi_cwd == 0 && c.unknown == 0 && c.corrupt_lines
                == 0
        }),
    decreases rows.len(),
{
    lemma_how_many(
        rows,
        |r: EntryV| row_kind(r) is Some && r.tool_status == Some(ToolStatus::Okay),
    );
    lemma_how_many(
        rows,
        |r: EntryV| row_kind(r) is Some && r.tool_status == Some(ToolStatus::Failed),
    );
    lemma_how_many(
        rows,
        |r: EntryV| row_kind(r) is Some && r.tool_status == Some(ToolStatus::NoResult),
    );
    lemma_how_many(rows, |r: EntryV| row_kind(r) == Some(TestKind::Test));
    lemma_how_many(rows, |r: EntryV| row_kind(r) == Some(TestKind::Build));
    lemma_how_many(rows, |r: EntryV| row_kind(r) == Some(TestKind::Lint));
    lemma_labels();
    if rows.len() > 0 {
        let before = runs_of(rows.drop_last());
        lemma_rows_counted(rows.drop_last());
        match crate::claim::run_of(rows.last()) {
            Some(r) => {
                assert(before.push(r).drop_last() =~= before);
            },
            None => {},
        }
    }
}

proof fn lemma_events_counted(es: Seq<EventV>)
    ensures
        ({
            let c = events_counts(es);
            &&& c.prompts == how_many(
                es,
                |e: EventV| e.kind == EventKind::Prompt && e.source == Source::Hooks,
            )
            &&& c.tool_calls == how_many(es, |e: EventV| e.kind == EventKind::ToolCall)
            &&& c.commands == how_many(
                es,
                |e: EventV|
                    e.kind == EventKind::ToolCall && e.payload.text_at("tool_name"@) == Some(
                        "Bash"@,
                    ),
            )
            &&& c.test == 0 && c.build == 0 && c.lint == 0 && c.ok == 0 && c.failed == 0
                && c.no_result == 0
            &&& c.sessions == 0 && c.usage_unavailable == 0 && c.multi_cwd == 0 && c.unknown == 0
                && c.corrupt_lines == 0
        }),
    decreases es.len(),
{
    lemma_how_many(es, |e: EventV| e.kind == EventKind::Prompt && e.source == Source::Hooks);
    lemma_how_many(es, |e: EventV| e.kind == EventKind::ToolCall);
    lemma_how_many(
        es,
        |e: EventV|
            e.kind == EventKind::ToolCall && e.payload.text_at("tool_name"@) == Some("Bash"@),
    );
    if es.len() > 0 {
        lemma_events_counted(es.drop_last());
    }
}

/// What a ledger counts of a session are numbers of its events and of the rows of its
/// timeline. A test-like command counts for the outcome that its row shows, for that
/// alone, and for its kind; so the outcomes and the kinds add up to the same.
pub proof fn activity_is_counted_over_events_and_rows(es: Seq<EventV>)
    ensures
        ({
            let c = activity_of(es);
            let rows = timeline_of(es);
            &&& c.ok == rows_with_outcome(rows, ToolStatus::Okay)
            &&& c.failed == rows_with_outcome(rows, ToolStatus::Failed)
            &&& c.no_result == rows_with_outcome(rows, ToolStatus::NoResult)
            &&& c.test == rows_of_kind(rows, TestKind::Test)
            &&& c.build == rows_of_kind(rows, TestKind::Build)
            &&& c.lint == rows_of_kind(rows, TestKind::Lint)
            &&& c.ok + c.failed + c.no_result == c.test + c.build + c.lint
            &&& c.prompts == how_many(
                es,
                |e: EventV| e.kind == EventKind::Prompt && e.source == Source::Hooks,
            )
            &&& c.tool_calls == how_many(es, |e: EventV| e.kind == EventKind::ToolCall)
            &&& c.commands == how_many(
                es,
                |e: EventV|
                    e.kind == EventKind::ToolCall && e.payload.text_at("tool_name"@) == Some(
                        "Bash"@,
                    ),
            )
            &&& c.sessions == 0 && c.usage_unavailable == 0 && c.multi_cwd == 0 && c.unknown == 0
                && c.corrupt_lines == 0
        }),
{
    lemma_rows_counted(timeline_of(es));
    lemma_events_counted(es);
}

proof fn lemma_severities(fs: Seq<FlagV>, severity: FlagSeverity)
    ensures
        severity_count(fs, severity) == how_many(fs, |f: FlagV| f.severity == severity),
    decreases fs.len(),
{
    lemma_how_many(fs, |f: FlagV| f.severity == severity);
    if fs.len() > 0 {
        lemma_severities(fs.drop_last(), severity);
    }
}

/// One event more adds the flags of its command, each under its severity, where it is the
/// call of a command, and no flag else.
pub proof fn flags_are_counted_for_each_command(es: Seq<EventV>, e: EventV)
    ensures
        ({
            let a = activity_of(es);
            let b = activity_of(es.push(e));
            let fs = match e.payload.get("tool_input"@) {
                Some(input) => match input.text_at("command"@) {
                    Some(command) => flags_of(command),
                    None => Seq::empty(),
                },
                None => Seq::empty(),
            };
            if e.kind == EventKind::ToolCall && e.payload.text_at("tool_name"@) == Some("Bash"@) {
                &&& b.critical == a.critical + how_many(
                    fs,
                    |f: FlagV| f.severity == FlagSeverity::Critical,
                )
                &&& b.warning == a.warning + how_many(
                    fs,
                    |f: FlagV| f.severity == FlagSeverity::Warning,
                )
            } else {
                b.critical == a.critical && b.warning == a.warning
            }
        }),
        activity_of(Seq::empty()) == no_counts(),
{
    assert(es.push(e).drop_last() =~= es);
    lemma_rows_counted(timeline_of(es));
    lemma_rows_counted(timeline_of(es.push(e)));
    lemma_severities(call_flags(e), FlagSeverity::Critical);
    lemma_severities(call_flags(e), FlagSeverity::Warning);
    assert(runs_of(timeline_of(Seq::<EventV>::empty())).len() == 0);
    assert(activity_of(Seq::empty()) =~= no_counts());
}

} // verus!
