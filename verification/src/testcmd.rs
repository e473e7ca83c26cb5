//! Curated classification of test, build and lint commands.
//!
//! Matching is best-effort over the recorded command text and hangs on the
//! leading word of each part of a command, so that `echo "cargo test"` is not
//! taken for a test. A runner that is not in the table is not classified.
use vstd::prelude::*;

use crate::shell::{segment_views, segments_of, split_segments, SegmentV};
use crate::split::{alnum, is_alnum};
use crate::text::{begins, chars_of, index_of_char, index_or_len, same, starts_with, views};

verus! {

/// The kind of a recognized test-like command.
#[derive(Debug, Clone, Copy, PartialEq, Eq, Structural)]
pub enum TestKind {
    /// A test runner (`cargo test`, `pytest`, `npm test`).
    Test,
    /// A build, compile or typecheck step (`cargo build`, `go build`, `tsc`).
    Build,
    /// A linter, formatter or static check (`cargo clippy`, `eslint`, `ruff`).
    Lint,
}

impl TestKind {
    /// The label of a kind.
    pub open spec fn spec_label(self) -> Seq<char> {
        match self {
            TestKind::Test => "test"@,
            TestKind::Build => "build"@,
            TestKind::Lint => "lint"@,
        }
    }

    /// Lower-case label for rendering.
    pub fn label(self) -> (r: &'static str)
        ensures
            r@ == self.spec_label(),
    {
        match self {
            TestKind::Test => "test",
            TestKind::Build => "build",
            TestKind::Lint => "lint",
        }
    }

    /// The strength of a kind as a sign that the tests ran; the least is the
    /// strongest.
    pub open spec fn spec_rank(self) -> u8 {
        match self {
            TestKind::Test => 0,
            TestKind::Build => 1,
            TestKind::Lint => 2,
        }
    }

    fn rank(self) -> (r: u8)
        ensures
            r == self.spec_rank(),
    {
        match self {
            TestKind::Test => 0,
            TestKind::Build => 1,
            TestKind::Lint => 2,
        }
    }
}

/// An ASCII letter or an underscore.
pub open spec fn starts_name(c: char) -> bool {
    ('a' <= c && c <= 'z') || ('A' <= c && c <= 'Z') || c == '_'
}

/// An assignment `NAME=value`, with a shell identifier for its name.
pub open spec fn is_assignment(token: Seq<char>) -> bool {
    let k = index_or_len(token, '=');
    &&& 0 < k < token.len()
    &&& starts_name(token[0])
    &&& forall|i: int| 0 <= i < k ==> is_alnum(#[trigger] token[i]) || token[i] == '_'
}

/// The tokens without the assignments at their beginning.
pub open spec fn without_assignments(tokens: Seq<Seq<char>>) -> Seq<Seq<char>>
    decreases tokens.len(),
{
    if tokens.len() > 0 && is_assignment(tokens[0]) {
        without_assignments(tokens.skip(1))
    } else {
        tokens
    }
}

/// The first argument that is not an option.
pub open spec fn first_word_of(args: Seq<Seq<char>>) -> Option<Seq<char>>
    decreases args.len(),
{
    if args.len() == 0 {
        None
    } else if !begins(args[0], "-"@) {
        Some(args[0])
    } else {
        first_word_of(args.skip(1))
    }
}

/// The kind of a `cargo` subcommand.
pub open spec fn cargo_kind(w: Seq<char>) -> Option<TestKind> {
    if w == "test"@ || w == "t"@ || w == "nextest"@ {
        Some(TestKind::Test)
    } else if w == "build"@ || w == "b"@ || w == "check"@ || w == "c"@ {
        Some(TestKind::Build)
    } else if w == "clippy"@ || w == "fmt"@ {
        Some(TestKind::Lint)
    } else {
        None
    }
}

/// The kind of a `just` recipe, by its conventional name.
pub open spec fn just_kind(w: Seq<char>) -> Option<TestKind> {
    if w == "test"@ || w == "t"@ || w == "verify"@ {
        Some(TestKind::Test)
    } else if w == "check"@ || w == "lint"@ || w == "fmt"@ {
        Some(TestKind::Lint)
    } else if w == "build"@ {
        Some(TestKind::Build)
    } else {
        None
    }
}

/// The kind of a `go` subcommand.
pub open spec fn go_kind(w: Seq<char>) -> Option<TestKind> {
    if w == "test"@ {
        Some(TestKind::Test)
    } else if w == "build"@ {
        Some(TestKind::Build)
    } else if w == "vet"@ {
        Some(TestKind::Lint)
    } else {
        None
    }
}

/// The kind of a `dotnet` subcommand.
pub open spec fn dotnet_kind(w: Seq<char>) -> Option<TestKind> {
    if w == "test"@ {
        Some(TestKind::Test)
    } else if w == "build"@ {
        Some(TestKind::Build)
    } else {
        None
    }
}

/// The kind of a `make` target; `make` alone builds.
pub open spec fn make_kind(w: Option<Seq<char>>) -> Option<TestKind> {
    match w {
        None => Some(TestKind::Build),
        Some(w) => if w == "test"@ {
            Some(TestKind::Test)
        } else if w == "lint"@ {
            Some(TestKind::Lint)
        } else if w == "build"@ {
            Some(TestKind::Build)
        } else {
            None
        },
    }
}

/// The kind of a script of a node package manager, named behind an optional
/// `run`.
pub open spec fn node_kind(args: Seq<Seq<char>>) -> Option<TestKind> {
    let k: int = if args.len() > 0 && args[0] == "run"@ {
        1
    } else {
        0
    };
    if k >= args.len() {
        None
    } else if args[k] == "test"@ || args[k] == "t"@ {
        Some(TestKind::Test)
    } else if args[k] == "build"@ {
        Some(TestKind::Build)
    } else if args[k] == "lint"@ {
        Some(TestKind::Lint)
    } else {
        None
    }
}

/// A build goal of `mvn` or `gradle`.
pub open spec fn is_jvm_build(w: Seq<char>) -> bool {
    w == "build"@ || w == "package"@ || w == "install"@ || w == "compile"@ || w == "assemble"@
}

/// The kind of a list of `mvn` or `gradle` goals.
pub open spec fn jvm_kind(args: Seq<Seq<char>>) -> Option<TestKind> {
    if args.contains("test"@) {
        Some(TestKind::Test)
    } else if exists|i: int| 0 <= i < args.len() && is_jvm_build(#[trigger] args[i]) {
        Some(TestKind::Build)
    } else {
        None
    }
}

/// A test runner whose name is the command word.
pub open spec fn is_runner(w: Seq<char>) -> bool {
    w == "pytest"@ || w == "py.test"@ || w == "tox"@ || w == "nose2"@ || w == "jest"@ || w
        == "vitest"@ || w == "mocha"@ || w == "ava"@ || w == "rspec"@ || w == "phpunit"@
}

/// A linter whose name is the command word.
pub open spec fn is_linter(w: Seq<char>) -> bool {
    w == "eslint"@ || w == "ruff"@ || w == "flake8"@ || w == "pylint"@ || w == "golangci-lint"@ || w
        == "rubocop"@
}

/// The kind that a subcommand has in a table, if there is a subcommand.
pub open spec fn through(
    w: Option<Seq<char>>,
    table: spec_fn(Seq<char>) -> Option<TestKind>,
) -> Option<TestKind> {
    match w {
        Some(w) => table(w),
        None => None,
    }
}

/// The kind of one part of a command, from its leading word and its arguments.
pub open spec fn segment_kind(leading: Seq<char>, args: Seq<Seq<char>>) -> Option<TestKind> {
    let word = first_word_of(args);
    if leading == "cargo"@ {
        through(word, |w: Seq<char>| cargo_kind(w))
    } else if leading == "just"@ {
        through(word, |w: Seq<char>| just_kind(w))
    } else if leading == "npm"@ || leading == "pnpm"@ || leading == "yarn"@ || leading == "bun"@ {
        node_kind(args)
    } else if leading == "go"@ {
        through(word, |w: Seq<char>| go_kind(w))
    } else if leading == "make"@ {
        make_kind(word)
    } else if leading == "dotnet"@ {
        through(word, |w: Seq<char>| dotnet_kind(w))
    } else if leading == "mvn"@ || leading == "gradle"@ || leading == "gradlew"@ || leading
        == "./gradlew"@ {
        jvm_kind(args)
    } else if is_runner(leading) {
        Some(TestKind::Test)
    } else if leading == "tsc"@ {
        Some(TestKind::Build)
    } else if is_linter(leading) {
        Some(TestKind::Lint)
    } else {
        None
    }
}

/// The kind of the words of one part of a command.
pub open spec fn tokens_kind(tokens: Seq<Seq<char>>) -> Option<TestKind> {
    let t = without_assignments(tokens);
    if t.len() == 0 {
        None
    } else {
        segment_kind(t[0], t.skip(1))
    }
}

/// The stronger of two kinds, the first where they are alike.
pub open spec fn stronger(a: Option<TestKind>, b: Option<TestKind>) -> Option<TestKind> {
    match (a, b) {
        (Some(x), Some(y)) => if x.spec_rank() <= y.spec_rank() {
            Some(x)
        } else {
            Some(y)
        },
        (None, _) => b,
        (_, None) => a,
    }
}

/// The strongest kind of the parts of a command.
pub open spec fn strongest(segs: Seq<SegmentV>) -> Option<TestKind>
    decreases segs.len(),
{
    if segs.len() == 0 {
        None
    } else {
        stronger(strongest(segs.drop_last()), tokens_kind(segs.last().tokens))
    }
}

/// The kind of a command.
pub open spec fn command_kind(command: Seq<char>) -> Option<TestKind> {
    strongest(segments_of(command))
}

// ---------------------------------------------------------------------------
// The classifier
// ---------------------------------------------------------------------------

fn is_env_assignment(token: &str) -> (r: bool)
    ensures
        r == is_assignment(token@),
{
    let v = chars_of(token);
    let k: usize = index_of_char(&v, '=');
    if k == 0 || k == v.len() {
        return false;
    }
    let c = v[0];
    if !(('a' <= c && c <= 'z') || ('A' <= c && c <= 'Z') || c == '_') {
        return false;
    }
    for i in 0..k
        invariant
            v@ == token@,
            k == index_or_len(token@, '='),
            k <= v@.len(),
            forall|j: int| 0 <= j < i ==> is_alnum(#[trigger] v@[j]) || v@[j] == '_',
    {
        if !(alnum(v[i]) || v[i] == '_') {
            return false;
        }
    }
    true
}

/// The number of assignments at the beginning.
fn leading_assignments(tokens: &Vec<String>) -> (k: usize)
    ensures
        k <= tokens@.len(),
        without_assignments(views(tokens@)) == views(tokens@).skip(k as int),
{
    let ghost all = views(tokens@);
    let mut k: usize = 0;
    proof {
        assert(all.skip(0) =~= all);
    }
    while k < tokens.len() && is_env_assignment(tokens[k].as_str())
        invariant
            all == views(tokens@),
            k <= tokens@.len(),
            without_assignments(all) == without_assignments(all.skip(k as int)),
        decreases tokens@.len() - k,
    {
        proof {
            assert(all.skip(k as int)[0] == tokens@[k as int]@);
            assert(all.skip(k as int).skip(1) =~= all.skip(k + 1));
        }
        k = k + 1;
    }
    proof {
        if k < tokens@.len() {
            assert(all.skip(k as int)[0] == tokens@[k as int]@);
        }
    }
    k
}

/// The position of the first argument that is not an option.
fn first_word(tokens: &Vec<String>, from: usize) -> (r: Option<usize>)
    requires
        from <= tokens@.len(),
    ensures
        match r {
            Some(k) => k < tokens@.len() && first_word_of(views(tokens@).skip(from as int)) == Some(
                tokens@[k as int]@,
            ),
            None => first_word_of(views(tokens@).skip(from as int)) is None,
        },
{
    let ghost all = views(tokens@);
    let mut k: usize = from;
    while k < tokens.len()
        invariant
            all == views(tokens@),
            from <= k <= tokens@.len(),
            first_word_of(all.skip(from as int)) == first_word_of(all.skip(k as int)),
        decreases tokens@.len() - k,
    {
        proof {
            assert(all.skip(k as int)[0] == tokens@[k as int]@);
            assert(all.skip(k as int).skip(1) =~= all.skip(k + 1));
        }
        if !starts_with(tokens[k].as_str(), "-") {
            return Some(k);
        }
        k = k + 1;
    }
    None
}

fn classify_cargo(w: &str) -> (r: Option<TestKind>)
    ensures
        r == cargo_kind(w@),
{
    if same(w, "test") || same(w, "t") || same(w, "nextest") {
        Some(TestKind::Test)
    } else if same(w, "build") || same(w, "b") || same(w, "check") || same(w, "c") {
        Some(TestKind::Build)
    } else if same(w, "clippy") || same(w, "fmt") {
        Some(TestKind::Lint)
    } else {
        None
    }
}

fn classify_just(w: &str) -> (r: Option<TestKind>)
    ensures
        r == just_kind(w@),
{
    if same(w, "test") || same(w, "t") || same(w, "verify") {
        Some(TestKind::Test)
    } else if same(w, "check") || same(w, "lint") || same(w, "fmt") {
        Some(TestKind::Lint)
    } else if same(w, "build") {
        Some(TestKind::Build)
    } else {
        None
    }
}

fn classify_go(w: &str) -> (r: Option<TestKind>)
    ensures
        r == go_kind(w@),
{
    if same(w, "test") {
        Some(TestKind::Test)
    } else if same(w, "build") {
        Some(TestKind::Build)
    } else if same(w, "vet") {
        Some(TestKind::Lint)
    } else {
        None
    }
}

fn classify_dotnet(w: &str) -> (r: Option<TestKind>)
    ensures
        r == dotnet_kind(w@),
{
    if same(w, "test") {
        Some(TestKind::Test)
    } else if same(w, "build") {
        Some(TestKind::Build)
    } else {
        None
    }
}

fn classify_node_script(tokens: &Vec<String>, from: usize) -> (r: Option<TestKind>)
    requires
        from <= tokens@.len(),
    ensures
        r == node_kind(views(tokens@).skip(from as int)),
{
    let ghost args = views(tokens@).skip(from as int);
    let n: usize = tokens.len();
    let k: usize = if from < n && same(tokens[from].as_str(), "run") {
        from + 1
    } else {
        from
    };
    if k >= n {
        return None;
    }
    proof {
        assert(args[k - from] == tokens@[k as int]@);
        assert(args[0] == tokens@[from as int]@);
    }
    let script = tokens[k].as_str();
    if same(script, "test") || same(script, "t") {
        Some(TestKind::Test)
    } else if same(script, "build") {
        Some(TestKind::Build)
    } else if same(script, "lint") {
        Some(TestKind::Lint)
    } else {
        None
    }
}

fn classify_jvm(tokens: &Vec<String>, from: usize) -> (r: Option<TestKind>)
    requires
        from <= tokens@.len(),
    ensures
        r == jvm_kind(views(tokens@).skip(from as int)),
{
    let ghost args = views(tokens@).skip(from as int);
    let mut tests = false;
    let mut builds = false;
    for i in from..tokens.len()
        invariant
            from <= tokens@.len(),
            args == views(tokens@).skip(from as int),
            tests == exists|j: int| 0 <= j < i - from && #[trigger] args[j] == "test"@,
            builds == exists|j: int| 0 <= j < i - from && is_jvm_build(#[trigger] args[j]),
    {
        proof {
            assert(args[i - from] == tokens@[i as int]@);
        }
        let w = tokens[i].as_str();
        if same(w, "test") {
            tests = true;
        }
        if same(w, "build") || same(w, "package") || same(w, "install") || same(w, "compile")
            || same(w, "assemble") {
            builds = true;
        }
    }
    if tests {
        Some(TestKind::Test)
    } else if builds {
        Some(TestKind::Build)
    } else {
        None
    }
}

fn runner(w: &str) -> (r: bool)
    ensures
        r == is_runner(w@),
{
    same(w, "pytest") || same(w, "py.test") || same(w, "tox") || same(w, "nose2") || same(w, "jest")
        || same(w, "vitest") || same(w, "mocha") || same(w, "ava") || same(w, "rspec") || same(
        w,
        "phpunit",
    )
}

fn linter(w: &str) -> (r: bool)
    ensures
        r == is_linter(w@),
{
    same(w, "eslint") || same(w, "ruff") || same(w, "flake8") || same(w, "pylint") || same(
        w,
        "golangci-lint",
    ) || same(w, "rubocop")
}

/// The kind of one part of a command whose leading word stands at `at`.
fn classify_segment(tokens: &Vec<String>, at: usize) -> (r: Option<TestKind>)
    requires
        at < tokens@.len(),
    ensures
        r == segment_kind(views(tokens@)[at as int], views(tokens@).skip(at + 1)),
{
    let n: usize = tokens.len();
    let leading = tokens[at].as_str();
    let word = first_word(tokens, at + 1);
    if same(leading, "cargo") {
        match word {
            Some(k) => classify_cargo(tokens[k].as_str()),
            None => None,
        }
    } else if same(leading, "just") {
        match word {
            Some(k) => classify_just(tokens[k].as_str()),
            None => None,
        }
    } else if same(leading, "npm") || same(leading, "pnpm") || same(leading, "yarn") || same(
        leading,
        "bun",
    ) {
        classify_node_script(tokens, at + 1)
    } else if same(leading, "go") {
        match word {
            Some(k) => classify_go(tokens[k].as_str()),
            None => None,
        }
    } else if same(leading, "make") {
        match word {
            Some(k) => {
                let w = tokens[k].as_str();
                if same(w, "test") {
                    Some(TestKind::Test)
                } else if same(w, "lint") {
                    Some(TestKind::Lint)
                } else if same(w, "build") {
                    Some(TestKind::Build)
                } else {
                    None
                }
            },
            None => Some(TestKind::Build),
        }
    } else if same(leading, "dotnet") {
        match word {
            Some(k) => classify_dotnet(tokens[k].as_str()),
            None => None,
        }
    } else if same(leading, "mvn") || same(leading, "gradle") || same(leading, "gradlew") || same(
        leading,
        "./gradlew",
    ) {
        classify_jvm(tokens, at + 1)
    } else if runner(leading) {
        Some(TestKind::Test)
    } else if same(leading, "tsc") {
        Some(TestKind::Build)
    } else if linter(leading) {
        Some(TestKind::Lint)
    } else {
        None
    }
}

/// Classifies a recorded command as test-like, or gives none if it is not
/// recognized.
///
/// The command is cut at `&&`, `||`, `;`, `|` and line ends, and each part is
/// classified by its leading word, behind any assignments. Of several kinds the
/// strongest wins: a test before a build before a lint.
pub fn classify_command(command: &str) -> (r: Option<TestKind>)
    ensures
        r == command_kind(command@),
{
    let segments = split_segments(command);
    let ghost segs = segment_views(segments@);
    let mut best: Option<TestKind> = None;
    for i in 0..segments.len()
        invariant
            segs == segment_views(segments@),
            best == strongest(segs.take(i as int)),
    {
        proof {
            assert(segs.take(i + 1).drop_last() =~= segs.take(i as int));
            assert(segs.take(i + 1).last() == segments@[i as int]@);
        }
        let tokens = &segments[i].tokens;
        let at: usize = leading_assignments(tokens);
        let kind: Option<TestKind> = if at < tokens.len() {
            proof {
                let t = views(tokens@).skip(at as int);
                assert(t[0] == views(tokens@)[at as int]);
                assert(t.skip(1) =~= views(tokens@).skip(at + 1));
            }
            classify_segment(tokens, at)
        } else {
            None
        };
        best = match (best, kind) {
            (Some(x), Some(y)) => if x.rank() <= y.rank() {
                Some(x)
            } else {
                Some(y)
            },
            (None, _) => kind,
            (_, None) => best,
        };
    }
    proof {
        assert(segs.take(segs.len() as int) =~= segs);
    }
    best
}

// ---------------------------------------------------------------------------
// Laws
// ---------------------------------------------------------------------------

/// A command is of some kind exactly if one of its parts is, and no part is of
/// a stronger kind than the command.
pub proof fn strongest_part_wins(segs: Seq<SegmentV>)
    ensures
        match strongest(segs) {
            Some(k) => {
                &&& exists|i: int|
                    0 <= i < segs.len() && tokens_kind((#[trigger] segs[i]).tokens) == Some(k)
                &&& forall|i: int|
                    0 <= i < segs.len() ==> (match tokens_kind((#[trigger] segs[i]).tokens) {
                        Some(x) => k.spec_rank() <= x.spec_rank(),
                        None => true,
                    })
            },
            None => forall|i: int|
                0 <= i < segs.len() ==> tokens_kind((#[trigger] segs[i]).tokens) is None,
        },
    decreases segs.len(),
{
    if segs.len() > 0 {
        let t = segs.drop_last();
        strongest_part_wins(t);
        let before = strongest(t);
        assert forall|i: int| 0 <= i < t.len() implies #[trigger] segs[i] == t[i] by {}
        if before is Some {
            let w = choose|i: int|
                0 <= i < t.len() && tokens_kind((#[trigger] t[i]).tokens) == Some(before->0);
            assert(segs[w] == t[w]);
        }
        assert(segs[segs.len() - 1] == segs.last());
    }
}

/// A command is a test exactly if one of its parts is, a build exactly if one of its parts
/// is and none is a test, and a lint exactly if one of its parts is and none is either.
pub proof fn the_strongest_part_counts(command: Seq<char>)
    ensures
        command_kind(command) == Some(TestKind::Test) <==> has_part(command, TestKind::Test),
        command_kind(command) == Some(TestKind::Build) <==> has_part(command, TestKind::Build)
            && !has_part(command, TestKind::Test),
        command_kind(command) == Some(TestKind::Lint) <==> has_part(command, TestKind::Lint)
            && !has_part(command, TestKind::Test) && !has_part(command, TestKind::Build),
{
    lemma_strongest(segments_of(command));
}

/// Whether a command has a part of a kind.
pub open spec fn has_part(command: Seq<char>, kind: TestKind) -> bool {
    some_segment(segments_of(command), kind)
}

/// Whether one of the parts is of a kind.
pub open spec fn some_segment(segs: Seq<SegmentV>, kind: TestKind) -> bool {
    exists|i: int| 0 <= i < segs.len() && tokens_kind((#[trigger] segs[i]).tokens) == Some(kind)
}

proof fn lemma_some_segment(segs: Seq<SegmentV>, kind: TestKind)
    requires
        segs.len() > 0,
    ensures
        some_segment(segs, kind) <==> some_segment(segs.drop_last(), kind) || tokens_kind(
            segs.last().tokens,
        ) == Some(kind),
{
    let t = segs.drop_last();
    if some_segment(t, kind) {
        let i = choose|i: int|
            0 <= i < t.len() && tokens_kind((#[trigger] t[i]).tokens) == Some(kind);
        assert(tokens_kind(segs[i].tokens) == Some(kind));
    }
    if tokens_kind(segs.last().tokens) == Some(kind) {
        assert(tokens_kind(segs[segs.len() - 1].tokens) == Some(kind));
    }
    if some_segment(segs, kind) {
        let i = choose|i: int|
            0 <= i < segs.len() && tokens_kind((#[trigger] segs[i]).tokens) == Some(kind);
        if i < t.len() {
            assert(tokens_kind(t[i].tokens) == Some(kind));
        }
    }
}

proof fn lemma_strongest(segs: Seq<SegmentV>)
    ensures
        strongest(segs) == Some(TestKind::Test) <==> some_segment(segs, TestKind::Test),
        strongest(segs) == Some(TestKind::Build) <==> some_segment(segs, TestKind::Build)
            && !some_segment(segs, TestKind::Test),
        strongest(segs) == Some(TestKind::Lint) <==> some_segment(segs, TestKind::Lint)
            && !some_segment(segs, TestKind::Test) && !some_segment(segs, TestKind::Build),
    decreases segs.len(),
{
    if segs.len() > 0 {
        lemma_strongest(segs.drop_last());
        lemma_some_segment(segs, TestKind::Test);
        lemma_some_segment(segs, TestKind::Build);
        lemma_some_segment(segs, TestKind::Lint);
    }
}

/// What stands before a command in assignments is no matter to its kind, whatever is
/// assigned.
pub proof fn assignments_are_no_matter(name: Seq<char>, value: Seq<char>, tokens: Seq<Seq<char>>)
    requires
        name.len() > 0,
        starts_name(name[0]),
        forall|i: int|
            0 <= i < name.len() ==> is_alnum(#[trigger] name[i]) || name[i] == '_',
    ensures
        tokens_kind(seq![name.push('=') + value] + tokens) == tokens_kind(tokens),
{
    let t = name.push('=') + value;
    assert forall|j: int| 0 <= j < name.len() implies t[j] != '=' by {
        assert(t[j] == name[j]);
    }
    crate::text::lemma_index_or_len_is(t, '=', name.len() as int);
    assert forall|i: int| 0 <= i < name.len() implies is_alnum(#[trigger] t[i]) || t[i]
        == '_' by {
        assert(t[i] == name[i]);
    }
    assert(t[0] == name[0]);
    assert(is_assignment(t));
    assert((seq![t] + tokens).skip(1) =~= tokens);
}

/// Options before a subcommand are no matter to it: the first argument that does not begin
/// with a hyphen is the subcommand, and there is none where all do.
pub proof fn the_first_plain_argument_is_the_subcommand(args: Seq<Seq<char>>)
    ensures
        forall|i: int|
            0 <= i < args.len() && !starts_hyphen(#[trigger] args[i]) && (forall|j: int|
                0 <= j < i ==> starts_hyphen(#[trigger] args[j])) ==> first_word_of(args) == Some(
                args[i],
            ),
        (forall|i: int| 0 <= i < args.len() ==> starts_hyphen(#[trigger] args[i]))
            ==> first_word_of(args) is None,
    decreases args.len(),
{
    if args.len() > 0 {
        let t = args.skip(1);
        the_first_plain_argument_is_the_subcommand(t);
        lemma_hyphen(args[0]);
        assert forall|i: int|
            0 <= i < args.len() && !starts_hyphen(#[trigger] args[i]) && (forall|j: int|
                0 <= j < i ==> starts_hyphen(#[trigger] args[j])) implies first_word_of(args)
            == Some(args[i]) by {
            if i > 0 {
                assert(starts_hyphen(args[0]));
                assert(t[i - 1] == args[i]);
                assert forall|j: int| 0 <= j < i - 1 implies starts_hyphen(#[trigger] t[j]) by {
                    assert(t[j] == args[j + 1]);
                }
            }
        }
        if forall|i: int| 0 <= i < args.len() ==> starts_hyphen(#[trigger] args[i]) {
            assert(starts_hyphen(args[0]));
            assert forall|i: int| 0 <= i < t.len() implies starts_hyphen(#[trigger] t[i]) by {
                assert(t[i] == args[i + 1]);
            }
        }
    }
}

/// Whether a word begins with a hyphen.
pub open spec fn starts_hyphen(w: Seq<char>) -> bool {
    w.len() > 0 && w[0] == '-'
}

proof fn lemma_hyphen(w: Seq<char>)
    ensures
        begins(w, "-"@) <==> starts_hyphen(w),
{
    reveal_strlit("-");
    if w.len() > 0 {
        assert(w.subrange(0, 1) =~= seq![w[0]]);
        assert("-"@ =~= seq!['-']);
        if w[0] == '-' {
            assert(w.subrange(0, 1) == "-"@);
        } else {
            assert(w.subrange(0, 1)[0] != "-"@[0]);
        }
    }
}

/// Whether a subcommand of a tool is known to be of a kind.
pub open spec fn is_known_subcommand(tool: Seq<char>, word: Seq<char>, kind: TestKind) -> bool {
    match kind {
        TestKind::Test => {
            ||| tool == "cargo"@ && seq!["test"@, "t"@, "nextest"@].contains(word)
            ||| tool == "just"@ && seq!["test"@, "t"@, "verify"@].contains(word)
            ||| tool == "go"@ && seq!["test"@].contains(word)
            ||| tool == "dotnet"@ && seq!["test"@].contains(word)
            ||| tool == "make"@ && seq!["test"@].contains(word)
        },
        TestKind::Build => {
            ||| tool == "cargo"@ && seq!["build"@, "b"@, "check"@, "c"@].contains(word)
            ||| tool == "just"@ && seq!["build"@].contains(word)
            ||| tool == "go"@ && seq!["build"@].contains(word)
            ||| tool == "dotnet"@ && seq!["build"@].contains(word)
            ||| tool == "make"@ && seq!["build"@].contains(word)
        },
        TestKind::Lint => {
            ||| tool == "cargo"@ && seq!["clippy"@, "fmt"@].contains(word)
            ||| tool == "just"@ && seq!["check"@, "lint"@, "fmt"@].contains(word)
            ||| tool == "go"@ && seq!["vet"@].contains(word)
            ||| tool == "make"@ && seq!["lint"@].contains(word)
        },
    }
}

/// A tool with subcommands is of the kind of its subcommand, and of none where that is not
/// known; `make` alone builds.
pub proof fn subcommands_have_their_kinds(
    tool: Seq<char>,
    args: Seq<Seq<char>>,
    word: Seq<char>,
    kind: TestKind,
)
    requires
        tool == "cargo"@ || tool == "just"@ || tool == "go"@ || tool == "dotnet"@ || tool
            == "make"@,
    ensures
        first_word_of(args) == Some(word) ==> (segment_kind(tool, args) == Some(kind)
            <==> is_known_subcommand(tool, word, kind)),
        first_word_of(args) is None ==> segment_kind(tool, args) == (if tool == "make"@ {
            Some(TestKind::Build)
        } else {
            None
        }),
{
    lemma_tools();
    lemma_subcommands();
    assert(seq!["test"@, "t"@, "nextest"@].contains(word) <==> word == "test"@ || word == "t"@ || word == "nextest"@) by {
        lemma_listed(seq!["test"@, "t"@, "nextest"@], word);
    }
    assert(seq!["build"@, "b"@, "check"@, "c"@].contains(word) <==> word == "build"@ || word == "b"@ || word == "check"@ || word == "c"@) by {
        lemma_listed(seq!["build"@, "b"@, "check"@, "c"@], word);
    }
    assert(seq!["clippy"@, "fmt"@].contains(word) <==> word == "clippy"@ || word == "fmt"@) by {
        lemma_listed(seq!["clippy"@, "fmt"@], word);
    }
    assert(seq!["test"@, "t"@, "verify"@].contains(word) <==> word == "test"@ || word == "t"@ || word == "verify"@) by {
        lemma_listed(seq!["test"@, "t"@, "verify"@], word);
    }
    assert(seq!["check"@, "lint"@, "fmt"@].contains(word) <==> word == "check"@ || word == "lint"@ || word == "fmt"@) by {
        lemma_listed(seq!["check"@, "lint"@, "fmt"@], word);
    }
    assert(seq!["build"@].contains(word) <==> word == "build"@) by {
        lemma_listed(seq!["build"@], word);
    }
    assert(seq!["test"@].contains(word) <==> word == "test"@) by {
        lemma_listed(seq!["test"@], word);
    }
    assert(seq!["vet"@].contains(word) <==> word == "vet"@) by {
        lemma_listed(seq!["vet"@], word);
    }
    assert(seq!["lint"@].contains(word) <==> word == "lint"@) by {
        lemma_listed(seq!["lint"@], word);
    }
}

/// What a short list holds.
proof fn lemma_listed(list: Seq<Seq<char>>, w: Seq<char>)
    requires
        list.len() <= 4,
    ensures
        list.contains(w) <==> (list.len() > 0 && list[0] == w) || (list.len() > 1 && list[1] == w)
            || (list.len() > 2 && list[2] == w) || (list.len() > 3 && list[3] == w),
{
}

/// What the names of the tools begin with.
proof fn lemma_tools()
    ensures
        "cargo"@.len() == 5 && "cargo"@[0] == 'c' && "cargo"@[1] == 'a',
        "just"@.len() == 4 && "just"@[0] == 'j' && "just"@[1] == 'u',
        "go"@.len() == 2 && "go"@[0] == 'g' && "go"@[1] == 'o',
        "dotnet"@.len() == 6 && "dotnet"@[0] == 'd' && "dotnet"@[1] == 'o',
        "make"@.len() == 4 && "make"@[0] == 'm' && "make"@[1] == 'a',
        "npm"@.len() == 3 && "npm"@[0] == 'n' && "npm"@[1] == 'p',
        "pnpm"@.len() == 4 && "pnpm"@[0] == 'p' && "pnpm"@[1] == 'n',
        "yarn"@.len() == 4 && "yarn"@[0] == 'y' && "yarn"@[1] == 'a',
        "bun"@.len() == 3 && "bun"@[0] == 'b' && "bun"@[1] == 'u',
        "mvn"@.len() == 3 && "mvn"@[0] == 'm' && "mvn"@[1] == 'v',
        "gradle"@.len() == 6 && "gradle"@[0] == 'g' && "gradle"@[1] == 'r',
        "gradlew"@.len() == 7 && "gradlew"@[0] == 'g' && "gradlew"@[1] == 'r',
        "./gradlew"@.len() == 9 && "./gradlew"@[0] == '.' && "./gradlew"@[1] == '/',
{
    reveal_strlit("cargo");
    reveal_strlit("just");
    reveal_strlit("go");
    reveal_strlit("dotnet");
    reveal_strlit("make");
    reveal_strlit("npm");
    reveal_strlit("pnpm");
    reveal_strlit("yarn");
    reveal_strlit("bun");
    reveal_strlit("mvn");
    reveal_strlit("gradle");
    reveal_strlit("gradlew");
    reveal_strlit("./gradlew");
}

/// What the known subcommands begin with.
proof fn lemma_subcommands()
    ensures
        "test"@.len() == 4 && "test"@[0] == 't',
        "t"@.len() == 1 && "t"@[0] == 't',
        "nextest"@.len() == 7 && "nextest"@[0] == 'n',
        "build"@.len() == 5 && "build"@[0] == 'b',
        "b"@.len() == 1 && "b"@[0] == 'b',
        "check"@.len() == 5 && "check"@[0] == 'c',
        "c"@.len() == 1 && "c"@[0] == 'c',
        "clippy"@.len() == 6 && "clippy"@[0] == 'c',
        "fmt"@.len() == 3 && "fmt"@[0] == 'f',
        "verify"@.len() == 6 && "verify"@[0] == 'v',
        "lint"@.len() == 4 && "lint"@[0] == 'l',
        "vet"@.len() == 3 && "vet"@[0] == 'v',
{
    reveal_strlit("test");
    reveal_strlit("t");
    reveal_strlit("nextest");
    reveal_strlit("build");
    reveal_strlit("b");
    reveal_strlit("check");
    reveal_strlit("c");
    reveal_strlit("clippy");
    reveal_strlit("fmt");
    reveal_strlit("verify");
    reveal_strlit("lint");
    reveal_strlit("vet");
}

/// The commands that are of a kind by their name alone.
pub open spec fn known_tools() -> Seq<(Seq<char>, TestKind)> {
    seq![
        ("pytest"@, TestKind::Test),
        ("py.test"@, TestKind::Test),
        ("tox"@, TestKind::Test),
        ("nose2"@, TestKind::Test),
        ("jest"@, TestKind::Test),
        ("vitest"@, TestKind::Test),
        ("mocha"@, TestKind::Test),
        ("ava"@, TestKind::Test),
        ("rspec"@, TestKind::Test),
        ("phpunit"@, TestKind::Test),
        ("tsc"@, TestKind::Build),
        ("eslint"@, TestKind::Lint),
        ("ruff"@, TestKind::Lint),
        ("flake8"@, TestKind::Lint),
        ("pylint"@, TestKind::Lint),
        ("golangci-lint"@, TestKind::Lint),
        ("rubocop"@, TestKind::Lint),
    ]
}

/// Whether a leading word is that of a tool whose arguments tell its kind.
pub open spec fn goes_by_arguments(leading: Seq<char>) -> bool {
    seq![
        "cargo"@,
        "just"@,
        "go"@,
        "dotnet"@,
        "make"@,
        "npm"@,
        "pnpm"@,
        "yarn"@,
        "bun"@,
        "mvn"@,
        "gradle"@,
        "gradlew"@,
        "./gradlew"@,
    ].contains(leading)
}

/// A command that does not go by its arguments is of the kind that it is known for, and of
/// none where it is not known, whatever its arguments are.
pub proof fn other_commands_go_by_their_name(
    leading: Seq<char>,
    args: Seq<Seq<char>>,
    kind: TestKind,
)
    requires
        !goes_by_arguments(leading),
    ensures
        segment_kind(leading, args) == Some(kind) <==> known_tools().contains((leading, kind)),
{
    lemma_runners_apart();
    let tools = seq![
        "cargo"@,
        "just"@,
        "go"@,
        "dotnet"@,
        "make"@,
        "npm"@,
        "pnpm"@,
        "yarn"@,
        "bun"@,
        "mvn"@,
        "gradle"@,
        "gradlew"@,
        "./gradlew"@,
    ];
    assert(tools[0] == "cargo"@);
    assert(tools[1] == "just"@);
    assert(tools[2] == "go"@);
    assert(tools[3] == "dotnet"@);
    assert(tools[4] == "make"@);
    assert(tools[5] == "npm"@);
    assert(tools[6] == "pnpm"@);
    assert(tools[7] == "yarn"@);
    assert(tools[8] == "bun"@);
    assert(tools[9] == "mvn"@);
    assert(tools[10] == "gradle"@);
    assert(tools[11] == "gradlew"@);
    assert(tools[12] == "./gradlew"@);
    let all = known_tools();
    assert(all[0] == ("pytest"@, TestKind::Test));
    assert(all[1] == ("py.test"@, TestKind::Test));
    assert(all[2] == ("tox"@, TestKind::Test));
    assert(all[3] == ("nose2"@, TestKind::Test));
    assert(all[4] == ("jest"@, TestKind::Test));
    assert(all[5] == ("vitest"@, TestKind::Test));
    assert(all[6] == ("mocha"@, TestKind::Test));
    assert(all[7] == ("ava"@, TestKind::Test));
    assert(all[8] == ("rspec"@, TestKind::Test));
    assert(all[9] == ("phpunit"@, TestKind::Test));
    assert(all[10] == ("tsc"@, TestKind::Build));
    assert(all[11] == ("eslint"@, TestKind::Lint));
    assert(all[12] == ("ruff"@, TestKind::Lint));
    assert(all[13] == ("flake8"@, TestKind::Lint));
    assert(all[14] == ("pylint"@, TestKind::Lint));
    assert(all[15] == ("golangci-lint"@, TestKind::Lint));
    assert(all[16] == ("rubocop"@, TestKind::Lint));
    if all.contains((leading, kind)) {
        let i = all.index_of((leading, kind));
        assert(all[i] == (leading, kind));
    }
}

/// What the names of the runners and linters begin with.
proof fn lemma_runners_apart()
    ensures
        "pytest"@.len() == 6 && "pytest"@[0] == 'p' && "pytest"@[1] == 'y' && "pytest"@[2] == 't',
        "py.test"@.len() == 7 && "py.test"@[0] == 'p' && "py.test"@[1] == 'y' && "py.test"@[2] == '.',
        "tox"@.len() == 3 && "tox"@[0] == 't' && "tox"@[1] == 'o' && "tox"@[2] == 'x',
        "nose2"@.len() == 5 && "nose2"@[0] == 'n' && "nose2"@[1] == 'o' && "nose2"@[2] == 's',
        "jest"@.len() == 4 && "jest"@[0] == 'j' && "jest"@[1] == 'e' && "jest"@[2] == 's',
        "vitest"@.len() == 6 && "vitest"@[0] == 'v' && "vitest"@[1] == 'i' && "vitest"@[2] == 't',
        "mocha"@.len() == 5 && "mocha"@[0] == 'm' && "mocha"@[1] == 'o' && "mocha"@[2] == 'c',
        "ava"@.len() == 3 && "ava"@[0] == 'a' && "ava"@[1] == 'v' && "ava"@[2] == 'a',
        "rspec"@.len() == 5 && "rspec"@[0] == 'r' && "rspec"@[1] == 's' && "rspec"@[2] == 'p',
        "phpunit"@.len() == 7 && "phpunit"@[0] == 'p' && "phpunit"@[1] == 'h' && "phpunit"@[2] == 'p',
        "tsc"@.len() == 3 && "tsc"@[0] == 't' && "tsc"@[1] == 's' && "tsc"@[2] == 'c',
        "eslint"@.len() == 6 && "eslint"@[0] == 'e' && "eslint"@[1] == 's' && "eslint"@[2] == 'l',
        "ruff"@.len() == 4 && "ruff"@[0] == 'r' && "ruff"@[1] == 'u' && "ruff"@[2] == 'f',
        "flake8"@.len() == 6 && "flake8"@[0] == 'f' && "flake8"@[1] == 'l' && "flake8"@[2] == 'a',
        "pylint"@.len() == 6 && "pylint"@[0] == 'p' && "pylint"@[1] == 'y' && "pylint"@[2] == 'l',
        "golangci-lint"@.len() == 13 && "golangci-lint"@[0] == 'g' && "golangci-lint"@[1] == 'o' && "golangci-lint"@[2] == 'l',
        "rubocop"@.len() == 7 && "rubocop"@[0] == 'r' && "rubocop"@[1] == 'u' && "rubocop"@[2] == 'b',
{
    reveal_strlit("pytest");
    reveal_strlit("py.test");
    reveal_strlit("tox");
    reveal_strlit("nose2");
    reveal_strlit("jest");
    reveal_strlit("vitest");
    reveal_strlit("mocha");
    reveal_strlit("ava");
    reveal_strlit("rspec");
    reveal_strlit("phpunit");
    reveal_strlit("tsc");
    reveal_strlit("eslint");
    reveal_strlit("ruff");
    reveal_strlit("flake8");
    reveal_strlit("pylint");
    reveal_strlit("golangci-lint");
    reveal_strlit("rubocop");
}

/// A package manager runs the script that its first argument names, or its second where the
/// first is `run`.
pub proof fn package_managers_go_by_their_script(
    leading: Seq<char>,
    script: Seq<char>,
    rest: Seq<Seq<char>>,
)
    requires
        leading == "npm"@ || leading == "pnpm"@ || leading == "yarn"@ || leading == "bun"@,
        script != "run"@,
    ensures
        segment_kind(leading, seq!["run"@, script] + rest) == segment_kind(
            leading,
            seq![script] + rest,
        ),
        segment_kind(leading, seq![script] + rest) == (if script == "test"@ || script == "t"@ {
            Some(TestKind::Test)
        } else if script == "build"@ {
            Some(TestKind::Build)
        } else if script == "lint"@ {
            Some(TestKind::Lint)
        } else {
            None
        }),
        segment_kind(leading, Seq::empty()) is None,
{
    lemma_tools();
    lemma_subcommands();
    let a = seq!["run"@, script] + rest;
    let b = seq![script] + rest;
    assert(a[0] == "run"@ && a[1] == script && b[0] == script);
}

/// A build tool of the Java world tests where one of its goals is `test`, and else builds
/// where one of them is a build goal, wherever it stands.
pub proof fn goals_count_wherever_they_stand(leading: Seq<char>, args: Seq<Seq<char>>)
    requires
        leading == "mvn"@ || leading == "gradle"@ || leading == "gradlew"@ || leading == "./gradlew"@,
    ensures
        segment_kind(leading, args) == Some(TestKind::Test) <==> exists|i: int|
            0 <= i < args.len() && #[trigger] args[i] == "test"@,
        segment_kind(leading, args) == Some(TestKind::Build) <==> (exists|i: int|
            0 <= i < args.len() && build_goals().contains(#[trigger] args[i])) && !(exists|i: int|
            0 <= i < args.len() && #[trigger] args[i] == "test"@),
        segment_kind(leading, args) != Some(TestKind::Lint),
{
    lemma_tools();
    let g = build_goals();
    assert(g[0] == "build"@ && g[1] == "package"@ && g[2] == "install"@ && g[3] == "compile"@
        && g[4] == "assemble"@);
    if exists|i: int| 0 <= i < args.len() && #[trigger] args[i] == "test"@ {
        let i = choose|i: int| 0 <= i < args.len() && #[trigger] args[i] == "test"@;
        assert(args.contains("test"@));
    }
    if args.contains("test"@) {
        let i = args.index_of("test"@);
        assert(args[i] == "test"@);
    }
    if exists|i: int| 0 <= i < args.len() && build_goals().contains(#[trigger] args[i]) {
        let i = choose|i: int| 0 <= i < args.len() && build_goals().contains(#[trigger] args[i]);
        let k = g.index_of(args[i]);
        assert(g[k] == args[i]);
        assert(is_jvm_build(args[i]));
    }
    if exists|i: int| 0 <= i < args.len() && is_jvm_build(#[trigger] args[i]) {
        let i = choose|i: int| 0 <= i < args.len() && is_jvm_build(#[trigger] args[i]);
        assert(build_goals().contains(args[i]));
    }
}

/// The goals that build.
pub open spec fn build_goals() -> Seq<Seq<char>> {
    seq!["build"@, "package"@, "install"@, "compile"@, "assemble"@]
}

} // verus!
