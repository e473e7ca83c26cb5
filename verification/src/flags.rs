//! Curated flagging of destructive shell commands.
//!
//! A flag says that the *class* of a recorded command is destructive. It makes
//! no claim about intent, outcome or whether any damage occurred. Matching is
//! best-effort on the recorded command text: quoting, heredocs, aliases and
//! what runs inside a script are not seen.
use vstd::prelude::*;
use vstd::seq_lib::lemma_multiset_commutative;

use crate::count::{
    how_many, lemma_how_many, lemma_how_many_alike, lemma_how_many_append, lemma_how_many_some,
};
use crate::shell::{
    a_semicolon_parts_commands, lemma_first_join, segment_views, segments_of, split_segments,
    Segment, SegmentV, Sep,
};
use crate::text::{begins, chars_of, same, starts_with, strip_prefix, views};

verus! {

/// Severity of a raised [`Flag`].
#[derive(Debug, Clone, Copy, PartialEq, Eq, Structural)]
pub enum FlagSeverity {
    /// Irrecoverable or system-scope destruction (`rm -rf /`, `dd of=/dev/sda`).
    Critical,
    /// Destructive but scoped or recoverable, or otherwise risky (force-push).
    Warning,
}

impl FlagSeverity {
    /// The sort key of a severity.
    pub open spec fn spec_rank(self) -> u8 {
        match self {
            FlagSeverity::Critical => 0,
            FlagSeverity::Warning => 1,
        }
    }

    /// Sort key: critical rows sort before warning rows.
    pub fn rank(self) -> (r: u8)
        ensures
            r == self.spec_rank(),
    {
        match self {
            FlagSeverity::Critical => 0,
            FlagSeverity::Warning => 1,
        }
    }

    /// The label of a severity.
    pub open spec fn spec_label(self) -> Seq<char> {
        match self {
            FlagSeverity::Critical => "critical"@,
            FlagSeverity::Warning => "warning"@,
        }
    }

    /// Lower-case label for rendering.
    pub fn label(self) -> (r: &'static str)
        ensures
            r@ == self.spec_label(),
    {
        match self {
            FlagSeverity::Critical => "critical",
            FlagSeverity::Warning => "warning",
        }
    }
}

/// One destructive-class match over a recorded command.
#[derive(Debug, Clone, PartialEq)]
pub struct Flag {
    /// How severe the command class is.
    pub severity: FlagSeverity,
    /// Stable pattern id (such as `rm-rf-home-root`).
    pub pattern: &'static str,
    /// Description of the command class, never of intent.
    pub rationale: &'static str,
    /// The exact recorded command text that this flag was raised for.
    pub command: String,
}

/// The contents of a [`Flag`].
pub ghost struct FlagV {
    pub severity: FlagSeverity,
    pub pattern: Seq<char>,
    pub rationale: Seq<char>,
    pub command: Seq<char>,
}

impl View for Flag {
    type V = FlagV;

    open spec fn view(&self) -> FlagV {
        FlagV {
            severity: self.severity,
            pattern: self.pattern@,
            rationale: self.rationale@,
            command: self.command@,
        }
    }
}

/// The contents of a list of flags.
pub open spec fn flag_views(v: Seq<Flag>) -> Seq<FlagV> {
    v.map_values(|f: Flag| f@)
}

// ---------------------------------------------------------------------------
// The classes
// ---------------------------------------------------------------------------

/// A bundle of short options, behind a single dash, that has `letter` in it.
pub open spec fn short_flag(token: Seq<char>, letter: char) -> bool {
    &&& token.len() > 0 && token[0] == '-'
    &&& !(token.len() > 1 && token[1] == '-')
    &&& exists|i: int| 1 <= i < token.len() && token[i] == letter
}

/// A token that asks for recursion: `--recursive`, or `r` or `R` in a bundle.
pub open spec fn asks_recursive(token: Seq<char>) -> bool {
    token == "--recursive"@ || short_flag(token, 'r') || short_flag(token, 'R')
}

/// A token that asks for force: exactly `--force`, or `f` in a bundle.
pub open spec fn asks_force(token: Seq<char>) -> bool {
    token == "--force"@ || short_flag(token, 'f')
}

/// A home or root path, in one of the forms that are flagged.
pub open spec fn catastrophic_target(token: Seq<char>) -> bool {
    token == "/"@ || token == "~"@ || token == "~/"@ || token == "~/*"@ || token == "$HOME"@
        || token == "${HOME}"@ || token == "$HOME/"@ || token == "/*"@
}

/// An output argument of `dd` that names a device.
pub open spec fn writes_device(token: Seq<char>) -> bool {
    begins(token, "of="@) && begins(token.skip("of="@.len() as int), "/dev/"@)
}

/// An all-permissive mode of `chmod`.
pub open spec fn dangerous_mode(token: Seq<char>) -> bool {
    token == "777"@ || token == "a+rwx"@
}

/// The arguments behind the first `sub`, if it is among them.
pub open spec fn behind(args: Seq<Seq<char>>, sub: Seq<char>) -> Option<Seq<Seq<char>>>
    decreases args.len(),
{
    if args.len() == 0 {
        None
    } else if args[0] == sub {
        Some(args.skip(1))
    } else {
        behind(args.skip(1), sub)
    }
}

/// Whether some argument has a property.
pub open spec fn any_arg(args: Seq<Seq<char>>, p: spec_fn(Seq<char>) -> bool) -> bool {
    exists|i: int| 0 <= i < args.len() && p(#[trigger] args[i])
}

/// `rm` with recursion and force on a home or root path.
pub open spec fn is_rm_rf(leading: Seq<char>, args: Seq<Seq<char>>) -> bool {
    &&& leading == "rm"@
    &&& any_arg(args, |t: Seq<char>| asks_recursive(t))
    &&& any_arg(args, |t: Seq<char>| asks_force(t))
    &&& any_arg(args, |t: Seq<char>| catastrophic_target(t))
}

/// `dd` writing to a device.
pub open spec fn is_dd_device(leading: Seq<char>, args: Seq<Seq<char>>) -> bool {
    leading == "dd"@ && any_arg(args, |t: Seq<char>| writes_device(t))
}

/// `mkfs`, or `mkfs.` and a file system, on a device.
pub open spec fn is_mkfs(leading: Seq<char>, args: Seq<Seq<char>>) -> bool {
    (leading == "mkfs"@ || begins(leading, "mkfs."@)) && any_arg(
        args,
        |t: Seq<char>| begins(t, "/dev/"@),
    )
}

/// `git push` with force.
pub open spec fn is_force_push(leading: Seq<char>, args: Seq<Seq<char>>) -> bool {
    leading == "git"@ && behind(args, "push"@) is Some && any_arg(
        behind(args, "push"@)->0,
        |t: Seq<char>| asks_force(t),
    )
}

/// `git clean` with force, on directories or ignored files.
pub open spec fn is_git_clean(leading: Seq<char>, args: Seq<Seq<char>>) -> bool {
    leading == "git"@ && behind(args, "clean"@) is Some && any_arg(
        behind(args, "clean"@)->0,
        |t: Seq<char>| asks_force(t),
    ) && any_arg(
        behind(args, "clean"@)->0,
        |t: Seq<char>| short_flag(t, 'd') || short_flag(t, 'x'),
    )
}

/// `git reset --hard`.
pub open spec fn is_git_reset(leading: Seq<char>, args: Seq<Seq<char>>) -> bool {
    leading == "git"@ && behind(args, "reset"@) is Some && any_arg(
        behind(args, "reset"@)->0,
        |t: Seq<char>| t == "--hard"@,
    )
}

/// `chmod` with recursion and an all-permissive mode.
pub open spec fn is_chmod_777(leading: Seq<char>, args: Seq<Seq<char>>) -> bool {
    &&& leading == "chmod"@
    &&& any_arg(args, |t: Seq<char>| t == "--recursive"@ || short_flag(t, 'R'))
    &&& any_arg(args, |t: Seq<char>| dangerous_mode(t))
}

/// `curl` or `wget`.
pub open spec fn is_fetcher(word: Seq<char>) -> bool {
    word == "curl"@ || word == "wget"@
}

/// A shell that a piped script would run in.
pub open spec fn is_shell(word: Seq<char>) -> bool {
    word == "sh"@ || word == "bash"@ || word == "zsh"@
}

/// A fetcher, and behind a single pipe a shell.
pub open spec fn is_fetch_pipe(a: SegmentV, b: SegmentV) -> bool {
    &&& b.join == Some(Sep::Pipe)
    &&& a.tokens.len() > 0 && is_fetcher(a.tokens[0])
    &&& b.tokens.len() > 0 && is_shell(b.tokens[0])
}

// ---------------------------------------------------------------------------
// The flags of a command
// ---------------------------------------------------------------------------

/// A list of one flag where `hit` holds, else an empty list.
#[verifier::opaque]
pub open spec fn raised(
    hit: bool,
    severity: FlagSeverity,
    pattern: Seq<char>,
    rationale: Seq<char>,
    command: Seq<char>,
) -> Seq<FlagV> {
    if hit {
        seq![FlagV { severity, pattern, rationale, command }]
    } else {
        Seq::<FlagV>::empty()
    }
}

/// The flags of one part of a command, which hang on its leading word.
pub open spec fn segment_flags(tokens: Seq<Seq<char>>, command: Seq<char>) -> Seq<FlagV> {
    if tokens.len() == 0 {
        Seq::<FlagV>::empty()
    } else {
        let leading = tokens[0];
        let args = tokens.skip(1);
        raised(
            is_rm_rf(leading, args),
            FlagSeverity::Critical,
            "rm-rf-home-root"@,
            "recursive force-remove targeting a home or root path"@,
            command,
        ) + raised(
            is_dd_device(leading, args),
            FlagSeverity::Critical,
            "dd-to-device"@,
            "dd writing directly to a block device"@,
            command,
        ) + raised(
            is_mkfs(leading, args),
            FlagSeverity::Critical,
            "mkfs-device"@,
            "filesystem format on a device"@,
            command,
        ) + raised(
            is_force_push(leading, args),
            FlagSeverity::Warning,
            "git-force-push"@,
            "force-push rewrites remote history"@,
            command,
        ) + raised(
            is_git_clean(leading, args),
            FlagSeverity::Warning,
            "git-clean-force"@,
            "git clean deletes untracked files"@,
            command,
        ) + raised(
            is_git_reset(leading, args),
            FlagSeverity::Warning,
            "git-reset-hard"@,
            "git reset --hard discards uncommitted changes"@,
            command,
        ) + raised(
            is_chmod_777(leading, args),
            FlagSeverity::Warning,
            "chmod-recursive-777"@,
            "recursive chmod 777 removes permission boundaries"@,
            command,
        )
    }
}

/// The flags of the parts, one part after the other.
pub open spec fn all_segment_flags(segs: Seq<SegmentV>, command: Seq<char>) -> Seq<FlagV>
    decreases segs.len(),
{
    if segs.len() == 0 {
        Seq::<FlagV>::empty()
    } else {
        all_segment_flags(segs.drop_last(), command) + segment_flags(segs.last().tokens, command)
    }
}

/// The flags of the pairs of neighbouring parts.
pub open spec fn pipe_flags(segs: Seq<SegmentV>, command: Seq<char>) -> Seq<FlagV>
    decreases segs.len(),
{
    if segs.len() <= 1 {
        Seq::<FlagV>::empty()
    } else {
        pipe_flags(segs.drop_last(), command) + raised(
            is_fetch_pipe(segs[segs.len() - 2], segs[segs.len() - 1]),
            FlagSeverity::Warning,
            "curl-pipe-shell"@,
            "remote script piped directly into a shell"@,
            command,
        )
    }
}

/// The flags of a command: those of its parts in order, then those of its
/// pipes.
pub open spec fn flags_of(command: Seq<char>) -> Seq<FlagV> {
    let segs = segments_of(command);
    all_segment_flags(segs, command) + pipe_flags(segs, command)
}

// ---------------------------------------------------------------------------
// The matcher
// ---------------------------------------------------------------------------

fn short_flag_has(token: &str, letter: char) -> (r: bool)
    ensures
        r == short_flag(token@, letter),
{
    let v = chars_of(token);
    let n: usize = v.len();
    if n == 0 || v[0] != '-' || (n > 1 && v[1] == '-') {
        return false;
    }
    for i in 1..n
        invariant
            n == v@.len(),
            v@ == token@,
            n > 0 && v@[0] == '-',
            !(n > 1 && v@[1] == '-'),
            forall|j: int| 1 <= j < i ==> v@[j] != letter,
    {
        if v[i] == letter {
            return true;
        }
    }
    false
}

/// The properties of a token that the classes ask for.
#[derive(Clone, Copy, PartialEq, Eq, Structural)]
enum Want {
    Recursive,
    Force,
    Target,
    DeviceOutput,
    Device,
    DirsOrIgnored,
    Hard,
    UpperRecursive,
    Mode,
}

impl Want {
    spec fn holds(self, t: Seq<char>) -> bool {
        match self {
            Want::Recursive => asks_recursive(t),
            Want::Force => asks_force(t),
            Want::Target => catastrophic_target(t),
            Want::DeviceOutput => writes_device(t),
            Want::Device => begins(t, "/dev/"@),
            Want::DirsOrIgnored => short_flag(t, 'd') || short_flag(t, 'x'),
            Want::Hard => t == "--hard"@,
            Want::UpperRecursive => t == "--recursive"@ || short_flag(t, 'R'),
            Want::Mode => dangerous_mode(t),
        }
    }

    fn test(&self, t: &str) -> (r: bool)
        ensures
            r == self.holds(t@),
    {
        match self {
            Want::Recursive => same(t, "--recursive") || short_flag_has(t, 'r') || short_flag_has(
                t,
                'R',
            ),
            Want::Force => same(t, "--force") || short_flag_has(t, 'f'),
            Want::Target => same(t, "/") || same(t, "~") || same(t, "~/") || same(t, "~/*") || same(
                t,
                "$HOME",
            ) || same(t, "${HOME}") || same(t, "$HOME/") || same(t, "/*"),
            Want::DeviceOutput => match strip_prefix(t, "of=") {
                Some(rest) => starts_with(rest.as_str(), "/dev/"),
                None => false,
            },
            Want::Device => starts_with(t, "/dev/"),
            Want::DirsOrIgnored => short_flag_has(t, 'd') || short_flag_has(t, 'x'),
            Want::Hard => same(t, "--hard"),
            Want::UpperRecursive => same(t, "--recursive") || short_flag_has(t, 'R'),
            Want::Mode => same(t, "777") || same(t, "a+rwx"),
        }
    }
}

/// Whether some token from `from` on has a property.
fn any_token(tokens: &Vec<String>, from: usize, want: Want) -> (r: bool)
    requires
        from <= tokens@.len(),
    ensures
        r == any_arg(views(tokens@).skip(from as int), |t: Seq<char>| want.holds(t)),
{
    let ghost args = views(tokens@).skip(from as int);
    for i in from..tokens.len()
        invariant
            args == views(tokens@).skip(from as int),
            from <= tokens@.len(),
            forall|j: int| 0 <= j < i - from ==> !want.holds(#[trigger] args[j]),
    {
        proof {
            assert(args[i - from] == tokens@[i as int]@);
        }
        if want.test(tokens[i].as_str()) {
            return true;
        }
    }
    false
}

/// The position behind the first `sub` from `from` on.
fn position_behind(tokens: &Vec<String>, from: usize, sub: &str) -> (r: Option<usize>)
    requires
        from <= tokens@.len(),
    ensures
        match r {
            Some(k) => k <= tokens@.len() && behind(views(tokens@).skip(from as int), sub@) == Some(
                views(tokens@).skip(k as int),
            ),
            None => behind(views(tokens@).skip(from as int), sub@) is None,
        },
{
    let mut i: usize = from;
    let ghost all = views(tokens@);
    while i < tokens.len()
        invariant
            from <= i <= tokens@.len(),
            all == views(tokens@),
            behind(all.skip(from as int), sub@) == behind(all.skip(i as int), sub@),
        decreases tokens@.len() - i,
    {
        proof {
            assert(all.skip(i as int)[0] == tokens@[i as int]@);
            assert(all.skip(i as int).skip(1) =~= all.skip(i + 1));
        }
        if same(tokens[i].as_str(), sub) {
            return Some(i + 1);
        }
        i = i + 1;
    }
    None
}

fn raise(
    flags: &mut Vec<Flag>,
    hit: bool,
    severity: FlagSeverity,
    pattern: &'static str,
    rationale: &'static str,
    command: &str,
)
    ensures
        flag_views(final(flags)@) == flag_views(old(flags)@) + raised(
            hit,
            severity,
            pattern@,
            rationale@,
            command@,
        ),
{
    proof {
        reveal(raised);
    }
    if hit {
        flags.push(Flag { severity, pattern, rationale, command: command.to_owned() });
    }
    proof {
        assert(flag_views(flags@) =~= flag_views(old(flags)@) + raised(
            hit,
            severity,
            pattern@,
            rationale@,
            command@,
        ));
    }
}

fn match_rm(tokens: &Vec<String>) -> (r: bool)
    requires
        tokens@.len() > 0,
    ensures
        r == is_rm_rf(views(tokens@)[0], views(tokens@).skip(1)),
{
    same(tokens[0].as_str(), "rm") && any_token(tokens, 1, Want::Recursive) && any_token(
        tokens,
        1,
        Want::Force,
    ) && any_token(tokens, 1, Want::Target)
}

fn match_dd(tokens: &Vec<String>) -> (r: bool)
    requires
        tokens@.len() > 0,
    ensures
        r == is_dd_device(views(tokens@)[0], views(tokens@).skip(1)),
{
    same(tokens[0].as_str(), "dd") && any_token(tokens, 1, Want::DeviceOutput)
}

fn match_mkfs(tokens: &Vec<String>) -> (r: bool)
    requires
        tokens@.len() > 0,
    ensures
        r == is_mkfs(views(tokens@)[0], views(tokens@).skip(1)),
{
    (same(tokens[0].as_str(), "mkfs") || starts_with(tokens[0].as_str(), "mkfs.")) && any_token(
        tokens,
        1,
        Want::Device,
    )
}

fn match_git(tokens: &Vec<String>, command: &str, flags: &mut Vec<Flag>)
    requires
        tokens@.len() > 0,
    ensures
        flag_views(final(flags)@) == flag_views(old(flags)@) + raised(
            is_force_push(views(tokens@)[0], views(tokens@).skip(1)),
            FlagSeverity::Warning,
            "git-force-push"@,
            "force-push rewrites remote history"@,
            command@,
        ) + raised(
            is_git_clean(views(tokens@)[0], views(tokens@).skip(1)),
            FlagSeverity::Warning,
            "git-clean-force"@,
            "git clean deletes untracked files"@,
            command@,
        ) + raised(
            is_git_reset(views(tokens@)[0], views(tokens@).skip(1)),
            FlagSeverity::Warning,
            "git-reset-hard"@,
            "git reset --hard discards uncommitted changes"@,
            command@,
        ),
{
    let git = same(tokens[0].as_str(), "git");
    let push = git && match position_behind(tokens, 1, "push") {
        Some(k) => any_token(tokens, k, Want::Force),
        None => false,
    };
    raise(
        flags,
        push,
        FlagSeverity::Warning,
        "git-force-push",
        "force-push rewrites remote history",
        command,
    );
    let clean = git && match position_behind(tokens, 1, "clean") {
        Some(k) => any_token(tokens, k, Want::Force) && any_token(tokens, k, Want::DirsOrIgnored),
        None => false,
    };
    raise(
        flags,
        clean,
        FlagSeverity::Warning,
        "git-clean-force",
        "git clean deletes untracked files",
        command,
    );
    let reset = git && match position_behind(tokens, 1, "reset") {
        Some(k) => any_token(tokens, k, Want::Hard),
        None => false,
    };
    raise(
        flags,
        reset,
        FlagSeverity::Warning,
        "git-reset-hard",
        "git reset --hard discards uncommitted changes",
        command,
    );
}

fn match_chmod(tokens: &Vec<String>) -> (r: bool)
    requires
        tokens@.len() > 0,
    ensures
        r == is_chmod_777(views(tokens@)[0], views(tokens@).skip(1)),
{
    same(tokens[0].as_str(), "chmod") && any_token(tokens, 1, Want::UpperRecursive) && any_token(
        tokens,
        1,
        Want::Mode,
    )
}

fn match_curl_pipe(segments: &Vec<Segment>, command: &str, flags: &mut Vec<Flag>)
    ensures
        flag_views(final(flags)@) == flag_views(old(flags)@) + pipe_flags(
            segment_views(segments@),
            command@,
        ),
{
    let ghost segs = segment_views(segments@);
    let ghost f0 = flag_views(flags@);
    let mut i: usize = 1;
    proof {
        if segs.len() >= 1 {
            assert(pipe_flags(segs.take(1), command@) =~= Seq::<FlagV>::empty());
            assert(f0 + pipe_flags(segs.take(1), command@) =~= f0);
        } else {
            assert(f0 + pipe_flags(segs, command@) =~= f0);
        }
    }
    while i < segments.len()
        invariant
            segs == segment_views(segments@),
            1 <= i,
            segs.len() >= 1 ==> i <= segs.len() && flag_views(flags@) == f0 + pipe_flags(
                segs.take(i as int),
                command@,
            ),
            segs.len() == 0 ==> flag_views(flags@) == f0,
        decreases segments@.len() - i,
    {
        let a = &segments[i - 1];
        let b = &segments[i];
        proof {
            assert(segs[i - 1] == a@);
            assert(segs[i as int] == b@);
            let t = segs.take(i + 1);
            assert(t.drop_last() =~= segs.take(i as int));
            assert(t[t.len() - 2] == a@ && t[t.len() - 1] == b@);
        }
        let piped = match b.join {
            Some(Sep::Pipe) => true,
            _ => false,
        };
        let from_fetcher = a.tokens.len() > 0 && (same(a.tokens[0].as_str(), "curl") || same(
            a.tokens[0].as_str(),
            "wget",
        ));
        let into_shell = b.tokens.len() > 0 && (same(b.tokens[0].as_str(), "sh") || same(
            b.tokens[0].as_str(),
            "bash",
        ) || same(b.tokens[0].as_str(), "zsh"));
        let ghost before = flag_views(flags@);
        raise(
            flags,
            piped && from_fetcher && into_shell,
            FlagSeverity::Warning,
            "curl-pipe-shell",
            "remote script piped directly into a shell",
            command,
        );
        proof {
            assert(flag_views(flags@) =~= f0 + pipe_flags(segs.take(i + 1), command@));
        }
        i = i + 1;
    }
    proof {
        if segs.len() >= 1 {
            assert(segs.take(segs.len() as int) =~= segs);
        }
    }
}

fn match_segment(tokens: &Vec<String>, command: &str, flags: &mut Vec<Flag>)
    ensures
        flag_views(final(flags)@) == flag_views(old(flags)@) + segment_flags(
            views(tokens@),
            command@,
        ),
{
    let ghost f0 = flag_views(flags@);
    if tokens.len() == 0 {
        proof {
            assert(f0 + segment_flags(views(tokens@), command@) =~= f0);
        }
        return;
    }
    raise(
        flags,
        match_rm(tokens),
        FlagSeverity::Critical,
        "rm-rf-home-root",
        "recursive force-remove targeting a home or root path",
        command,
    );
    raise(
        flags,
        match_dd(tokens),
        FlagSeverity::Critical,
        "dd-to-device",
        "dd writing directly to a block device",
        command,
    );
    raise(
        flags,
        match_mkfs(tokens),
        FlagSeverity::Critical,
        "mkfs-device",
        "filesystem format on a device",
        command,
    );
    match_git(tokens, command, flags);
    raise(
        flags,
        match_chmod(tokens),
        FlagSeverity::Warning,
        "chmod-recursive-777",
        "recursive chmod 777 removes permission boundaries",
        command,
    );
    proof {
        let leading = views(tokens@)[0];
        let args = views(tokens@).skip(1);
        let critical = FlagSeverity::Critical;
        let warning = FlagSeverity::Warning;
        let a = raised(
            is_rm_rf(leading, args),
            critical,
            "rm-rf-home-root"@,
            "recursive force-remove targeting a home or root path"@,
            command@,
        );
        let b = raised(
            is_dd_device(leading, args),
            critical,
            "dd-to-device"@,
            "dd writing directly to a block device"@,
            command@,
        );
        let c = raised(
            is_mkfs(leading, args),
            critical,
            "mkfs-device"@,
            "filesystem format on a device"@,
            command@,
        );
        let d = raised(
            is_force_push(leading, args),
            warning,
            "git-force-push"@,
            "force-push rewrites remote history"@,
            command@,
        );
        let e = raised(
            is_git_clean(leading, args),
            warning,
            "git-clean-force"@,
            "git clean deletes untracked files"@,
            command@,
        );
        let f = raised(
            is_git_reset(leading, args),
            warning,
            "git-reset-hard"@,
            "git reset --hard discards uncommitted changes"@,
            command@,
        );
        let g = raised(
            is_chmod_777(leading, args),
            warning,
            "chmod-recursive-777"@,
            "recursive chmod 777 removes permission boundaries"@,
            command@,
        );
        lemma_append_all(f0, a, b, c, d, e, f, g);
    }
}

proof fn lemma_append_all<A>(
    f0: Seq<A>,
    a: Seq<A>,
    b: Seq<A>,
    c: Seq<A>,
    d: Seq<A>,
    e: Seq<A>,
    f: Seq<A>,
    g: Seq<A>,
)
    ensures
        f0 + a + b + c + d + e + f + g == f0 + (a + b + c + d + e + f + g),
{
    assert(f0 + a + b =~= f0 + (a + b));
    assert(f0 + (a + b) + c =~= f0 + (a + b + c));
    assert(f0 + (a + b + c) + d =~= f0 + (a + b + c + d));
    assert(f0 + (a + b + c + d) + e =~= f0 + (a + b + c + d + e));
    assert(f0 + (a + b + c + d + e) + f =~= f0 + (a + b + c + d + e + f));
    assert(f0 + (a + b + c + d + e + f) + g =~= f0 + (a + b + c + d + e + f + g));
}

/// The flags raised over one recorded command: none, one or several.
///
/// Each flag hangs on the leading word of a part of the command, so that
/// `echo "rm -rf ~/"` raises none.
pub fn flags_for_command(command: &str) -> (flags: Vec<Flag>)
    ensures
        flag_views(flags@) == flags_of(command@),
{
    let segments = split_segments(command);
    let ghost segs = segment_views(segments@);
    let mut flags: Vec<Flag> = Vec::new();
    proof {
        assert(flag_views(flags@) =~= all_segment_flags(segs.take(0), command@));
    }
    for i in 0..segments.len()
        invariant
            segs == segment_views(segments@),
            flag_views(flags@) == all_segment_flags(segs.take(i as int), command@),
    {
        proof {
            assert(segs.take(i + 1).drop_last() =~= segs.take(i as int));
            assert(segs.take(i + 1).last() == segments@[i as int]@);
        }
        match_segment(&segments[i].tokens, command, &mut flags);
    }
    proof {
        assert(segs.take(segs.len() as int) =~= segs);
    }
    match_curl_pipe(&segments, command, &mut flags);
    flags
}

// ---------------------------------------------------------------------------
// Laws
// ---------------------------------------------------------------------------

/// Whether every flag quotes `command`.
pub open spec fn all_quote(flags: Seq<FlagV>, command: Seq<char>) -> bool {
    forall|i: int| 0 <= i < flags.len() ==> (#[trigger] flags[i]).command == command
}

/// Every flag quotes the whole recorded command.
pub proof fn flags_quote_the_command(command: Seq<char>)
    ensures
        all_quote(flags_of(command), command),
{
    lemma_segment_flags_quote(segments_of(command), command);
    lemma_pipe_flags_quote(segments_of(command), command);
}

#[verifier::spinoff_prover]
proof fn lemma_one_segment_quotes(tokens: Seq<Seq<char>>, command: Seq<char>)
    ensures
        all_quote(segment_flags(tokens, command), command),
{
    broadcast use lemma_quotes_append, lemma_one_raised_quotes;

}

broadcast proof fn lemma_quotes_append(a: Seq<FlagV>, b: Seq<FlagV>, command: Seq<char>)
    requires
        all_quote(a, command),
        all_quote(b, command),
    ensures
        #[trigger] all_quote(a + b, command),
{
}

broadcast proof fn lemma_one_raised_quotes(
    hit: bool,
    severity: FlagSeverity,
    pattern: Seq<char>,
    rationale: Seq<char>,
    command: Seq<char>,
)
    ensures
        #[trigger] all_quote(raised(hit, severity, pattern, rationale, command), command),
{
    reveal(raised);
}

proof fn lemma_segment_flags_quote(segs: Seq<SegmentV>, command: Seq<char>)
    ensures
        all_quote(all_segment_flags(segs, command), command),
    decreases segs.len(),
{
    if segs.len() > 0 {
        lemma_segment_flags_quote(segs.drop_last(), command);
        lemma_one_segment_quotes(segs.last().tokens, command);
    }
}

proof fn lemma_pipe_flags_quote(segs: Seq<SegmentV>, command: Seq<char>)
    ensures
        all_quote(pipe_flags(segs, command), command),
    decreases segs.len(),
{
    broadcast use lemma_quotes_append, lemma_one_raised_quotes;

    if segs.len() > 1 {
        lemma_pipe_flags_quote(segs.drop_last(), command);
    }
}

/// The flags, each with `command` for the command that it quotes.
pub open spec fn quoting(flags: Seq<FlagV>, command: Seq<char>) -> Seq<FlagV> {
    flags.map_values(|f: FlagV| FlagV { command, ..f })
}

broadcast proof fn lemma_quoting_append(a: Seq<FlagV>, b: Seq<FlagV>, command: Seq<char>)
    ensures
        #[trigger] quoting(a + b, command) == quoting(a, command) + quoting(b, command),
{
    assert(quoting(a + b, command) =~= quoting(a, command) + quoting(b, command));
}

broadcast proof fn lemma_quoting_raised(
    hit: bool,
    severity: FlagSeverity,
    pattern: Seq<char>,
    rationale: Seq<char>,
    other: Seq<char>,
    command: Seq<char>,
)
    ensures
        #[trigger] quoting(raised(hit, severity, pattern, rationale, other), command) == raised(
            hit,
            severity,
            pattern,
            rationale,
            command,
        ),
{
    reveal(raised);
    assert(quoting(raised(hit, severity, pattern, rationale, other), command) =~= raised(
        hit,
        severity,
        pattern,
        rationale,
        command,
    ));
}

#[verifier::spinoff_prover]
proof fn lemma_quoting_segment(tokens: Seq<Seq<char>>, other: Seq<char>, command: Seq<char>)
    ensures
        quoting(segment_flags(tokens, other), command) == segment_flags(tokens, command),
{
    broadcast use lemma_quoting_append, lemma_quoting_raised;

    if tokens.len() == 0 {
        assert(quoting(segment_flags(tokens, other), command) =~= segment_flags(tokens, command));
    }
}

proof fn lemma_quoting_segments(segs: Seq<SegmentV>, other: Seq<char>, command: Seq<char>)
    ensures
        quoting(all_segment_flags(segs, other), command) == all_segment_flags(segs, command),
    decreases segs.len(),
{
    broadcast use lemma_quoting_append;

    if segs.len() > 0 {
        lemma_quoting_segments(segs.drop_last(), other, command);
        lemma_quoting_segment(segs.last().tokens, other, command);
    } else {
        assert(quoting(all_segment_flags(segs, other), command) =~= Seq::<FlagV>::empty());
    }
}

proof fn lemma_quoting_pipes(segs: Seq<SegmentV>, other: Seq<char>, command: Seq<char>)
    ensures
        quoting(pipe_flags(segs, other), command) == pipe_flags(segs, command),
    decreases segs.len(),
{
    broadcast use lemma_quoting_append, lemma_quoting_raised;

    if segs.len() > 1 {
        lemma_quoting_pipes(segs.drop_last(), other, command);
    } else {
        assert(quoting(pipe_flags(segs, other), command) =~= Seq::<FlagV>::empty());
    }
}

proof fn lemma_segment_flags_append(a: Seq<SegmentV>, b: Seq<SegmentV>, command: Seq<char>)
    ensures
        all_segment_flags(a + b, command) == all_segment_flags(a, command) + all_segment_flags(
            b,
            command,
        ),
    decreases b.len(),
{
    if b.len() == 0 {
        assert(a + b =~= a);
        assert(all_segment_flags(a, command) + all_segment_flags(b, command)
            =~= all_segment_flags(a, command));
    } else {
        lemma_segment_flags_append(a, b.drop_last(), command);
        assert((a + b).drop_last() =~= a + b.drop_last());
        assert(all_segment_flags(a + b, command) =~= all_segment_flags(a, command)
            + all_segment_flags(b, command));
    }
}

/// Between two lists of parts of which the second does not begin behind a pipe, no
/// pipe is raised.
proof fn lemma_pipe_flags_append(a: Seq<SegmentV>, b: Seq<SegmentV>, command: Seq<char>)
    requires
        a.len() >= 1,
        b.len() >= 1,
        b[0].join != Some(Sep::Pipe),
    ensures
        pipe_flags(a + b, command) == pipe_flags(a, command) + pipe_flags(b, command),
    decreases b.len(),
{
    let s = a + b;
    assert(s.drop_last() =~= a + b.drop_last());
    if b.len() == 1 {
        assert(a + b.drop_last() =~= a);
        assert(s[s.len() - 1] == b[0]);
        reveal(raised);
        assert(pipe_flags(s, command) =~= pipe_flags(a, command) + pipe_flags(b, command));
    } else {
        lemma_pipe_flags_append(a, b.drop_last(), command);
        assert(s[s.len() - 1] == b[b.len() - 1]);
        assert(s[s.len() - 2] == b[b.len() - 2]);
        assert(pipe_flags(s, command) =~= pipe_flags(a, command) + pipe_flags(b, command));
    }
}

/// What the operator before the first part is, is no matter to the flags.
proof fn lemma_first_join_raises_nothing(
    segs: Seq<SegmentV>,
    join: Option<Sep>,
    command: Seq<char>,
)
    requires
        segs.len() >= 1,
    ensures
        all_segment_flags(segs.update(0, SegmentV { join, ..segs[0] }), command)
            == all_segment_flags(segs, command),
        pipe_flags(segs.update(0, SegmentV { join, ..segs[0] }), command) == pipe_flags(
            segs,
            command,
        ),
    decreases segs.len(),
{
    let other = segs.update(0, SegmentV { join, ..segs[0] });
    let rest = segs.drop_last();
    if segs.len() == 1 {
        assert(other.drop_last() =~= rest);
    } else {
        lemma_first_join_raises_nothing(rest, join, command);
        assert(other.drop_last() =~= rest.update(0, SegmentV { join, ..rest[0] }));
    }
}

/// The flags of two commands with a semicolon between them are the flags of the one
/// and those of the other, as often as they occur; each of them quotes the whole.
pub proof fn a_semicolon_adds_the_flags_up(a: Seq<char>, b: Seq<char>)
    ensures
        flags_of(a + ";"@ + b).to_multiset() == quoting(
            flags_of(a),
            a + ";"@ + b,
        ).to_multiset().add(quoting(flags_of(b), a + ";"@ + b).to_multiset()),
        all_quote(flags_of(a + ";"@ + b), a + ";"@ + b),
{
    broadcast use lemma_quoting_append;

    let c = a + ";"@ + b;
    let sa = segments_of(a);
    let sb = segments_of(b);
    let joined = sb.update(0, SegmentV { join: Some(Sep::Other), ..sb[0] });
    lemma_first_join(a, 0, None, None);
    lemma_first_join(b, 0, None, None);
    a_semicolon_parts_commands(a, b);
    lemma_segment_flags_append(sa, joined, c);
    lemma_pipe_flags_append(sa, joined, c);
    lemma_first_join_raises_nothing(sb, Some(Sep::Other), c);
    lemma_quoting_segments(sa, a, c);
    lemma_quoting_segments(sb, b, c);
    lemma_quoting_pipes(sa, a, c);
    lemma_quoting_pipes(sb, b, c);
    let x = all_segment_flags(sa, c);
    let y = all_segment_flags(sb, c);
    let z = pipe_flags(sa, c);
    let w = pipe_flags(sb, c);
    assert(flags_of(c) == (x + y) + (z + w));
    assert(quoting(flags_of(a), c) == x + z);
    assert(quoting(flags_of(b), c) == y + w);
    lemma_multiset_commutative(x, y);
    lemma_multiset_commutative(z, w);
    lemma_multiset_commutative(x + y, z + w);
    lemma_multiset_commutative(x, z);
    lemma_multiset_commutative(y, w);
    assert(flags_of(c).to_multiset() =~= quoting(flags_of(a), c).to_multiset().add(
        quoting(flags_of(b), c).to_multiset(),
    ));
    flags_quote_the_command(c);
}

/// Whether a class of commands is one whose damage cannot be undone.
pub open spec fn critical_pattern(pattern: Seq<char>) -> bool {
    pattern == "rm-rf-home-root"@ || pattern == "dd-to-device"@ || pattern == "mkfs-device"@
}

/// Whether exactly the flags of such classes are critical.
pub open spec fn all_graded(flags: Seq<FlagV>) -> bool {
    forall|i: int|
        0 <= i < flags.len() ==> ((#[trigger] flags[i]).severity == FlagSeverity::Critical
            <==> critical_pattern(flags[i].pattern))
}

broadcast proof fn lemma_graded_append(a: Seq<FlagV>, b: Seq<FlagV>)
    requires
        all_graded(a),
        all_graded(b),
    ensures
        #[trigger] all_graded(a + b),
{
}

broadcast proof fn lemma_one_raised_graded(
    hit: bool,
    severity: FlagSeverity,
    pattern: Seq<char>,
    rationale: Seq<char>,
    command: Seq<char>,
)
    requires
        severity == FlagSeverity::Critical <==> critical_pattern(pattern),
    ensures
        #[trigger] all_graded(raised(hit, severity, pattern, rationale, command)),
{
    reveal(raised);
}

proof fn lemma_critical_patterns()
    ensures
        !critical_pattern("git-force-push"@),
        !critical_pattern("git-clean-force"@),
        !critical_pattern("git-reset-hard"@),
        !critical_pattern("chmod-recursive-777"@),
        !critical_pattern("curl-pipe-shell"@),
{
    reveal_strlit("rm-rf-home-root");
    reveal_strlit("dd-to-device");
    reveal_strlit("mkfs-device");
    reveal_strlit("git-force-push");
    reveal_strlit("git-clean-force");
    reveal_strlit("git-reset-hard");
    reveal_strlit("chmod-recursive-777");
    reveal_strlit("curl-pipe-shell");
    assert("rm-rf-home-root"@[0] == 'r');
    assert("dd-to-device"@[0] == 'd');
    assert("mkfs-device"@[0] == 'm');
    assert("git-force-push"@[0] == 'g');
    assert("git-clean-force"@[0] == 'g');
    assert("git-reset-hard"@[0] == 'g');
    assert("chmod-recursive-777"@[0] == 'c');
    assert("curl-pipe-shell"@[0] == 'c');
}

#[verifier::spinoff_prover]
proof fn lemma_segment_graded(tokens: Seq<Seq<char>>, command: Seq<char>)
    ensures
        all_graded(segment_flags(tokens, command)),
{
    broadcast use lemma_graded_append, lemma_one_raised_graded;

    lemma_critical_patterns();
}

proof fn lemma_segments_graded(segs: Seq<SegmentV>, command: Seq<char>)
    ensures
        all_graded(all_segment_flags(segs, command)),
        all_graded(pipe_flags(segs, command)),
    decreases segs.len(),
{
    broadcast use lemma_graded_append, lemma_one_raised_graded;

    if segs.len() > 0 {
        lemma_critical_patterns();
        lemma_segments_graded(segs.drop_last(), command);
        lemma_segment_graded(segs.last().tokens, command);
    }
}

/// A flag is critical exactly if its class is one whose damage cannot be undone.
pub proof fn the_class_fixes_the_severity(command: Seq<char>)
    ensures
        all_graded(flags_of(command)),
{
    lemma_segments_graded(segments_of(command), command);
    lemma_graded_append(
        all_segment_flags(segments_of(command), command),
        pipe_flags(segments_of(command), command),
    );
}

/// `--force-with-lease` is not taken for force.
pub proof fn lease_is_not_force()
    ensures
        !asks_force("--force-with-lease"@),
{
    reveal_strlit("--force-with-lease");
    reveal_strlit("--force");
    assert("--force-with-lease"@.len() != "--force"@.len());
}

/// A part whose leading word is none of the commands that are watched raises
/// no flag, whatever its arguments are.
pub proof fn unwatched_words_raise_nothing(tokens: Seq<Seq<char>>, command: Seq<char>)
    requires
        tokens.len() > 0,
        tokens[0] != "rm"@,
        tokens[0] != "dd"@,
        tokens[0] != "mkfs"@,
        !begins(tokens[0], "mkfs."@),
        tokens[0] != "git"@,
        tokens[0] != "chmod"@,
    ensures
        segment_flags(tokens, command).len() == 0,
{
    reveal(raised);
}

/// Whether a word is a bundle of short options, behind one hyphen, with `letter` in it.
pub open spec fn bundles(t: Seq<char>, letter: char) -> bool {
    t.len() >= 2 && t[0] == '-' && t[1] != '-' && exists|i: int|
        1 <= i < t.len() && #[trigger] t[i] == letter
}

/// Whether a word is `--force`, or a bundle with `f`.
pub open spec fn is_force_word(t: Seq<char>) -> bool {
    t == "--force"@ || bundles(t, 'f')
}

/// Whether a word is `--recursive`, or a bundle with `r` or `R`.
pub open spec fn is_recursive_word(t: Seq<char>) -> bool {
    t == "--recursive"@ || bundles(t, 'r') || bundles(t, 'R')
}

/// Whether some word from `from` on has a property.
pub open spec fn some_word(
    tokens: Seq<Seq<char>>,
    from: int,
    p: spec_fn(Seq<char>) -> bool,
) -> bool {
    exists|i: int| from <= i < tokens.len() && p(#[trigger] tokens[i])
}

/// The home and root paths.
pub open spec fn homes() -> Seq<Seq<char>> {
    seq!["/"@, "~"@, "~/"@, "~/*"@, "$HOME"@, "${HOME}"@, "$HOME/"@, "/*"@]
}

/// Whether the words of a part are a command of the class `pattern`.
pub open spec fn is_of_class(tokens: Seq<Seq<char>>, pattern: Seq<char>) -> bool {
    &&& tokens.len() > 0
    &&& {
        ||| pattern == "rm-rf-home-root"@ && tokens[0] == "rm"@ && some_word(
            tokens,
            1,
            |t: Seq<char>| is_recursive_word(t),
        ) && some_word(tokens, 1, |t: Seq<char>| is_force_word(t)) && some_word(
            tokens,
            1,
            |t: Seq<char>| homes().contains(t),
        )
        ||| pattern == "dd-to-device"@ && tokens[0] == "dd"@ && some_word(
            tokens,
            1,
            |t: Seq<char>| begins(t, "of=/dev/"@),
        )
        ||| pattern == "mkfs-device"@ && (tokens[0] == "mkfs"@ || begins(tokens[0], "mkfs."@))
            && some_word(tokens, 1, |t: Seq<char>| begins(t, "/dev/"@))
        ||| pattern == "git-force-push"@ && tokens[0] == "git"@ && exists|p: int|
            1 <= p < tokens.len() && #[trigger] tokens[p] == "push"@ && some_word(
                tokens,
                p + 1,
                |t: Seq<char>| is_force_word(t),
            )
        ||| pattern == "git-clean-force"@ && tokens[0] == "git"@ && exists|p: int|
            1 <= p < tokens.len() && #[trigger] tokens[p] == "clean"@ && some_word(
                tokens,
                p + 1,
                |t: Seq<char>| is_force_word(t),
            ) && some_word(tokens, p + 1, |t: Seq<char>| bundles(t, 'd') || bundles(t, 'x'))
        ||| pattern == "git-reset-hard"@ && tokens[0] == "git"@ && exists|p: int|
            1 <= p < tokens.len() && #[trigger] tokens[p] == "reset"@ && some_word(
                tokens,
                p + 1,
                |t: Seq<char>| t == "--hard"@,
            )
        ||| pattern == "chmod-recursive-777"@ && tokens[0] == "chmod"@ && some_word(
            tokens,
            1,
            |t: Seq<char>| t == "--recursive"@ || bundles(t, 'R'),
        ) && some_word(tokens, 1, |t: Seq<char>| t == "777"@ || t == "a+rwx"@)
    }
}

/// Whether the part at `k` is a shell behind a single pipe from a fetcher.
pub open spec fn is_piped_script(segs: Seq<SegmentV>, k: int) -> bool {
    &&& 1 <= k < segs.len()
    &&& segs[k].join == Some(Sep::Pipe)
    &&& segs[k - 1].tokens.len() > 0 && (segs[k - 1].tokens[0] == "curl"@ || segs[k - 1].tokens[0]
        == "wget"@)
    &&& segs[k].tokens.len() > 0 && (segs[k].tokens[0] == "sh"@ || segs[k].tokens[0] == "bash"@
        || segs[k].tokens[0] == "zsh"@)
}

/// The number of flags of a class.
pub open spec fn flags_of_class(flags: Seq<FlagV>, pattern: Seq<char>) -> nat {
    how_many(flags, |f: FlagV| f.pattern == pattern)
}

proof fn lemma_bundles(t: Seq<char>, letter: char)
    requires
        letter != '-',
    ensures
        short_flag(t, letter) <==> bundles(t, letter),
{
    if short_flag(t, letter) {
        let i = choose|i: int| 1 <= i < t.len() && t[i] == letter;
        assert(t[i] == letter);
    }
}

proof fn lemma_words_ask(t: Seq<char>)
    ensures
        asks_force(t) <==> is_force_word(t),
        asks_recursive(t) <==> is_recursive_word(t),
        (short_flag(t, 'd') || short_flag(t, 'x')) <==> (bundles(t, 'd') || bundles(t, 'x')),
        short_flag(t, 'R') <==> bundles(t, 'R'),
        catastrophic_target(t) <==> homes().contains(t),
        writes_device(t) <==> begins(t, "of=/dev/"@),
        dangerous_mode(t) <==> t == "777"@ || t == "a+rwx"@,
{
    lemma_bundles(t, 'f');
    lemma_bundles(t, 'r');
    lemma_bundles(t, 'R');
    lemma_bundles(t, 'd');
    lemma_bundles(t, 'x');
    let h = homes();
    assert(h[0] == "/"@ && h[1] == "~"@ && h[2] == "~/"@ && h[3] == "~/*"@ && h[4] == "$HOME"@
        && h[5] == "${HOME}"@ && h[6] == "$HOME/"@ && h[7] == "/*"@);
    reveal_strlit("of=");
    reveal_strlit("/dev/");
    reveal_strlit("of=/dev/");
    assert("of=/dev/"@ =~= "of="@ + "/dev/"@);
    if begins(t, "of=/dev/"@) {
        assert(t.subrange(0, 8) == "of=/dev/"@);
        assert(t.subrange(0, 3) =~= t.subrange(0, 8).subrange(0, 3));
        assert("of=/dev/"@.subrange(0, 3) =~= "of="@);
        assert(t.skip(3).subrange(0, 5) =~= t.subrange(0, 8).subrange(3, 8));
        assert("of=/dev/"@.subrange(3, 8) =~= "/dev/"@);
    }
    if writes_device(t) {
        assert(t.subrange(0, 8) =~= t.subrange(0, 3) + t.skip(3).subrange(0, 5));
    }
}

proof fn lemma_any_arg(
    tokens: Seq<Seq<char>>,
    p: spec_fn(Seq<char>) -> bool,
    q: spec_fn(Seq<char>) -> bool,
)
    requires
        tokens.len() > 0,
        forall|t: Seq<char>| #[trigger] p(t) == q(t),
    ensures
        any_arg(tokens.skip(1), p) <==> some_word(tokens, 1, q),
{
    let args = tokens.skip(1);
    if any_arg(args, p) {
        let i = choose|i: int| 0 <= i < args.len() && p(#[trigger] args[i]);
        assert(q(tokens[i + 1]));
    }
    if some_word(tokens, 1, q) {
        let i = choose|i: int| 1 <= i < tokens.len() && q(#[trigger] tokens[i]);
        assert(p(args[i - 1]));
    }
}

/// The arguments behind the first `sub` are all those behind a word `sub`.
proof fn lemma_behind(args: Seq<Seq<char>>, sub: Seq<char>)
    ensures
        match behind(args, sub) {
            Some(rest) => exists|p: int|
                0 <= p < args.len() && #[trigger] args[p] == sub && (forall|j: int|
                    0 <= j < p ==> #[trigger] args[j] != sub) && rest == args.skip(p + 1),
            None => forall|p: int| 0 <= p < args.len() ==> #[trigger] args[p] != sub,
        },
    decreases args.len(),
{
    if args.len() > 0 {
        if args[0] == sub {
            assert(args[0] == sub);
        } else {
            let t = args.skip(1);
            lemma_behind(t, sub);
            match behind(args, sub) {
                Some(rest) => {
                    let p = choose|p: int|
                        0 <= p < t.len() && #[trigger] t[p] == sub && (forall|j: int|
                            0 <= j < p ==> #[trigger] t[j] != sub) && rest == t.skip(p + 1);
                    assert(args[p + 1] == sub);
                    assert(rest =~= args.skip(p + 2));
                    assert forall|j: int| 0 <= j < p + 1 implies #[trigger] args[j] != sub by {
                        if j > 0 {
                            assert(t[j - 1] == args[j]);
                        }
                    }
                },
                None => {
                    assert forall|p: int| 0 <= p < args.len() implies #[trigger] args[p] != sub by {
                        if p > 0 {
                            assert(t[p - 1] == args[p]);
                        }
                    }
                },
            }
        }
    }
}

/// A property of some argument behind the first `sub` is one of some word behind a word
/// `sub`.
proof fn lemma_any_behind(
    tokens: Seq<Seq<char>>,
    sub: Seq<char>,
    p: spec_fn(Seq<char>) -> bool,
    q: spec_fn(Seq<char>) -> bool,
)
    requires
        tokens.len() > 0,
        forall|t: Seq<char>| #[trigger] p(t) == q(t),
    ensures
        match behind(tokens.skip(1), sub) {
            Some(rest) => exists|k: int|
                1 <= k < tokens.len() && #[trigger] tokens[k] == sub && (any_arg(rest, p)
                    <==> some_word(tokens, k + 1, q)) && forall|j: int|
                    1 <= j < k ==> #[trigger] tokens[j] != sub,
            None => forall|k: int| 1 <= k < tokens.len() ==> #[trigger] tokens[k] != sub,
        },
{
    let args = tokens.skip(1);
    lemma_behind(args, sub);
    match behind(args, sub) {
        Some(rest) => {
            let n = choose|n: int|
                0 <= n < args.len() && #[trigger] args[n] == sub && (forall|j: int|
                    0 <= j < n ==> #[trigger] args[j] != sub) && rest == args.skip(n + 1);
            let k = n + 1;
            assert(tokens[k] == sub);
            if any_arg(rest, p) {
                let i = choose|i: int| 0 <= i < rest.len() && p(#[trigger] rest[i]);
                assert(q(tokens[k + 1 + i]));
            }
            if some_word(tokens, k + 1, q) {
                let i = choose|i: int| k + 1 <= i < tokens.len() && q(#[trigger] tokens[i]);
                assert(p(rest[i - k - 1]));
            }
            assert forall|j: int| 1 <= j < k implies #[trigger] tokens[j] != sub by {
                assert(args[j - 1] == tokens[j]);
            }
        },
        None => {
            assert forall|k: int| 1 <= k < tokens.len() implies #[trigger] tokens[k] != sub by {
                assert(args[k - 1] == tokens[k]);
            }
        },
    }
}

proof fn lemma_some_word_later(
    tokens: Seq<Seq<char>>,
    from: int,
    to: int,
    p: spec_fn(Seq<char>) -> bool,
)
    requires
        from <= to,
        some_word(tokens, to, p),
    ensures
        some_word(tokens, from, p),
{
    let i = choose|i: int| to <= i < tokens.len() && p(#[trigger] tokens[i]);
    assert(p(tokens[i]));
}

proof fn lemma_git_classes(tokens: Seq<Seq<char>>)
    requires
        tokens.len() > 0,
    ensures
        is_force_push(tokens[0], tokens.skip(1)) <==> tokens[0] == "git"@ && exists|p: int|
            1 <= p < tokens.len() && #[trigger] tokens[p] == "push"@ && some_word(
                tokens,
                p + 1,
                |t: Seq<char>| is_force_word(t),
            ),
        is_git_clean(tokens[0], tokens.skip(1)) <==> tokens[0] == "git"@ && exists|p: int|
            1 <= p < tokens.len() && #[trigger] tokens[p] == "clean"@ && some_word(
                tokens,
                p + 1,
                |t: Seq<char>| is_force_word(t),
            ) && some_word(tokens, p + 1, |t: Seq<char>| bundles(t, 'd') || bundles(t, 'x')),
        is_git_reset(tokens[0], tokens.skip(1)) <==> tokens[0] == "git"@ && exists|p: int|
            1 <= p < tokens.len() && #[trigger] tokens[p] == "reset"@ && some_word(
                tokens,
                p + 1,
                |t: Seq<char>| t == "--hard"@,
            ),
{
    let force = |t: Seq<char>| asks_force(t);
    let force2 = |t: Seq<char>| is_force_word(t);
    let dirs = |t: Seq<char>| short_flag(t, 'd') || short_flag(t, 'x');
    let dirs2 = |t: Seq<char>| bundles(t, 'd') || bundles(t, 'x');
    let hard = |t: Seq<char>| t == "--hard"@;
    assert forall|t: Seq<char>| #[trigger] force(t) == force2(t) by {
        lemma_words_ask(t);
    }
    assert forall|t: Seq<char>| #[trigger] dirs(t) == dirs2(t) by {
        lemma_words_ask(t);
    }
    lemma_any_behind(tokens, "push"@, force, force2);
    lemma_any_behind(tokens, "clean"@, force, force2);
    lemma_any_behind(tokens, "clean"@, dirs, dirs2);
    lemma_any_behind(tokens, "reset"@, hard, hard);
    if tokens[0] == "git"@ {
        if exists|p: int|
            1 <= p < tokens.len() && #[trigger] tokens[p] == "push"@ && some_word(
                tokens,
                p + 1,
                force2,
            ) {
            let p = choose|p: int|
                1 <= p < tokens.len() && #[trigger] tokens[p] == "push"@ && some_word(
                    tokens,
                    p + 1,
                    force2,
                );
            let k = choose|k: int|
                1 <= k < tokens.len() && #[trigger] tokens[k] == "push"@ && (any_arg(
                    behind(tokens.skip(1), "push"@)->0,
                    force,
                ) <==> some_word(tokens, k + 1, force2)) && forall|j: int|
                    1 <= j < k ==> #[trigger] tokens[j] != "push"@;
            assert(k <= p);
            lemma_some_word_later(tokens, k + 1, p + 1, force2);
        }
        if exists|p: int|
            1 <= p < tokens.len() && #[trigger] tokens[p] == "clean"@ && some_word(
                tokens,
                p + 1,
                force2,
            ) && some_word(tokens, p + 1, dirs2) {
            let p = choose|p: int|
                1 <= p < tokens.len() && #[trigger] tokens[p] == "clean"@ && some_word(
                    tokens,
                    p + 1,
                    force2,
                ) && some_word(tokens, p + 1, dirs2);
            let k = choose|k: int|
                1 <= k < tokens.len() && #[trigger] tokens[k] == "clean"@ && (any_arg(
                    behind(tokens.skip(1), "clean"@)->0,
                    force,
                ) <==> some_word(tokens, k + 1, force2)) && forall|j: int|
                    1 <= j < k ==> #[trigger] tokens[j] != "clean"@;
            let n = choose|k: int|
                1 <= k < tokens.len() && #[trigger] tokens[k] == "clean"@ && (any_arg(
                    behind(tokens.skip(1), "clean"@)->0,
                    dirs,
                ) <==> some_word(tokens, k + 1, dirs2)) && forall|j: int|
                    1 <= j < k ==> #[trigger] tokens[j] != "clean"@;
            assert(k <= p && n <= p);
            lemma_some_word_later(tokens, k + 1, p + 1, force2);
            lemma_some_word_later(tokens, n + 1, p + 1, dirs2);
        }
        if is_git_clean(tokens[0], tokens.skip(1)) {
            let k = choose|k: int|
                1 <= k < tokens.len() && #[trigger] tokens[k] == "clean"@ && (any_arg(
                    behind(tokens.skip(1), "clean"@)->0,
                    force,
                ) <==> some_word(tokens, k + 1, force2)) && forall|j: int|
                    1 <= j < k ==> #[trigger] tokens[j] != "clean"@;
            let n = choose|k: int|
                1 <= k < tokens.len() && #[trigger] tokens[k] == "clean"@ && (any_arg(
                    behind(tokens.skip(1), "clean"@)->0,
                    dirs,
                ) <==> some_word(tokens, k + 1, dirs2)) && forall|j: int|
                    1 <= j < k ==> #[trigger] tokens[j] != "clean"@;
            assert(k == n);
            assert(tokens[k] == "clean"@);
        }
        if exists|p: int|
            1 <= p < tokens.len() && #[trigger] tokens[p] == "reset"@ && some_word(
                tokens,
                p + 1,
                hard,
            ) {
            let p = choose|p: int|
                1 <= p < tokens.len() && #[trigger] tokens[p] == "reset"@ && some_word(
                    tokens,
                    p + 1,
                    hard,
                );
            let k = choose|k: int|
                1 <= k < tokens.len() && #[trigger] tokens[k] == "reset"@ && (any_arg(
                    behind(tokens.skip(1), "reset"@)->0,
                    hard,
                ) <==> some_word(tokens, k + 1, hard)) && forall|j: int|
                    1 <= j < k ==> #[trigger] tokens[j] != "reset"@;
            assert(k <= p);
            lemma_some_word_later(tokens, k + 1, p + 1, hard);
        }
    }
}

proof fn lemma_other_classes(tokens: Seq<Seq<char>>)
    requires
        tokens.len() > 0,
    ensures
        is_rm_rf(tokens[0], tokens.skip(1)) <==> tokens[0] == "rm"@ && some_word(
            tokens,
            1,
            |t: Seq<char>| is_recursive_word(t),
        ) && some_word(tokens, 1, |t: Seq<char>| is_force_word(t)) && some_word(
            tokens,
            1,
            |t: Seq<char>| homes().contains(t),
        ),
        is_dd_device(tokens[0], tokens.skip(1)) <==> tokens[0] == "dd"@ && some_word(
            tokens,
            1,
            |t: Seq<char>| begins(t, "of=/dev/"@),
        ),
        is_mkfs(tokens[0], tokens.skip(1)) <==> (tokens[0] == "mkfs"@ || begins(
            tokens[0],
            "mkfs."@,
        )) && some_word(tokens, 1, |t: Seq<char>| begins(t, "/dev/"@)),
        is_chmod_777(tokens[0], tokens.skip(1)) <==> tokens[0] == "chmod"@ && some_word(
            tokens,
            1,
            |t: Seq<char>| t == "--recursive"@ || bundles(t, 'R'),
        ) && some_word(tokens, 1, |t: Seq<char>| t == "777"@ || t == "a+rwx"@),
{
    assert forall|t: Seq<char>| asks_force(t) == #[trigger] is_force_word(t) by {
        lemma_words_ask(t);
    }
    assert forall|t: Seq<char>| asks_recursive(t) == #[trigger] is_recursive_word(t) by {
        lemma_words_ask(t);
    }
    assert forall|t: Seq<char>| catastrophic_target(t) == #[trigger] homes().contains(t) by {
        lemma_words_ask(t);
    }
    assert forall|t: Seq<char>| writes_device(t) == #[trigger] begins(t, "of=/dev/"@) by {
        lemma_words_ask(t);
    }
    assert forall|t: Seq<char>| short_flag(t, 'R') == #[trigger] bundles(t, 'R') by {
        lemma_words_ask(t);
    }
    lemma_any_arg(
        tokens,
        |t: Seq<char>| asks_recursive(t),
        |t: Seq<char>| is_recursive_word(t),
    );
    lemma_any_arg(tokens, |t: Seq<char>| asks_force(t), |t: Seq<char>| is_force_word(t));
    lemma_any_arg(
        tokens,
        |t: Seq<char>| catastrophic_target(t),
        |t: Seq<char>| homes().contains(t),
    );
    lemma_any_arg(tokens, |t: Seq<char>| writes_device(t), |t: Seq<char>| begins(t, "of=/dev/"@));
    lemma_any_arg(
        tokens,
        |t: Seq<char>| begins(t, "/dev/"@),
        |t: Seq<char>| begins(t, "/dev/"@),
    );
    lemma_any_arg(
        tokens,
        |t: Seq<char>| t == "--recursive"@ || short_flag(t, 'R'),
        |t: Seq<char>| t == "--recursive"@ || bundles(t, 'R'),
    );
    lemma_any_arg(
        tokens,
        |t: Seq<char>| dangerous_mode(t),
        |t: Seq<char>| t == "777"@ || t == "a+rwx"@,
    );
}

proof fn lemma_raised_of_class(
    hit: bool,
    severity: FlagSeverity,
    pattern: Seq<char>,
    rationale: Seq<char>,
    command: Seq<char>,
    wanted: Seq<char>,
)
    ensures
        flags_of_class(raised(hit, severity, pattern, rationale, command), wanted) == (if hit
            && pattern == wanted {
            1nat
        } else {
            0
        }),
{
    reveal(raised);
    let fs = raised(hit, severity, pattern, rationale, command);
    let p = |f: FlagV| f.pattern == wanted;
    lemma_how_many(fs, p);
    lemma_how_many(fs.drop_last(), p);
}

proof fn lemma_class_names()
    ensures
        "rm-rf-home-root"@.len() == 15 && "rm-rf-home-root"@[0] == 'r',
        "dd-to-device"@.len() == 12,
        "mkfs-device"@.len() == 11,
        "git-force-push"@.len() == 14 && "git-force-push"@[4] == 'f',
        "git-clean-force"@.len() == 15 && "git-clean-force"@[0] == 'g',
        "git-reset-hard"@.len() == 14 && "git-reset-hard"@[4] == 'r',
        "chmod-recursive-777"@.len() == 19,
        "curl-pipe-shell"@.len() == 15 && "curl-pipe-shell"@[0] == 'c',
{
    reveal_strlit("rm-rf-home-root");
    reveal_strlit("dd-to-device");
    reveal_strlit("mkfs-device");
    reveal_strlit("git-force-push");
    reveal_strlit("git-clean-force");
    reveal_strlit("git-reset-hard");
    reveal_strlit("chmod-recursive-777");
    reveal_strlit("curl-pipe-shell");
}

#[verifier::spinoff_prover]
proof fn lemma_class_of_part(tokens: Seq<Seq<char>>, command: Seq<char>, wanted: Seq<char>)
    ensures
        flags_of_class(segment_flags(tokens, command), wanted) == (if is_of_class(tokens, wanted) {
            1nat
        } else {
            0
        }),
{
    lemma_how_many(segment_flags(tokens, command), |f: FlagV| f.pattern == wanted);
    if tokens.len() > 0 {
        lemma_class_names();
        lemma_git_classes(tokens);
        lemma_other_classes(tokens);
        let leading = tokens[0];
        let args = tokens.skip(1);
        let p = |f: FlagV| f.pattern == wanted;
        let a = raised(
            is_rm_rf(leading, args),
            FlagSeverity::Critical,
            "rm-rf-home-root"@,
            "recursive force-remove targeting a home or root path"@,
            command,
        );
        let b = raised(
            is_dd_device(leading, args),
            FlagSeverity::Critical,
            "dd-to-device"@,
            "dd writing directly to a block device"@,
            command,
        );
        let c = raised(
            is_mkfs(leading, args),
            FlagSeverity::Critical,
            "mkfs-device"@,
            "filesystem format on a device"@,
            command,
        );
        let d = raised(
            is_force_push(leading, args),
            FlagSeverity::Warning,
            "git-force-push"@,
            "force-push rewrites remote history"@,
            command,
        );
        let e = raised(
            is_git_clean(leading, args),
            FlagSeverity::Warning,
            "git-clean-force"@,
            "git clean deletes untracked files"@,
            command,
        );
        let f = raised(
            is_git_reset(leading, args),
            FlagSeverity::Warning,
            "git-reset-hard"@,
            "git reset --hard discards uncommitted changes"@,
            command,
        );
        let g = raised(
            is_chmod_777(leading, args),
            FlagSeverity::Warning,
            "chmod-recursive-777"@,
            "recursive chmod 777 removes permission boundaries"@,
            command,
        );
        lemma_how_many_append(a, b, p);
        lemma_how_many_append(a + b, c, p);
        lemma_how_many_append(a + b + c, d, p);
        lemma_how_many_append(a + b + c + d, e, p);
        lemma_how_many_append(a + b + c + d + e, f, p);
        lemma_how_many_append(a + b + c + d + e + f, g, p);
        lemma_raised_of_class(
            is_rm_rf(leading, args),
            FlagSeverity::Critical,
            "rm-rf-home-root"@,
            "recursive force-remove targeting a home or root path"@,
            command,
            wanted,
        );
        lemma_raised_of_class(
            is_dd_device(leading, args),
            FlagSeverity::Critical,
            "dd-to-device"@,
            "dd writing directly to a block device"@,
            command,
            wanted,
        );
        lemma_raised_of_class(
            is_mkfs(leading, args),
            FlagSeverity::Critical,
            "mkfs-device"@,
            "filesystem format on a device"@,
            command,
            wanted,
        );
        lemma_raised_of_class(
            is_force_push(leading, args),
            FlagSeverity::Warning,
            "git-force-push"@,
            "force-push rewrites remote history"@,
            command,
            wanted,
        );
        lemma_raised_of_class(
            is_git_clean(leading, args),
            FlagSeverity::Warning,
            "git-clean-force"@,
            "git clean deletes untracked files"@,
            command,
            wanted,
        );
        lemma_raised_of_class(
            is_git_reset(leading, args),
            FlagSeverity::Warning,
            "git-reset-hard"@,
            "git reset --hard discards uncommitted changes"@,
            command,
            wanted,
        );
        lemma_raised_of_class(
            is_chmod_777(leading, args),
            FlagSeverity::Warning,
            "chmod-recursive-777"@,
            "recursive chmod 777 removes permission boundaries"@,
            command,
            wanted,
        );
        assert(segment_flags(tokens, command) == a + b + c + d + e + f + g);
    }
}

proof fn lemma_class_of_parts(segs: Seq<SegmentV>, command: Seq<char>, wanted: Seq<char>)
    ensures
        flags_of_class(all_segment_flags(segs, command), wanted) == how_many(
            segs,
            |s: SegmentV| is_of_class(s.tokens, wanted),
        ),
    decreases segs.len(),
{
    let p = |f: FlagV| f.pattern == wanted;
    lemma_how_many(segs, |s: SegmentV| is_of_class(s.tokens, wanted));
    lemma_how_many(all_segment_flags(segs, command), p);
    if segs.len() > 0 {
        lemma_class_of_parts(segs.drop_last(), command, wanted);
        lemma_class_of_part(segs.last().tokens, command, wanted);
        lemma_how_many_append(
            all_segment_flags(segs.drop_last(), command),
            segment_flags(segs.last().tokens, command),
            p,
        );
    }
}

proof fn lemma_class_of_pipes(segs: Seq<SegmentV>, command: Seq<char>, wanted: Seq<char>)
    ensures
        flags_of_class(pipe_flags(segs, command), wanted) == (if wanted == "curl-pipe-shell"@ {
            how_many(Seq::new(segs.len(), |k: int| k), |k: int| is_piped_script(segs, k))
        } else {
            0
        }),
    decreases segs.len(),
{
    let p = |f: FlagV| f.pattern == wanted;
    let q = |k: int| is_piped_script(segs, k);
    let all = Seq::new(segs.len(), |k: int| k);
    lemma_how_many(all, q);
    lemma_how_many(pipe_flags(segs, command), p);
    if segs.len() > 0 {
        let rest = segs.drop_last();
        let n = segs.len() - 1;
        lemma_class_of_pipes(rest, command, wanted);
        assert(all.drop_last() =~= Seq::new(rest.len(), |k: int| k));
        lemma_how_many_alike(
            Seq::new(rest.len(), |k: int| k),
            |k: int| is_piped_script(rest, k),
            q,
        );
        if segs.len() > 1 {
            let hit = is_fetch_pipe(segs[n - 1], segs[n]);
            lemma_how_many_append(
                pipe_flags(rest, command),
                raised(
                    hit,
                    FlagSeverity::Warning,
                    "curl-pipe-shell"@,
                    "remote script piped directly into a shell"@,
                    command,
                ),
                p,
            );
            lemma_raised_of_class(
                hit,
                FlagSeverity::Warning,
                "curl-pipe-shell"@,
                "remote script piped directly into a shell"@,
                command,
                wanted,
            );
        } else {
            lemma_how_many(pipe_flags(rest, command), p);
        }
    }
}

/// A command has as many flags of a class as it has parts of that class, wherever in a
/// part its options stand; and as many of the class of piped scripts as it has shells
/// behind a single pipe from a fetcher.
pub proof fn flags_are_raised_for_each_part_of_a_class(command: Seq<char>, pattern: Seq<char>)
    ensures
        pattern != "curl-pipe-shell"@ ==> flags_of_class(flags_of(command), pattern) == how_many(
            segments_of(command),
            |s: SegmentV| is_of_class(s.tokens, pattern),
        ),
        pattern == "curl-pipe-shell"@ ==> flags_of_class(flags_of(command), pattern) == how_many(
            Seq::new(segments_of(command).len(), |k: int| k),
            |k: int| is_piped_script(segments_of(command), k),
        ),
{
    let segs = segments_of(command);
    lemma_class_of_parts(segs, command, pattern);
    lemma_class_of_pipes(segs, command, pattern);
    lemma_how_many_append(
        all_segment_flags(segs, command),
        pipe_flags(segs, command),
        |f: FlagV| f.pattern == pattern,
    );
    if pattern == "curl-pipe-shell"@ {
        lemma_class_names();
        let p = |s: SegmentV| is_of_class(s.tokens, pattern);
        lemma_how_many_some(segs, p);
        assert forall|s: SegmentV| !#[trigger] is_of_class(s.tokens, pattern) by {}
    }
}

/// What stands behind `push` asks for force in whatever order it stands: two parts that
/// differ only in the order of those words are both force pushes or neither is.
pub proof fn the_order_of_arguments_is_no_matter(
    ahead: Seq<Seq<char>>,
    a: Seq<Seq<char>>,
    b: Seq<Seq<char>>,
)
    requires
        ahead.len() > 1,
        ahead.last() == "push"@,
        a.to_multiset() == b.to_multiset(),
    ensures
        is_of_class(ahead + a, "git-force-push"@) <==> is_of_class(ahead + b, "git-force-push"@),
{
    if is_of_class(ahead + a, "git-force-push"@) {
        lemma_force_in_any_order(ahead, a, b);
    }
    if is_of_class(ahead + b, "git-force-push"@) {
        lemma_force_in_any_order(ahead, b, a);
    }
}

proof fn lemma_force_in_any_order(ahead: Seq<Seq<char>>, a: Seq<Seq<char>>, b: Seq<Seq<char>>)
    requires
        ahead.len() > 1,
        ahead.last() == "push"@,
        a.to_multiset() == b.to_multiset(),
        is_of_class(ahead + a, "git-force-push"@),
    ensures
        is_of_class(ahead + b, "git-force-push"@),
{
    broadcast use vstd::seq_lib::group_to_multiset_ensures;

    lemma_class_names();
    let f = |t: Seq<char>| is_force_word(t);
    let x = ahead + a;
    let y = ahead + b;
    let p = choose|p: int|
        1 <= p < x.len() && #[trigger] x[p] == "push"@ && some_word(x, p + 1, f);
    let q = choose|q: int| p + 1 <= q < x.len() && f(#[trigger] x[q]);
    let last = ahead.len() - 1;
    if q < ahead.len() {
        assert(y[p] == "push"@);
        assert(f(y[q]));
        assert(some_word(y, p + 1, f));
    } else {
        let w = x[q];
        assert(a[q - ahead.len()] == w);
        assert(a.to_multiset().count(w) > 0);
        let k = b.index_of(w);
        assert(y[ahead.len() + k] == w);
        assert(f(y[ahead.len() + k]));
        assert(y[last] == "push"@);
        assert(some_word(y, last + 1, f));
    }
}

} // verus!
