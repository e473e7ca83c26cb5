//! Shell command lines cut at their operators.
use vstd::prelude::*;

use crate::split::{split_words, words};
use crate::text::{chars_of, views};

verus! {

/// The operator that joins two parts of a command line. Only a plain pipe is
/// told apart.
#[derive(Clone, Copy, PartialEq, Eq, Structural, Debug)]
pub enum Sep {
    /// A single `|`.
    Pipe,
    /// Any other separator: `&&`, `||`, `;` or a line end.
    Other,
}

/// The separator that stands in `s` at `i`, with its length.
pub open spec fn sep_at(s: Seq<char>, i: int) -> Option<(Sep, int)> {
    let twice = i + 1 < s.len() && s[i + 1] == s[i];
    if !(0 <= i < s.len()) {
        None
    } else if s[i] == '|' {
        if twice {
            Some((Sep::Other, 2))
        } else {
            Some((Sep::Pipe, 1))
        }
    } else if s[i] == '&' && twice {
        Some((Sep::Other, 2))
    } else if s[i] == ';' || s[i] == '\n' || s[i] == '\r' {
        Some((Sep::Other, 1))
    } else {
        None
    }
}

/// The position of the first separator in `s` at `i` or behind it, or the
/// length of `s`.
pub open spec fn next_sep(s: Seq<char>, i: int) -> int
    decreases s.len() - i,
{
    if i >= s.len() || sep_at(s, i) is Some {
        i
    } else {
        next_sep(s, i + 1)
    }
}

/// One part of a command line: the operator that joins it to the part before,
/// none for the first, and its words.
pub ghost struct SegmentV {
    pub join: Option<Sep>,
    pub tokens: Seq<Seq<char>>,
}

/// The parts of the command line `s` from position `start` on; `join` is the
/// operator before that position.
pub open spec fn segments_from(s: Seq<char>, start: int, join: Option<Sep>) -> Seq<SegmentV>
    decreases s.len() - start,
{
    let k = next_sep(s, start);
    if start <= k && sep_at(s, k) is Some {
        let (sep, len) = sep_at(s, k)->0;
        seq![SegmentV { join, tokens: words(s.subrange(start, k)) }] + segments_from(
            s,
            k + len,
            Some(sep),
        )
    } else {
        seq![SegmentV { join, tokens: words(s.subrange(start, s.len() as int)) }]
    }
}

/// The parts of a command line.
pub open spec fn segments_of(s: Seq<char>) -> Seq<SegmentV> {
    segments_from(s, 0, None)
}

proof fn lemma_next_sep(s: Seq<char>, i: int, k: int)
    requires
        0 <= i <= k <= s.len(),
        forall|j: int| i <= j < k ==> sep_at(s, j) is None,
        k < s.len() ==> sep_at(s, k) is Some,
    ensures
        next_sep(s, i) == k,
    decreases k - i,
{
    if i < k {
        assert(sep_at(s, i) is None);
        lemma_next_sep(s, i + 1, k);
    }
}

/// One part of a command line.
pub struct Segment {
    /// The operator that joins it to the part before, none for the first.
    pub join: Option<Sep>,
    /// Its words.
    pub tokens: Vec<String>,
}

impl View for Segment {
    type V = SegmentV;

    open spec fn view(&self) -> SegmentV {
        SegmentV { join: self.join, tokens: views(self.tokens@) }
    }
}

/// The contents of a list of parts.
pub open spec fn segment_views(v: Seq<Segment>) -> Seq<SegmentV> {
    v.map_values(|s: Segment| s@)
}

fn separator(s: &Vec<char>, i: usize) -> (r: Option<(Sep, usize)>)
    requires
        i < s@.len(),
    ensures
        match r {
            Some((sep, len)) => sep_at(s@, i as int) == Some((sep, len as int)) && i + len
                <= s@.len(),
            None => sep_at(s@, i as int) is None,
        },
{
    let n: usize = s.len();
    let c = s[i];
    let twice = i + 1 < n && s[i + 1] == c;
    if c == '|' {
        if twice {
            Some((Sep::Other, 2))
        } else {
            Some((Sep::Pipe, 1))
        }
    } else if c == '&' && twice {
        Some((Sep::Other, 2))
    } else if c == ';' || c == '\n' || c == '\r' {
        Some((Sep::Other, 1))
    } else {
        None
    }
}

/// Cuts a command line at `&&`, `||`, `;`, `|` and line ends.
pub fn split_segments(command: &str) -> (out: Vec<Segment>)
    ensures
        segment_views(out@) == segments_of(command@),
        out@.len() >= 1,
{
    let s = chars_of(command);
    let n: usize = s.len();
    let mut out: Vec<Segment> = Vec::new();
    let mut start: usize = 0;
    let mut i: usize = 0;
    let mut join: Option<Sep> = None;
    proof {
        assert(segment_views(out@) + segments_from(s@, 0, None) =~= segments_of(s@));
    }
    while i < n
        invariant
            n == s@.len(),
            s@ == command@,
            start <= i <= n,
            forall|j: int| start <= j < i ==> sep_at(s@, j) is None,
            segment_views(out@) + segments_from(s@, start as int, join) == segments_of(s@),
        decreases n - i,
    {
        match separator(&s, i) {
            Some((sep, len)) => {
                proof {
                    lemma_next_sep(s@, start as int, i as int);
                }
                let ghost out0 = out@;
                let tokens = split_words(&s, start, i);
                let seg = Segment { join, tokens };
                let ghost segv = seg@;
                out.push(seg);
                i = i + len;
                proof {
                    assert(segment_views(out@) =~= segment_views(out0).push(segv));
                    assert(segment_views(out@) + segments_from(s@, i as int, Some(sep))
                        =~= segment_views(out0) + segments_from(s@, start as int, join));
                }
                start = i;
                join = Some(sep);
            },
            None => {
                i = i + 1;
            },
        }
    }
    proof {
        lemma_next_sep(s@, start as int, n as int);
    }
    let ghost out0 = out@;
    let tokens = split_words(&s, start, n);
    let seg = Segment { join, tokens };
    let ghost segv = seg@;
    out.push(seg);
    proof {
        assert(segment_views(out@) =~= segment_views(out0).push(segv));
        assert(segment_views(out@) =~= segments_of(s@));
    }
    out
}

// ---------------------------------------------------------------------------
// Laws
// ---------------------------------------------------------------------------

/// There is always a first part, and the operator before a command line is told by
/// that part alone.
pub proof fn lemma_first_join(s: Seq<char>, start: int, join: Option<Sep>, other: Option<Sep>)
    ensures
        segments_from(s, start, join).len() >= 1,
        segments_from(s, start, join)[0].join == join,
        segments_from(s, start, other) == segments_from(s, start, join).update(
            0,
            SegmentV { join: other, ..segments_from(s, start, join)[0] },
        ),
{
    let x = segments_from(s, start, join);
    assert(segments_from(s, start, other) =~= x.update(0, SegmentV { join: other, ..x[0] }));
}

/// What stands before a semicolon is no matter to the parts behind it.
proof fn lemma_parts_behind(a: Seq<char>, b: Seq<char>, j: int, join: Option<Sep>)
    requires
        0 <= j <= b.len(),
    ensures
        segments_from(a + ";"@ + b, a.len() + 1 + j, join) == segments_from(b, j, join),
    decreases b.len() - j,
{
    reveal_strlit(";");
    let s = a + ";"@ + b;
    let n = a.len() + 1;
    lemma_sep_behind(a, b, j);
    let k = next_sep(b, j);
    assert(s.subrange(n + j, n + k) =~= b.subrange(j, k));
    assert(s.subrange(n + j, s.len() as int) =~= b.subrange(j, b.len() as int));
    assert(sep_at(s, n + k) == sep_at(b, k));
    if sep_at(b, k) is Some {
        let (sep, len) = sep_at(b, k)->0;
        lemma_parts_behind(a, b, k + len, Some(sep));
    }
}

proof fn lemma_sep_behind(a: Seq<char>, b: Seq<char>, j: int)
    requires
        0 <= j <= b.len(),
    ensures
        j <= next_sep(b, j) <= b.len(),
        next_sep(a + ";"@ + b, a.len() + 1 + j) == a.len() + 1 + next_sep(b, j),
    decreases b.len() - j,
{
    reveal_strlit(";");
    let s = a + ";"@ + b;
    if j < b.len() {
        assert(sep_at(s, a.len() + 1 + j) == sep_at(b, j));
        if sep_at(b, j) is None {
            lemma_sep_behind(a, b, j + 1);
        }
    }
}

proof fn lemma_sep_ahead(a: Seq<char>, b: Seq<char>, i: int)
    requires
        0 <= i <= a.len(),
    ensures
        i <= next_sep(a, i) <= a.len(),
        next_sep(a + ";"@ + b, i) == next_sep(a, i),
    decreases a.len() - i,
{
    reveal_strlit(";");
    let s = a + ";"@ + b;
    if i < a.len() {
        assert(sep_at(s, i) == sep_at(a, i));
        if sep_at(a, i) is None {
            lemma_sep_ahead(a, b, i + 1);
        }
    } else {
        assert(s[i] == ';');
    }
}

proof fn lemma_parts_ahead(a: Seq<char>, b: Seq<char>, i: int, join: Option<Sep>)
    requires
        0 <= i <= a.len(),
    ensures
        segments_from(a + ";"@ + b, i, join) == segments_from(a, i, join) + segments_from(
            b,
            0,
            Some(Sep::Other),
        ),
    decreases a.len() - i,
{
    reveal_strlit(";");
    let s = a + ";"@ + b;
    lemma_sep_ahead(a, b, i);
    let k = next_sep(a, i);
    assert(s.subrange(i, k) =~= a.subrange(i, k));
    let first = seq![SegmentV { join, tokens: words(a.subrange(i, k)) }];
    let behind = segments_from(b, 0, Some(Sep::Other));
    if k < a.len() {
        assert(sep_at(s, k) == sep_at(a, k));
        assert(sep_at(a, k) is Some) by {
            lemma_stops_at_sep(a, i);
        }
        let (sep, len) = sep_at(a, k)->0;
        lemma_parts_ahead(a, b, k + len, Some(sep));
        assert(segments_from(s, i, join) =~= segments_from(a, i, join) + behind);
    } else {
        assert(s[k] == ';');
        assert(sep_at(s, k) == Some((Sep::Other, 1int)));
        lemma_parts_behind(a, b, 0, Some(Sep::Other));
        assert(sep_at(a, k) is None);
        assert(segments_from(a, i, join) =~= first);
        assert(segments_from(s, i, join) =~= first + behind);
    }
}

proof fn lemma_stops_at_sep(s: Seq<char>, i: int)
    ensures
        next_sep(s, i) < s.len() ==> sep_at(s, next_sep(s, i)) is Some,
    decreases s.len() - i,
{
    if i < s.len() && sep_at(s, i) is None {
        lemma_stops_at_sep(s, i + 1);
    }
}

/// The parts of two command lines with a semicolon between them are the parts of the
/// one and then those of the other, whose first part is now joined to what stands
/// before it.
pub proof fn a_semicolon_parts_commands(a: Seq<char>, b: Seq<char>)
    ensures
        segments_of(a + ";"@ + b) == segments_of(a) + segments_of(b).update(
            0,
            SegmentV { join: Some(Sep::Other), ..segments_of(b)[0] },
        ),
{
    lemma_parts_ahead(a, b, 0, None);
    lemma_first_join(b, 0, None, Some(Sep::Other));
}

/// Whether `op`, between `a` and `b`, is an operator of its own: it makes no operator with
/// what stands beside it.
pub open spec fn stands_alone(a: Seq<char>, op: Seq<char>, b: Seq<char>) -> bool {
    ||| op == ";"@ || op == "\n"@ || op == "\r"@
    ||| op == "|"@ && (a.len() > 0 ==> a.last() != '|') && (b.len() > 0 ==> b[0] != '|')
    ||| op == "||"@ && (a.len() > 0 ==> a.last() != '|')
    ||| op == "&&"@ && (a.len() > 0 ==> a.last() != '&')
}

/// Whether the separator in the middle is the operator `op`, and the others are those of
/// the two sides.
spec fn parts_at(a: Seq<char>, op: Seq<char>, b: Seq<char>, sep: Sep) -> bool {
    let s = a + op + b;
    &&& forall|i: int| 0 <= i < a.len() ==> #[trigger] sep_at(s, i) == sep_at(a, i)
    &&& sep_at(s, a.len() as int) == Some((sep, op.len() as int))
    &&& forall|j: int|
        0 <= j <= b.len() ==> sep_at(s, a.len() + op.len() + j) == #[trigger] sep_at(b, j)
}

proof fn lemma_next_behind(a: Seq<char>, op: Seq<char>, b: Seq<char>, sep: Sep, j: int)
    requires
        parts_at(a, op, b, sep),
        0 <= j <= b.len(),
    ensures
        j <= next_sep(b, j) <= b.len(),
        next_sep(a + op + b, a.len() + op.len() + j) == a.len() + op.len() + next_sep(b, j),
    decreases b.len() - j,
{
    if j < b.len() {
        assert(sep_at(a + op + b, a.len() + op.len() + j) == sep_at(b, j));
        if sep_at(b, j) is None {
            lemma_next_behind(a, op, b, sep, j + 1);
        }
    }
}

proof fn lemma_next_ahead(a: Seq<char>, op: Seq<char>, b: Seq<char>, sep: Sep, i: int)
    requires
        parts_at(a, op, b, sep),
        0 <= i <= a.len(),
    ensures
        i <= next_sep(a, i) <= a.len(),
        next_sep(a + op + b, i) == next_sep(a, i),
    decreases a.len() - i,
{
    if i < a.len() {
        assert(sep_at(a + op + b, i) == sep_at(a, i));
        if sep_at(a, i) is None {
            lemma_next_ahead(a, op, b, sep, i + 1);
        }
    }
}

proof fn lemma_segments_behind(
    a: Seq<char>,
    op: Seq<char>,
    b: Seq<char>,
    sep: Sep,
    j: int,
    join: Option<Sep>,
)
    requires
        parts_at(a, op, b, sep),
        0 <= j <= b.len(),
    ensures
        segments_from(a + op + b, a.len() + op.len() + j, join) == segments_from(b, j, join),
    decreases b.len() - j,
{
    let s = a + op + b;
    let n = a.len() + op.len();
    lemma_next_behind(a, op, b, sep, j);
    let k = next_sep(b, j);
    assert(s.subrange(n + j, n + k) =~= b.subrange(j, k));
    assert(s.subrange(n + j, s.len() as int) =~= b.subrange(j, b.len() as int));
    assert(sep_at(s, n + k) == sep_at(b, k));
    if sep_at(b, k) is Some {
        let (x, len) = sep_at(b, k)->0;
        lemma_segments_behind(a, op, b, sep, k + len, Some(x));
    }
}

proof fn lemma_segments_ahead(
    a: Seq<char>,
    op: Seq<char>,
    b: Seq<char>,
    sep: Sep,
    i: int,
    join: Option<Sep>,
)
    requires
        parts_at(a, op, b, sep),
        0 <= i <= a.len(),
    ensures
        segments_from(a + op + b, i, join) == segments_from(a, i, join) + segments_from(
            b,
            0,
            Some(sep),
        ),
    decreases a.len() - i,
{
    let s = a + op + b;
    lemma_next_ahead(a, op, b, sep, i);
    let k = next_sep(a, i);
    assert(s.subrange(i, k) =~= a.subrange(i, k));
    let first = seq![SegmentV { join, tokens: words(a.subrange(i, k)) }];
    let behind = segments_from(b, 0, Some(sep));
    if k < a.len() {
        assert(sep_at(s, k) == sep_at(a, k));
        lemma_stops_at_sep(a, i);
        let (x, len) = sep_at(a, k)->0;
        lemma_segments_ahead(a, op, b, sep, k + len, Some(x));
        assert(segments_from(s, i, join) =~= segments_from(a, i, join) + behind);
    } else {
        lemma_segments_behind(a, op, b, sep, 0, Some(sep));
        assert(sep_at(a, k) is None);
        assert(segments_from(a, i, join) =~= first);
        assert(segments_from(s, i, join) =~= first + behind);
    }
}

/// An operator parts a command line: the parts before it are followed by those behind it,
/// the first of which is joined by a pipe exactly if the operator is a single pipe.
pub proof fn operators_part_commands(a: Seq<char>, op: Seq<char>, b: Seq<char>)
    requires
        stands_alone(a, op, b),
    ensures
        segments_of(a + op + b) == segments_of(a) + segments_of(b).update(
            0,
            SegmentV {
                join: Some(
                    if op == "|"@ {
                        Sep::Pipe
                    } else {
                        Sep::Other
                    },
                ),
                ..segments_of(b)[0]
            },
        ),
        segments_of(b).len() > 0,
        segments_of(a).len() > 0,
{
    reveal_strlit(";");
    reveal_strlit("\n");
    reveal_strlit("\r");
    reveal_strlit("|");
    reveal_strlit("||");
    reveal_strlit("&&");
    let sep = if op == "|"@ {
        Sep::Pipe
    } else {
        Sep::Other
    };
    let s = a + op + b;
    let n = a.len() as int;
    assert("|"@.len() == 1 && "||"@.len() == 2 && "&&"@.len() == 2);
    assert(";"@[0] == ';' && "\n"@[0] == '\n' && "\r"@[0] == '\r' && "|"@[0] == '|');
    assert(s[n] == op[0]);
    assert forall|i: int| 0 <= i < a.len() implies #[trigger] sep_at(s, i) == sep_at(a, i) by {
        assert(s[i] == a[i]);
        if i + 1 < a.len() {
            assert(s[i + 1] == a[i + 1]);
        } else {
            assert(s[i + 1] == op[0]);
            assert(a[i] == a.last());
        }
    }
    assert forall|j: int| 0 <= j <= b.len() implies sep_at(s, a.len() + op.len() + j)
        == #[trigger] sep_at(b, j) by {
        if j < b.len() {
            assert(s[a.len() + op.len() + j] == b[j]);
            if j + 1 < b.len() {
                assert(s[a.len() + op.len() + j + 1] == b[j + 1]);
            }
        }
    }
    assert(sep_at(s, n) == Some((sep, op.len() as int))) by {
        if op.len() == 2 {
            assert(s[n + 1] == op[1]);
        } else if b.len() > 0 {
            assert(s[n + 1] == b[0]);
        }
    }
    lemma_segments_ahead(a, op, b, sep, 0, None);
    lemma_first_join(b, 0, None, Some(sep));
    lemma_first_join(a, 0, None, None);
}

/// A command line without an operator is one part, the words of which are its words.
pub proof fn plain_commands_are_one_part(s: Seq<char>)
    requires
        forall|i: int|
            0 <= i < s.len() ==> (#[trigger] s[i]) != ';' && s[i] != '\n' && s[i] != '\r' && s[i]
                != '|' && (s[i] == '&' && i + 1 < s.len() ==> s[i + 1] != '&'),
    ensures
        segments_of(s) == seq![SegmentV { join: None, tokens: words(s) }],
{
    assert forall|i: int| 0 <= i < s.len() implies sep_at(s, i) is None by {
        assert(s[i] != ';');
    }
    lemma_next_sep(s, 0, s.len() as int);
    assert(s.subrange(0, s.len() as int) =~= s);
    assert(segments_of(s) =~= seq![SegmentV { join: None, tokens: words(s) }]);
}

} // verus!
