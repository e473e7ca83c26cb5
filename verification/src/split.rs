//! Cutting text into pieces, lines and words, and joining pieces again.
use vstd::prelude::*;

use crate::text::{chars_of, string_of, views};

verus! {

/// The characters at which a text is cut.
#[derive(Clone, Copy, PartialEq, Eq, Structural)]
pub enum Cut {
    /// One given character.
    At(char),
    /// A path separator, `/` or `\`.
    Slashes,
    /// Every character but the ASCII letters and digits.
    NonAlphanumeric,
}

/// An ASCII letter or digit.
pub open spec fn is_alnum(c: char) -> bool {
    ('a' <= c && c <= 'z') || ('A' <= c && c <= 'Z') || ('0' <= c && c <= '9')
}

/// Tests for an ASCII letter or digit.
pub fn alnum(c: char) -> (r: bool)
    ensures
        r == is_alnum(c),
{
    ('a' <= c && c <= 'z') || ('A' <= c && c <= 'Z') || ('0' <= c && c <= '9')
}

impl Cut {
    /// Whether a text is cut at `c`.
    pub open spec fn cuts(self, c: char) -> bool {
        match self {
            Cut::At(x) => c == x,
            Cut::Slashes => c == '/' || c == '\\',
            Cut::NonAlphanumeric => !is_alnum(c),
        }
    }

    fn test(&self, c: char) -> (r: bool)
        ensures
            r == self.cuts(c),
    {
        match self {
            Cut::At(x) => c == *x,
            Cut::Slashes => c == '/' || c == '\\',
            Cut::NonAlphanumeric => !alnum(c),
        }
    }
}

/// The pieces between the cuts, in order: one more than there are cuts, empty
/// pieces among them.
pub open spec fn pieces(s: Seq<char>, cut: Cut) -> Seq<Seq<char>>
    decreases s.len(),
{
    if s.len() == 0 {
        seq![Seq::<char>::empty()]
    } else {
        let before = pieces(s.drop_last(), cut);
        if cut.cuts(s.last()) {
            before.push(Seq::<char>::empty())
        } else {
            before.drop_last().push(before.last().push(s.last()))
        }
    }
}

/// There is always at least one piece.
pub proof fn lemma_pieces_nonempty(s: Seq<char>, cut: Cut)
    ensures
        pieces(s, cut).len() >= 1,
    decreases s.len(),
{
    if s.len() > 0 {
        lemma_pieces_nonempty(s.drop_last(), cut);
    }
}

/// Cuts a text into pieces.
pub fn split(s: &str, cut: Cut) -> (out: Vec<String>)
    ensures
        views(out@) == pieces(s@, cut),
        out@.len() >= 1,
{
    let v = chars_of(s);
    let mut out: Vec<String> = Vec::new();
    let mut cur: String = String::new();
    proof {
        assert(views(out@).push(cur@) =~= pieces(s@.take(0), cut));
    }
    for i in 0..v.len()
        invariant
            v@ == s@,
            views(out@).push(cur@) == pieces(s@.take(i as int), cut),
    {
        proof {
            assert(s@.take(i + 1).drop_last() =~= s@.take(i as int));
        }
        let c = v[i];
        let ghost before = views(out@).push(cur@);
        if cut.test(c) {
            let ghost out0 = out@;
            out.push(cur);
            cur = String::new();
            proof {
                assert(views(out@) =~= before);
            }
        } else {
            cur.push(c);
            proof {
                assert(before.drop_last() =~= views(out@));
            }
        }
        proof {
            assert(views(out@).push(cur@) =~= pieces(s@.take(i + 1), cut));
        }
    }
    proof {
        assert(s@.take(s@.len() as int) =~= s@);
    }
    let ghost out0 = out@;
    out.push(cur);
    proof {
        assert(views(out@) =~= views(out0).push(cur@));
    }
    out
}

/// The ASCII white space: space, tab, line feed, form feed, carriage return.
pub open spec fn is_ascii_space(c: char) -> bool {
    let n = c as u32;
    n == 32 || n == 9 || n == 10 || n == 12 || n == 13
}

fn ascii_space(c: char) -> (r: bool)
    ensures
        r == is_ascii_space(c),
{
    let n: u32 = c as u32;
    n == 32 || n == 9 || n == 10 || n == 12 || n == 13
}

/// The maximal runs of characters that are not ASCII white space, in order.
pub open spec fn words(s: Seq<char>) -> Seq<Seq<char>>
    decreases s.len(),
{
    if s.len() == 0 {
        Seq::<Seq<char>>::empty()
    } else {
        let before = words(s.drop_last());
        let c = s.last();
        if is_ascii_space(c) {
            before
        } else if s.len() == 1 || is_ascii_space(s[s.len() - 2]) {
            before.push(seq![c])
        } else {
            before.drop_last().push(before.last().push(c))
        }
    }
}

/// Cuts a text into the words between ASCII white space.
pub fn split_words(s: &Vec<char>, from: usize, to: usize) -> (out: Vec<String>)
    requires
        from <= to <= s@.len(),
    ensures
        views(out@) == words(s@.subrange(from as int, to as int)),
{
    let ghost t = s@.subrange(from as int, to as int);
    let mut out: Vec<String> = Vec::new();
    let mut cur: String = String::new();
    let mut open: bool = false;
    proof {
        assert(views(out@) =~= words(t.take(0)));
    }
    for i in from..to
        invariant
            from <= to <= s@.len(),
            t == s@.subrange(from as int, to as int),
            open ==> i > from && !is_ascii_space(s@[i - 1]),
            !open ==> i == from || is_ascii_space(s@[i - 1]),
            open ==> views(out@).push(cur@) == words(t.take(i - from)),
            !open ==> views(out@) == words(t.take(i - from)) && cur@.len() == 0,
    {
        proof {
            assert(t.take(i + 1 - from).drop_last() =~= t.take(i - from));
            if i > from {
                assert(t.take(i + 1 - from)[i - from - 1] == s@[i - 1]);
            }
        }
        let c = s[i];
        let ghost out0 = out@;
        let ghost cur0 = cur@;
        if ascii_space(c) {
            if open {
                out.push(cur);
                cur = String::new();
                open = false;
                proof {
                    assert(views(out@) =~= views(out0).push(cur0));
                }
            }
        } else {
            cur.push(c);
            proof {
                if open {
                    let before = words(t.take(i - from));
                    assert(before.drop_last() =~= views(out0));
                    assert(views(out@).push(cur@) =~= words(t.take(i + 1 - from)));
                } else {
                    assert(cur@ =~= seq![c]);
                    assert(views(out@).push(cur@) =~= words(t.take(i + 1 - from)));
                }
            }
            open = true;
        }
    }
    proof {
        assert(t.take(to - from) =~= t);
    }
    if open {
        let ghost out0 = out@;
        let ghost cur0 = cur@;
        out.push(cur);
        proof {
            assert(views(out@) =~= views(out0).push(cur0));
        }
    }
    out
}

/// `s` without a carriage return at its end.
pub open spec fn strip_cr(s: Seq<char>) -> Seq<char> {
    if s.len() > 0 && s.last() == '\r' {
        s.drop_last()
    } else {
        s
    }
}

/// `s` without the carriage returns at its end.
pub open spec fn without_returns(s: Seq<char>) -> Seq<char>
    decreases s.len(),
{
    if s.len() > 0 && s.last() == '\r' {
        without_returns(s.drop_last())
    } else {
        s
    }
}

/// The lines of a text. A line ends with a line feed, or with a carriage
/// return and a line feed; the last line need not end so.
pub open spec fn lines_of(s: Seq<char>) -> Seq<Seq<char>> {
    let p = pieces(s, Cut::At('\n'));
    let n = if p.last().len() == 0 {
        (p.len() - 1) as nat
    } else {
        p.len()
    };
    Seq::new(
        n,
        |i: int|
            if i < p.len() - 1 {
                strip_cr(p[i])
            } else {
                p[i]
            },
    )
}

/// Text without a line feed goes to the last piece.
pub proof fn lemma_pieces_extend(s: Seq<char>, t: Seq<char>)
    requires
        !t.contains('\n'),
    ensures
        pieces(s + t, Cut::At('\n')) == pieces(s, Cut::At('\n')).drop_last().push(
            pieces(s, Cut::At('\n')).last() + t,
        ),
    decreases t.len(),
{
    let cut = Cut::At('\n');
    let p = pieces(s, cut);
    lemma_pieces_nonempty(s, cut);
    if t.len() == 0 {
        assert(s + t =~= s);
        assert(p.last() + t =~= p.last());
        assert(p.drop_last().push(p.last()) =~= p);
    } else {
        let t0 = t.drop_last();
        assert(t.last() != '\n') by {
            assert(t[t.len() - 1] == t.last());
        }
        assert(!t0.contains('\n')) by {
            if t0.contains('\n') {
                let k = t0.index_of('\n');
                assert(t[k] == '\n');
            }
        }
        lemma_pieces_extend(s, t0);
        assert((s + t).drop_last() =~= s + t0);
        let q = pieces(s + t0, cut);
        assert(q.drop_last() =~= p.drop_last());
        assert(q.last().push(t.last()) =~= p.last() + t);
    }
}

/// No piece between line feeds holds a line feed.
proof fn lemma_pieces_hold_no_feed(s: Seq<char>, i: int)
    requires
        0 <= i < pieces(s, Cut::At('\n')).len(),
    ensures
        !pieces(s, Cut::At('\n'))[i].contains('\n'),
    decreases s.len(),
{
    let cut = Cut::At('\n');
    let p = pieces(s, cut);
    if s.len() > 0 {
        let before = pieces(s.drop_last(), cut);
        lemma_pieces_nonempty(s.drop_last(), cut);
        if i < before.len() {
            lemma_pieces_hold_no_feed(s.drop_last(), i);
            if s.last() != '\n' && i == before.len() - 1 {
                let old_piece = before.last();
                if p[i].contains('\n') {
                    let k = p[i].index_of('\n');
                    assert(k < old_piece.len());
                    assert(old_piece[k] == '\n');
                }
            }
        }
    }
}

/// No line holds a line feed.
pub proof fn lemma_lines_hold_no_feed(s: Seq<char>, i: int)
    requires
        0 <= i < lines_of(s).len(),
    ensures
        !lines_of(s)[i].contains('\n'),
{
    let p = pieces(s, Cut::At('\n'));
    lemma_pieces_hold_no_feed(s, i);
    let l = lines_of(s)[i];
    if l.contains('\n') {
        let k = l.index_of('\n');
        assert(p[i][k] == '\n');
    }
}

/// A line put behind a text and a line feed is the last line; what stands before it
/// is cut into the pieces that it was cut into, each of which is now a whole line.
pub proof fn lemma_line_behind(s: Seq<char>, l: Seq<char>)
    requires
        l.len() > 0,
        !l.contains('\n'),
    ensures
        lines_of(s + "\n"@ + l) == pieces(s, Cut::At('\n')).map_values(
            |piece: Seq<char>| strip_cr(piece),
        ).push(l),
{
    reveal_strlit("\n");
    let cut = Cut::At('\n');
    let p = pieces(s, cut);
    lemma_pieces_nonempty(s, cut);
    let t = s + "\n"@;
    assert(t.drop_last() =~= s);
    assert(pieces(t, cut) =~= p.push(Seq::<char>::empty()));
    lemma_pieces_extend(t, l);
    assert(Seq::<char>::empty() + l =~= l);
    assert(pieces(t + l, cut) =~= p.push(l));
    assert(lines_of(t + l) =~= p.map_values(|piece: Seq<char>| strip_cr(piece)).push(l));
}

fn without_cr(s: &String) -> (out: String)
    ensures
        out@ == strip_cr(s@),
{
    let mut v = chars_of(s.as_str());
    let n: usize = v.len();
    if n > 0 && v[n - 1] == '\r' {
        v.pop();
        proof {
            assert(v@ =~= s@.drop_last());
        }
    }
    string_of(&v)
}

/// Cuts a text into its lines.
pub fn lines(s: &str) -> (out: Vec<String>)
    ensures
        views(out@) == lines_of(s@),
{
    let p = split(s, Cut::At('\n'));
    let mut out: Vec<String> = Vec::new();
    let last: usize = p.len() - 1;
    for i in 0..last
        invariant
            last == p@.len() - 1,
            out@.len() == i,
            forall|k: int| 0 <= k < i ==> (#[trigger] out@[k])@ == strip_cr(p@[k]@),
    {
        out.push(without_cr(&p[i]));
    }
    let ghost pv = pieces(s@, Cut::At('\n'));
    proof {
        assert forall|k: int| 0 <= k < p@.len() implies pv[k] == (#[trigger] p@[k])@ by {
            assert(views(p@)[k] == p@[k]@);
        }
        assert(pv.last() == p@[last as int]@);
    }
    let tail = p[last].clone();
    if chars_of(tail.as_str()).len() > 0 {
        out.push(tail);
    }
    proof {
        assert(views(out@) =~= lines_of(s@));
    }
    out
}

/// The parts one after the other, with `sep` between each two.
pub open spec fn joined(parts: Seq<Seq<char>>, sep: Seq<char>) -> Seq<char>
    decreases parts.len(),
{
    if parts.len() == 0 {
        Seq::<char>::empty()
    } else if parts.len() == 1 {
        parts[0]
    } else {
        joined(parts.drop_last(), sep) + sep + parts.last()
    }
}

/// Joins parts with `sep` between each two.
pub fn join(parts: &Vec<String>, sep: &str) -> (out: String)
    ensures
        out@ == joined(views(parts@), sep@),
{
    let mut out: String = String::new();
    let ghost pv = views(parts@);
    for i in 0..parts.len()
        invariant
            pv == views(parts@),
            out@ == joined(pv.take(i as int), sep@),
    {
        proof {
            assert(pv.take(i + 1).drop_last() =~= pv.take(i as int));
            assert(pv.take(i + 1).last() == parts@[i as int]@);
        }
        if i > 0 {
            out.append(sep);
        }
        let ghost mid = out@;
        out.append(parts[i].as_str());
        proof {
            if i == 0 {
                assert(out@ =~= parts@[0]@);
            }
        }
    }
    proof {
        assert(pv.take(pv.len() as int) =~= pv);
    }
    out
}

/// An ASCII capital as its small letter, every other character as it is.
pub open spec fn lower_char(c: char) -> char {
    if 'A' <= c && c <= 'Z' {
        ((c as u8) + 32) as char
    } else {
        c
    }
}

/// `s` with its ASCII capitals as small letters.
pub open spec fn lowered(s: Seq<char>) -> Seq<char> {
    Seq::new(s.len(), |i: int| lower_char(s[i]))
}

/// Turns ASCII capitals into small letters.
pub fn ascii_lowercase(s: &str) -> (out: String)
    ensures
        out@ == lowered(s@),
{
    let v = chars_of(s);
    let mut out: String = String::new();
    for i in 0..v.len()
        invariant
            v@ == s@,
            out@ == lowered(s@).take(i as int),
    {
        let c = v[i];
        let d: char = if 'A' <= c && c <= 'Z' {
            let b: u8 = c as u8;
            (b + 32) as char
        } else {
            c
        };
        out.push(d);
        proof {
            assert(lowered(s@).take(i + 1) =~= lowered(s@).take(i as int).push(lowered(s@)[i as int]));
        }
    }
    proof {
        assert(lowered(s@).take(s@.len() as int) =~= lowered(s@));
    }
    out
}

/// A character as it stands in a single line: line feeds, carriage returns and
/// tabs are spaces.
pub open spec fn flat_char(c: char) -> char {
    if c == '\n' || c == '\r' || c == '\t' {
        ' '
    } else {
        c
    }
}

/// `s` on a single line.
pub open spec fn flat(s: Seq<char>) -> Seq<char> {
    Seq::new(s.len(), |i: int| flat_char(s[i]))
}

/// Puts a text on a single line: line feeds, carriage returns and tabs become
/// spaces, so that a command can never break a list row.
pub fn one_line(s: &str) -> (out: String)
    ensures
        out@ == flat(s@),
{
    let mut out: String = String::new();
    let v = chars_of(s);
    for i in 0..v.len()
        invariant
            v@ == s@,
            out@ == flat(s@).take(i as int),
    {
        let c = v[i];
        if c == '\n' || c == '\r' || c == '\t' {
            out.push(' ');
        } else {
            out.push(c);
        }
        proof {
            assert(flat(s@).take(i + 1) =~= flat(s@).take(i as int).push(flat(s@)[i as int]));
        }
    }
    proof {
        assert(flat(s@).take(s@.len() as int) =~= flat(s@));
    }
    out
}

// ---------------------------------------------------------------------------
// Laws
// ---------------------------------------------------------------------------

/// A cut parts the pieces: those of the text before it come first, and then those of the
/// text behind it. A text without a cut is one piece.
pub proof fn a_cut_parts_the_pieces(a: Seq<char>, c: char, b: Seq<char>, cut: Cut)
    requires
        cut.cuts(c),
    ensures
        pieces(a.push(c) + b, cut) == pieces(a, cut) + pieces(b, cut),
    decreases b.len(),
{
    let s = a.push(c) + b;
    let p = pieces(a, cut);
    lemma_pieces_nonempty(b, cut);
    if b.len() == 0 {
        assert(s =~= a.push(c));
        assert(s.drop_last() =~= a);
        assert(p.push(Seq::<char>::empty()) =~= p + pieces(b, cut));
    } else {
        let t = b.drop_last();
        a_cut_parts_the_pieces(a, c, t, cut);
        lemma_pieces_nonempty(t, cut);
        assert(s.drop_last() =~= a.push(c) + t);
        assert(s.last() == b.last());
        let q = pieces(t, cut);
        assert((p + q).last() == q.last());
        assert((p + q).drop_last() =~= p + q.drop_last());
        assert(pieces(s, cut) =~= p + pieces(b, cut));
    }
}

/// A text without a cut is one piece.
pub proof fn uncut_texts_are_one_piece(s: Seq<char>, cut: Cut)
    requires
        forall|i: int| 0 <= i < s.len() ==> !cut.cuts(#[trigger] s[i]),
    ensures
        pieces(s, cut) == seq![s],
    decreases s.len(),
{
    if s.len() > 0 {
        let t = s.drop_last();
        assert forall|i: int| 0 <= i < t.len() implies !cut.cuts(#[trigger] t[i]) by {
            assert(t[i] == s[i]);
        }
        uncut_texts_are_one_piece(t, cut);
        assert(!cut.cuts(s[s.len() - 1]));
        assert(t.push(s.last()) =~= s);
        assert(pieces(s, cut) =~= seq![s]);
    } else {
        assert(s =~= Seq::<char>::empty());
    }
}

/// What the three ways to cut a text cut at.
pub proof fn cuts_are_what_they_say(c: char, x: char)
    ensures
        Cut::At(x).cuts(c) <==> c == x,
        Cut::Slashes.cuts(c) <==> c == '/' || c == '\\',
        Cut::NonAlphanumeric.cuts(c) <==> !(('a' <= c && c <= 'z') || ('A' <= c && c <= 'Z') || (
        '0' <= c && c <= '9')),
{
}

/// White space parts the words: those of the text before it come first, and then those of
/// the text behind it.
pub proof fn a_space_parts_the_words(a: Seq<char>, c: char, b: Seq<char>)
    requires
        c == ' ' || c == '\t' || c == '\n' || c == '\r' || c as u32 == 12,
    ensures
        words(a.push(c) + b) == words(a) + words(b),
    decreases b.len(),
{
    let s = a.push(c) + b;
    if b.len() == 0 {
        assert(s =~= a.push(c));
        assert(s.drop_last() =~= a);
        assert(words(a) + words(b) =~= words(a));
    } else {
        let t = b.drop_last();
        a_space_parts_the_words(a, c, t);
        assert(s.drop_last() =~= a.push(c) + t);
        assert(s.last() == b.last());
        let q = words(t);
        if b.len() == 1 {
            assert(s[s.len() - 2] == c);
        } else {
            assert(s[s.len() - 2] == b[b.len() - 2]);
        }
        if !is_ascii_space(b.last()) && b.len() > 1 && !is_ascii_space(b[b.len() - 2]) {
            lemma_open_word(t);
            assert((words(a) + q).last() == q.last());
            assert((words(a) + q).drop_last() =~= words(a) + q.drop_last());
        }
        assert(words(s) =~= words(a) + words(b));
    }
}

proof fn lemma_open_word(s: Seq<char>)
    requires
        s.len() > 0,
        !is_ascii_space(s.last()),
    ensures
        words(s).len() > 0,
{
}

proof fn lemma_no_space(c: char)
    requires
        c != ' ' && c != '\t' && c != '\n' && c != '\r' && c as u32 != 12,
    ensures
        !is_ascii_space(c),
{
}

/// A text without white space is one word, unless it is empty.
pub proof fn unspaced_texts_are_one_word(s: Seq<char>)
    requires
        forall|i: int|
            0 <= i < s.len() ==> (#[trigger] s[i]) != ' ' && s[i] != '\t' && s[i] != '\n' && s[i]
                != '\r' && s[i] as u32 != 12,
    ensures
        s.len() > 0 ==> words(s) == seq![s],
        s.len() == 0 ==> words(s).len() == 0,
    decreases s.len(),
{
    if s.len() > 0 {
        let t = s.drop_last();
        assert forall|i: int| 0 <= i < t.len() implies (#[trigger] t[i]) != ' ' && t[i] != '\t'
            && t[i] != '\n' && t[i] != '\r' && t[i] as u32 != 12 by {
            assert(t[i] == s[i]);
        }
        unspaced_texts_are_one_word(t);
        lemma_no_space(s[s.len() - 1]);
        if s.len() > 1 {
            lemma_no_space(s[s.len() - 2]);
        }
        assert(t.push(s.last()) =~= s);
        if s.len() == 1 {
            assert(seq![s.last()] =~= s);
        } else {
            assert(words(t).drop_last() =~= Seq::<Seq<char>>::empty());
        }
        assert(words(s) =~= seq![s]);
    }
}

/// Lines that are written, each with a line feed behind it, are read back as they were.
pub proof fn written_lines_are_read_back(before: Seq<char>, l: Seq<char>)
    requires
        before.len() == 0 || before.last() == '\n',
        !l.contains('\n'),
    ensures
        lines_of(Seq::<char>::empty()).len() == 0,
        l.len() > 0 ==> lines_of(before + l) == lines_of(before).push(l),
        lines_of((before + l).push('\n')) == lines_of(before).push(strip_cr(l)),
{
    let cut = Cut::At('\n');
    let p = pieces(before, cut);
    lemma_pieces_nonempty(before, cut);
    lemma_pieces_extend(before, l);
    assert(p.last().len() == 0);
    assert(p.last() + l =~= l);
    let q = pieces(before + l, cut);
    assert(q =~= p.drop_last().push(l));
    let all = (before + l).push('\n');
    assert(all.drop_last() =~= before + l);
    let r = pieces(all, cut);
    assert(r =~= q.push(Seq::<char>::empty()));
    assert(lines_of(all) =~= lines_of(before).push(strip_cr(l)));
    if l.len() > 0 {
        assert(lines_of(before + l) =~= lines_of(before).push(l));
    }
}

/// A text on one line is as long, has no line feed, carriage return or tab, and is the
/// same but for those, which are spaces.
pub proof fn one_line_texts_break_no_row(s: Seq<char>, i: int)
    requires
        0 <= i < s.len(),
    ensures
        flat(s).len() == s.len(),
        s[i] == '\n' || s[i] == '\r' || s[i] == '\t' ==> flat(s)[i] == ' ',
        s[i] != '\n' && s[i] != '\r' && s[i] != '\t' ==> flat(s)[i] == s[i],
{
}

/// Small letters stand for capitals, and every other character for itself.
pub proof fn lowered_texts_are_small(s: Seq<char>, i: int)
    requires
        0 <= i < s.len(),
    ensures
        lowered(s).len() == s.len(),
        'A' <= s[i] && s[i] <= 'Z' ==> lowered(s)[i] as int == s[i] as int + 32,
        !('A' <= s[i] && s[i] <= 'Z') ==> lowered(s)[i] == s[i],
{
}

/// The parts of a joined text stand in it one behind the other, with the separator
/// between each two.
pub proof fn joined_texts_hold_their_parts(parts: Seq<Seq<char>>, p: Seq<char>, sep: Seq<char>)
    ensures
        joined(Seq::empty(), sep).len() == 0,
        joined(seq![p], sep) == p,
        parts.len() > 0 ==> joined(parts.push(p), sep) == joined(parts, sep) + sep + p,
{
    assert(parts.push(p).drop_last() =~= parts);
}

/// The letters and digits of ASCII are told from all other characters.
pub proof fn letters_and_digits_are_ascii(c: char)
    ensures
        'a' <= c && c <= 'z' ==> is_alnum(c),
        'A' <= c && c <= 'Z' ==> is_alnum(c),
        '0' <= c && c <= '9' ==> is_alnum(c),
        is_alnum(c) ==> '0' <= c && c <= 'z',
        !is_alnum('_') && !is_alnum('-') && !is_alnum('.') && !is_alnum('/') && !is_alnum(' '),
        c > '9' && c < 'A' ==> !is_alnum(c),
        c > 'Z' && c < 'a' ==> !is_alnum(c),
        is_ascii_space(' ') && is_ascii_space('\t') && is_ascii_space('\n') && is_ascii_space('\r'),
        '!' <= c ==> !is_ascii_space(c),
{
}

} // verus!
