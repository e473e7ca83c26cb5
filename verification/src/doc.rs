//! Documents as lists of lines.
use vstd::prelude::*;

use crate::text::views;

verus! {

/// The text of a list of lines, each ended by a line feed.
pub open spec fn lines_text(all: Seq<Seq<char>>) -> Seq<char>
    decreases all.len(),
{
    if all.len() == 0 {
        Seq::<char>::empty()
    } else {
        lines_text(all.drop_last()) + all.last() + "\n"@
    }
}

/// Writes lines one below the other.
pub fn render_lines(all: &Vec<String>) -> (out: String)
    ensures
        out@ == lines_text(views(all@)),
{
    let ghost av = views(all@);
    let mut out: String = String::new();
    for i in 0..all.len()
        invariant
            av == views(all@),
            out@ == lines_text(av.take(i as int)),
    {
        proof {
            assert(av.take(i + 1).drop_last() =~= av.take(i as int));
            assert(av.take(i + 1).last() == all@[i as int]@);
        }
        out.append(all[i].as_str());
        out.append("\n");
    }
    proof {
        assert(av.take(av.len() as int) =~= av);
    }
    out
}

/// Puts a line behind the others.
pub fn line(all: &mut Vec<String>, s: &str)
    ensures
        views(final(all)@) == views(old(all)@).push(s@),
{
    let ghost v0 = views(all@);
    all.push(s.to_owned());
    proof {
        assert(views(all@) =~= v0.push(s@));
    }
}

/// Puts a line of its own behind the others.
pub fn own_line(all: &mut Vec<String>, s: String)
    ensures
        views(final(all)@) == views(old(all)@).push(s@),
{
    let ghost v0 = views(all@);
    all.push(s);
    proof {
        assert(views(all@) =~= v0.push(s@));
    }
}

/// Puts lines behind the others.
pub fn add_lines(all: &mut Vec<String>, more: Vec<String>)
    ensures
        views(final(all)@) == views(old(all)@) + views(more@),
{
    let ghost v0 = views(all@);
    let ghost m = more@;
    for s in it: more
        invariant
            it.seq() == m,
            views(all@) == v0 + views(m).take(it.index() as int),
    {
        let ghost b = views(all@);
        all.push(s);
        proof {
            assert(views(all@) =~= b.push(s@));
            assert(views(m).take(it.index() + 1) =~= views(m).take(it.index() as int).push(s@));
            assert(v0 + views(m).take(it.index() + 1) =~= (v0 + views(m).take(
                it.index() as int,
            )).push(s@));
        }
    }
    proof {
        assert(views(m).take(m.len() as int) =~= views(m));
    }
}

/// The empty list of lines.
pub fn no_lines() -> (out: Vec<String>)
    ensures
        views(out@) == Seq::<Seq<char>>::empty(),
{
    let out: Vec<String> = Vec::new();
    proof {
        assert(views(out@) =~= Seq::<Seq<char>>::empty());
    }
    out
}

/// The lines of one document stand in the text of every document that holds
/// them.
pub proof fn lines_text_append(a: Seq<Seq<char>>, b: Seq<Seq<char>>)
    ensures
        lines_text(a + b) == lines_text(a) + lines_text(b),
    decreases b.len(),
{
    if b.len() == 0 {
        assert(a + b =~= a);
        assert(lines_text(a) + lines_text(b) =~= lines_text(a));
    } else {
        lines_text_append(a, b.drop_last());
        assert((a + b).drop_last() =~= a + b.drop_last());
        assert((a + b).last() == b.last());
        assert(lines_text(a + b) =~= lines_text(a) + lines_text(b));
    }
}

/// A document is its lines one below the other, each ended by a line feed.
pub proof fn documents_are_their_lines(all: Seq<Seq<char>>, l: Seq<char>)
    ensures
        lines_text(all.push(l)) == lines_text(all) + l.push('\n'),
        lines_text(Seq::empty()).len() == 0,
{
    reveal_strlit("\n");
    assert(all.push(l).drop_last() =~= all);
    assert(lines_text(all) + l + "\n"@ =~= lines_text(all) + l.push('\n'));
}

} // verus!
