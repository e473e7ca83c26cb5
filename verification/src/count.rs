//! How many items of a list have a property.
use vstd::prelude::*;

verus! {

/// The number of items that have a property.
pub open spec fn how_many<A>(s: Seq<A>, p: spec_fn(A) -> bool) -> nat {
    s.filter(p).len()
}

/// One item more counts for one exactly if it has the property.
pub proof fn lemma_how_many<A>(s: Seq<A>, p: spec_fn(A) -> bool)
    ensures
        s.len() == 0 ==> how_many(s, p) == 0,
        s.len() > 0 ==> how_many(s, p) == how_many(s.drop_last(), p) + (if p(s.last()) {
            1nat
        } else {
            0
        }),
{
    reveal(Seq::filter);
}

/// Items of two lists, one behind the other, are counted in each.
pub proof fn lemma_how_many_append<A>(s: Seq<A>, t: Seq<A>, p: spec_fn(A) -> bool)
    ensures
        how_many(s + t, p) == how_many(s, p) + how_many(t, p),
    decreases t.len(),
{
    lemma_how_many(s + t, p);
    lemma_how_many(t, p);
    if t.len() == 0 {
        assert(s + t =~= s);
    } else {
        assert((s + t).drop_last() =~= s + t.drop_last());
        lemma_how_many_append(s, t.drop_last(), p);
    }
}

/// No more items have a property than there are.
pub proof fn lemma_how_many_at_most<A>(s: Seq<A>, p: spec_fn(A) -> bool)
    ensures
        how_many(s, p) <= s.len(),
    decreases s.len(),
{
    lemma_how_many(s, p);
    if s.len() > 0 {
        lemma_how_many_at_most(s.drop_last(), p);
    }
}

/// There is an item with the property exactly if more than none are counted.
pub proof fn lemma_how_many_some<A>(s: Seq<A>, p: spec_fn(A) -> bool)
    ensures
        how_many(s, p) > 0 <==> exists|i: int| 0 <= i < s.len() && p(#[trigger] s[i]),
    decreases s.len(),
{
    lemma_how_many(s, p);
    if s.len() > 0 {
        let t = s.drop_last();
        lemma_how_many_some(t, p);
        if p(s.last()) {
            assert(p(s[s.len() - 1]));
        }
        if how_many(t, p) > 0 {
            let i = choose|i: int| 0 <= i < t.len() && p(#[trigger] t[i]);
            assert(p(s[i]));
        }
        if exists|i: int| 0 <= i < s.len() && p(#[trigger] s[i]) {
            let i = choose|i: int| 0 <= i < s.len() && p(#[trigger] s[i]);
            if i < t.len() {
                assert(p(t[i]));
            }
        }
    }
}

/// Two properties that no item tells apart count alike.
pub proof fn lemma_how_many_alike<A>(
    s: Seq<A>,
    p: spec_fn(A) -> bool,
    q: spec_fn(A) -> bool,
)
    requires
        forall|i: int| 0 <= i < s.len() ==> p(#[trigger] s[i]) == q(s[i]),
    ensures
        how_many(s, p) == how_many(s, q),
    decreases s.len(),
{
    lemma_how_many(s, p);
    lemma_how_many(s, q);
    if s.len() > 0 {
        let t = s.drop_last();
        assert forall|i: int| 0 <= i < t.len() implies p(#[trigger] t[i]) == q(t[i]) by {
            assert(t[i] == s[i]);
        }
        lemma_how_many_alike(t, p, q);
        assert(p(s[s.len() - 1]) == q(s[s.len() - 1]));
    }
}

/// The sum of a number of each item.
pub open spec fn sum_of<A>(s: Seq<A>, f: spec_fn(A) -> int) -> int
    decreases s.len(),
{
    if s.len() == 0 {
        0
    } else {
        sum_of(s.drop_last(), f) + f(s.last())
    }
}

} // verus!
