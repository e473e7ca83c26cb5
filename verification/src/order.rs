//! The order of strings, and stable sorting.
use vstd::prelude::*;

use crate::text::chars_of;

verus! {

/// Whether `a` stands before `b` in the order of strings, character by
/// character.
pub open spec fn text_lt(a: Seq<char>, b: Seq<char>) -> bool
    decreases a.len(),
{
    if b.len() == 0 {
        false
    } else if a.len() == 0 {
        true
    } else if a[0] != b[0] {
        a[0] < b[0]
    } else {
        text_lt(a.skip(1), b.skip(1))
    }
}

/// The order of strings is total: of two different strings one stands before
/// the other, and not the other way round.
pub proof fn text_lt_total(a: Seq<char>, b: Seq<char>)
    ensures
        text_lt(a, b) ==> !text_lt(b, a),
        text_lt(a, b) || text_lt(b, a) || a == b,
        !text_lt(a, a),
    decreases a.len(),
{
    if a.len() > 0 {
        text_lt_total(a.skip(1), a.skip(1));
    }
    if a.len() > 0 && b.len() > 0 && a[0] == b[0] {
        text_lt_total(a.skip(1), b.skip(1));
        if a.skip(1) == b.skip(1) {
            assert forall|i: int| 0 <= i < a.len() implies a[i] == b[i] by {
                if i > 0 {
                    assert(a.skip(1)[i - 1] == b.skip(1)[i - 1]);
                }
            }
            assert(a.skip(1).len() == b.skip(1).len());
            assert(a =~= b);
        }
    } else if a.len() == 0 && b.len() == 0 {
        assert(a =~= b);
    }
}

/// The order of strings is transitive.
pub proof fn text_lt_transitive(a: Seq<char>, b: Seq<char>, c: Seq<char>)
    requires
        text_lt(a, b),
        text_lt(b, c),
    ensures
        text_lt(a, c),
    decreases a.len(),
{
    if a.len() > 0 && b.len() > 0 && c.len() > 0 && a[0] == b[0] && b[0] == c[0] {
        text_lt_transitive(a.skip(1), b.skip(1), c.skip(1));
    }
}

/// Tests whether `a` stands before `b`.
pub fn text_less(a: &str, b: &str) -> (r: bool)
    ensures
        r == text_lt(a@, b@),
{
    let x = chars_of(a);
    let y = chars_of(b);
    let mut i: usize = 0;
    proof {
        assert(a@.skip(0) =~= a@);
        assert(b@.skip(0) =~= b@);
    }
    while i < x.len() && i < y.len() && x[i] == y[i]
        invariant
            x@ == a@,
            y@ == b@,
            i <= x@.len(),
            i <= y@.len(),
            text_lt(a@, b@) == text_lt(a@.skip(i as int), b@.skip(i as int)),
        decreases x@.len() - i,
    {
        proof {
            assert(a@.skip(i as int).skip(1) =~= a@.skip(i + 1));
            assert(b@.skip(i as int).skip(1) =~= b@.skip(i + 1));
        }
        i = i + 1;
    }
    if i == y.len() {
        false
    } else if i == x.len() {
        true
    } else {
        x[i] < y[i]
    }
}

// ---------------------------------------------------------------------------
// Stable sorting
// ---------------------------------------------------------------------------

/// `t` with `x` put behind every item that does not come after it.
pub open spec fn placed<A>(t: Seq<A>, x: A, lt: spec_fn(A, A) -> bool) -> Seq<A>
    decreases t.len(),
{
    if t.len() == 0 || !lt(x, t.last()) {
        t.push(x)
    } else {
        placed(t.drop_last(), x, lt).push(t.last())
    }
}

/// The items of `s` in the order `lt`; items that `lt` does not tell apart
/// keep the order that they have in `s`.
pub open spec fn sorted_by<A>(s: Seq<A>, lt: spec_fn(A, A) -> bool) -> Seq<A>
    decreases s.len(),
{
    if s.len() == 0 {
        s
    } else {
        placed(sorted_by(s.drop_last(), lt), s.last(), lt)
    }
}

/// Whether `lt` orders its items: nothing comes before itself, and what is not
/// told apart is alike.
pub open spec fn is_order<A>(lt: spec_fn(A, A) -> bool) -> bool {
    &&& forall|a: A| !#[trigger] lt(a, a)
    &&& forall|a: A, b: A| #[trigger] lt(a, b) ==> !lt(b, a)
    &&& forall|a: A, b: A, c: A| #[trigger] lt(a, b) && !lt(c, b) ==> #[trigger] lt(a, c)
}

/// Whether no item of `s` comes before one that stands ahead of it.
pub open spec fn is_sorted<A>(s: Seq<A>, lt: spec_fn(A, A) -> bool) -> bool {
    forall|i: int, j: int| 0 <= i < j < s.len() ==> !lt(#[trigger] s[j], #[trigger] s[i])
}

proof fn lemma_placed<A>(t: Seq<A>, x: A, lt: spec_fn(A, A) -> bool)
    requires
        is_order(lt),
        is_sorted(t, lt),
    ensures
        is_sorted(placed(t, x, lt), lt),
        placed(t, x, lt).to_multiset() =~= t.to_multiset().insert(x),
        placed(t, x, lt).len() == t.len() + 1,
        forall|i: int| #![trigger placed(t, x, lt)[i]]
            0 <= i <= t.len() ==> placed(t, x, lt)[i] == x || t.contains(placed(t, x, lt)[i]),
    decreases t.len(),
{
    broadcast use vstd::seq_lib::group_to_multiset_ensures;

    let p = placed(t, x, lt);
    if t.len() == 0 || !lt(x, t.last()) {
        assert forall|i: int, j: int| 0 <= i < j < p.len() implies !lt(
            #[trigger] p[j],
            #[trigger] p[i],
        ) by {
            if j == t.len() {
                if lt(x, t[i]) {
                    let m = t.last();
                    if i < t.len() - 1 {
                        assert(!lt(t[t.len() - 1], t[i]));
                        // x < t[i] <= m, so x < m.
                        assert(lt(x, t[i]) && !lt(m, t[i]));
                        assert(lt(x, m));
                    }
                }
            }
        }
        assert forall|i: int| #![trigger p[i]] 0 <= i <= t.len() implies p[i] == x || t.contains(
            p[i],
        ) by {
            if i < t.len() {
                assert(t[i] == p[i]);
            }
        }
    } else {
        let u = t.drop_last();
        assert forall|i: int, j: int| 0 <= i < j < u.len() implies !lt(
            #[trigger] u[j],
            #[trigger] u[i],
        ) by {
            assert(u[i] == t[i] && u[j] == t[j]);
        }
        lemma_placed(u, x, lt);
        let q = placed(u, x, lt);
        assert(p == q.push(t.last()));
        assert(t =~= u.push(t.last()));
        assert forall|i: int, j: int| 0 <= i < j < p.len() implies !lt(
            #[trigger] p[j],
            #[trigger] p[i],
        ) by {
            if j == p.len() - 1 {
                assert(p[i] == q[i]);
                if q[i] == x {
                } else {
                    let k = choose|k: int| 0 <= k < u.len() && u[k] == q[i];
                    assert(u[k] == t[k]);
                    assert(!lt(t[t.len() - 1], t[k]));
                }
            } else {
                assert(p[i] == q[i] && p[j] == q[j]);
            }
        }
        assert forall|i: int| #![trigger p[i]] 0 <= i <= t.len() implies p[i] == x || t.contains(
            p[i],
        ) by {
            if i < q.len() {
                assert(p[i] == q[i]);
                if q[i] != x {
                    let k = choose|k: int| 0 <= k < u.len() && u[k] == q[i];
                    assert(t[k] == p[i]);
                }
            } else {
                assert(p[i] == t[t.len() - 1]);
            }
        }
    }
}

/// Sorting keeps every item, and leaves no item before one that it comes after.
pub proof fn sorted_by_sorts<A>(s: Seq<A>, lt: spec_fn(A, A) -> bool)
    requires
        is_order(lt),
    ensures
        is_sorted(sorted_by(s, lt), lt),
        sorted_by(s, lt).to_multiset() =~= s.to_multiset(),
        sorted_by(s, lt).len() == s.len(),
    decreases s.len(),
{
    broadcast use vstd::seq_lib::group_to_multiset_ensures;

    if s.len() > 0 {
        sorted_by_sorts(s.drop_last(), lt);
        lemma_placed(sorted_by(s.drop_last(), lt), s.last(), lt);
        assert(s =~= s.drop_last().push(s.last()));
    }
}

/// Two sorted lists of the same items, of which no two different ones are alike in
/// the order, are the same list.
pub proof fn sorted_lists_are_unique<A>(a: Seq<A>, b: Seq<A>, lt: spec_fn(A, A) -> bool)
    requires
        is_sorted(a, lt),
        is_sorted(b, lt),
        a.to_multiset() == b.to_multiset(),
        forall|i: int, j: int|
            0 <= i < a.len() && 0 <= j < a.len() && !lt(#[trigger] a[i], #[trigger] a[j]) && !lt(
                a[j],
                a[i],
            ) ==> a[i] == a[j],
    ensures
        a == b,
    decreases a.len(),
{
    broadcast use vstd::seq_lib::group_to_multiset_ensures;

    vstd::seq_lib::to_multiset_len(a);
    vstd::seq_lib::to_multiset_len(b);
    if a.len() > 0 {
        let n = a.len() - 1;
        let x = a[n];
        let y = b[n];
        assert(a.to_multiset().count(x) > 0);
        assert(b.to_multiset().count(y) > 0);
        let j = b.index_of(x);
        let i = a.index_of(y);
        assert(a[i] == y && b[j] == x);
        assert(x == y) by {
            if i < n {
                assert(!lt(a[n], a[i]));
            }
            if j < n {
                assert(!lt(b[n], b[j]));
            }
        }
        let u = a.drop_last();
        let v = b.drop_last();
        assert(u =~= a.remove(n));
        assert(v =~= b.remove(n));
        assert forall|p: int, q: int| 0 <= p < q < u.len() implies !lt(
            #[trigger] u[q],
            #[trigger] u[p],
        ) by {
            assert(!lt(a[q], a[p]));
        }
        assert forall|p: int, q: int| 0 <= p < q < v.len() implies !lt(
            #[trigger] v[q],
            #[trigger] v[p],
        ) by {
            assert(!lt(b[q], b[p]));
        }
        assert forall|p: int, q: int|
            0 <= p < u.len() && 0 <= q < u.len() && !lt(#[trigger] u[p], #[trigger] u[q]) && !lt(
                u[q],
                u[p],
            ) implies u[p] == u[q] by {
            assert(!lt(a[p], a[q]) && !lt(a[q], a[p]));
        }
        sorted_lists_are_unique(u, v, lt);
        assert(a =~= u.push(x));
        assert(b =~= v.push(y));
    } else {
        assert(a =~= b);
    }
}

/// Two lists in which nothing stands twice, and which have the same items, have them
/// equally often.
pub proof fn lemma_same_items<A>(a: Seq<A>, b: Seq<A>)
    requires
        a.no_duplicates(),
        b.no_duplicates(),
        forall|x: A| #[trigger] a.contains(x) <==> b.contains(x),
    ensures
        a.to_multiset() == b.to_multiset(),
{
    broadcast use vstd::seq_lib::group_to_multiset_ensures;

    a.lemma_multiset_has_no_duplicates();
    b.lemma_multiset_has_no_duplicates();
    assert forall|x: A| #[trigger] a.to_multiset().count(x) == b.to_multiset().count(x) by {
        assert(a.contains(x) <==> a.to_multiset().count(x) > 0);
        assert(b.contains(x) <==> b.to_multiset().count(x) > 0);
        if a.contains(x) {
            assert(a.to_multiset().contains(x));
            assert(b.to_multiset().contains(x));
        }
    }
    assert(a.to_multiset() =~= b.to_multiset());
}

/// The length of a sorted list is that of the list.
pub proof fn lemma_sorted_len<A>(s: Seq<A>, lt: spec_fn(A, A) -> bool)
    ensures
        sorted_by(s, lt).len() == s.len(),
    decreases s.len(),
{
    if s.len() > 0 {
        lemma_sorted_len(s.drop_last(), lt);
        lemma_placed_len(sorted_by(s.drop_last(), lt), s.last(), lt);
    }
}

proof fn lemma_placed_len<A>(t: Seq<A>, x: A, lt: spec_fn(A, A) -> bool)
    ensures
        placed(t, x, lt).len() == t.len() + 1,
    decreases t.len(),
{
    if !(t.len() == 0 || !lt(x, t.last())) {
        lemma_placed_len(t.drop_last(), x, lt);
    }
}

/// Sorting commutes with a map that keeps the order.
pub proof fn lemma_sorted_map<A, B>(
    s: Seq<A>,
    f: spec_fn(A) -> B,
    lt: spec_fn(A, A) -> bool,
    lt2: spec_fn(B, B) -> bool,
)
    requires
        forall|a: A, b: A| #[trigger] lt(a, b) == lt2(f(a), f(b)),
    ensures
        sorted_by(s, lt).map_values(f) == sorted_by(s.map_values(f), lt2),
    decreases s.len(),
{
    if s.len() > 0 {
        let t = s.drop_last();
        lemma_sorted_map(t, f, lt, lt2);
        lemma_placed_map(sorted_by(t, lt), s.last(), f, lt, lt2);
        assert(s.map_values(f).drop_last() =~= t.map_values(f));
        assert(s.map_values(f).last() == f(s.last()));
    } else {
        assert(s.map_values(f) =~= Seq::<B>::empty());
        assert(sorted_by(s, lt) == s);
    }
}

proof fn lemma_placed_map<A, B>(
    t: Seq<A>,
    x: A,
    f: spec_fn(A) -> B,
    lt: spec_fn(A, A) -> bool,
    lt2: spec_fn(B, B) -> bool,
)
    requires
        forall|a: A, b: A| #[trigger] lt(a, b) == lt2(f(a), f(b)),
    ensures
        placed(t, x, lt).map_values(f) == placed(t.map_values(f), f(x), lt2),
    decreases t.len(),
{
    let m = t.map_values(f);
    if t.len() == 0 || !lt(x, t.last()) {
        if t.len() > 0 {
            assert(m.last() == f(t.last()));
            assert(lt(x, t.last()) == lt2(f(x), f(t.last())));
        }
        assert(t.push(x).map_values(f) =~= m.push(f(x)));
    } else {
        assert(m.last() == f(t.last()));
        assert(lt(x, t.last()) == lt2(f(x), f(t.last())));
        lemma_placed_map(t.drop_last(), x, f, lt, lt2);
        assert(m.drop_last() =~= t.drop_last().map_values(f));
        assert(placed(t, x, lt).map_values(f) =~= placed(t.drop_last(), x, lt).map_values(f).push(
            f(t.last()),
        ));
    }
}

/// Items with an order of their own.
pub trait Ordered: Sized {
    /// Whether `a` comes before `b`.
    spec fn before(a: Self, b: Self) -> bool;

    /// Tests whether `self` comes before `other`.
    fn comes_before(&self, other: &Self) -> (r: bool)
        ensures
            r == Self::before(*self, *other),
    ;
}

/// The order of the items of a type.
pub open spec fn own_order<T: Ordered>() -> spec_fn(T, T) -> bool {
    |a: T, b: T| T::before(a, b)
}

fn place<T: Ordered>(v: &mut Vec<T>, x: T)
    ensures
        final(v)@ == placed(old(v)@, x, own_order::<T>()),
{
    let ghost s = v@;
    let ghost lt = own_order::<T>();
    let mut k: usize = v.len();
    proof {
        assert(s.take(k as int) =~= s);
        assert(s.skip(k as int) =~= Seq::<T>::empty());
        assert(placed(s, x, lt) =~= placed(s.take(k as int), x, lt) + s.skip(k as int));
    }
    while k > 0 && x.comes_before(&v[k - 1])
        invariant
            k <= v@.len(),
            v@ == s,
            lt == own_order::<T>(),
            placed(s, x, lt) == placed(s.take(k as int), x, lt) + s.skip(k as int),
        decreases k,
    {
        proof {
            let t = s.take(k as int);
            assert(t.last() == s[k - 1]);
            assert(t.drop_last() =~= s.take(k - 1));
            assert(placed(s, x, lt) =~= placed(s.take(k - 1), x, lt) + s.skip(k - 1));
        }
        k = k - 1;
    }
    proof {
        let t = s.take(k as int);
        if k > 0 {
            assert(t.last() == s[k - 1]);
        }
        assert(placed(t, x, lt) == t.push(x));
        assert(s.insert(k as int, x) =~= t.push(x) + s.skip(k as int));
    }
    v.insert(k, x);
}

/// Sorts a list; items that their order does not tell apart keep their places.
pub fn sort<T: Ordered>(v: Vec<T>) -> (out: Vec<T>)
    ensures
        out@ == sorted_by(v@, own_order::<T>()),
{
    let ghost s = v@;
    let mut out: Vec<T> = Vec::new();
    proof {
        assert(s.take(0) =~= Seq::<T>::empty());
    }
    for x in it: v
        invariant
            it.seq() == s,
            out@ == sorted_by(s.take(it.index() as int), own_order::<T>()),
    {
        proof {
            let i = it.index() as int;
            assert(s.take(i + 1).drop_last() =~= s.take(i));
            assert(s.take(i + 1).last() == s[i]);
        }
        place(&mut out, x);
    }
    proof {
        assert(s.take(s.len() as int) =~= s);
    }
    out
}

/// Of two texts that part at `k`, the one with the smaller character there stands before
/// the other; a text stands before every longer one that begins with it.
pub proof fn texts_go_by_where_they_part(a: Seq<char>, b: Seq<char>, k: int)
    requires
        0 <= k <= a.len(),
        k <= b.len(),
        forall|i: int| 0 <= i < k ==> #[trigger] a[i] == b[i],
    ensures
        k < a.len() && k < b.len() && a[k] != b[k] ==> (text_lt(a, b) <==> a[k] < b[k]),
        k == a.len() ==> (text_lt(a, b) <==> k < b.len()),
    decreases k,
{
    if k > 0 {
        let s = a.skip(1);
        let t = b.skip(1);
        assert(a[0] == b[0]);
        assert forall|i: int| 0 <= i < k - 1 implies #[trigger] s[i] == t[i] by {
            assert(a[i + 1] == b[i + 1]);
        }
        texts_go_by_where_they_part(s, t, k - 1);
    }
}

/// The order of strings is an order.
pub proof fn text_lt_is_an_order()
    ensures
        is_order(|a: Seq<char>, b: Seq<char>| text_lt(a, b)),
{
    let lt = |a: Seq<char>, b: Seq<char>| text_lt(a, b);
    assert forall|a: Seq<char>| !#[trigger] lt(a, a) by {
        text_lt_total(a, a);
    }
    assert forall|a: Seq<char>, b: Seq<char>| #[trigger] lt(a, b) implies !lt(b, a) by {
        text_lt_total(a, b);
    }
    assert forall|a: Seq<char>, b: Seq<char>, c: Seq<char>| #[trigger]
        lt(a, b) && !lt(c, b) implies #[trigger] lt(a, c) by {
        text_lt_total(b, c);
        if text_lt(b, c) {
            text_lt_transitive(a, b, c);
        }
    }
}

} // verus!
