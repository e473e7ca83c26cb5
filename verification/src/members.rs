//! The members of JSON objects: looking up, setting, removing.
use vstd::prelude::*;

use crate::json::{
    all_set, canonical, canonical_members, find_member, lemma_rank, member, members_view, rank_of,
    set_member, with_member, without_member, Json, JsonV,
};
use crate::order::{text_lt, text_lt_total, text_lt_transitive};

verus! {

/// Members, by name and value.
pub type Members = Seq<(Seq<char>, JsonV)>;

/// The position of the first member called `name`, or the number of members.
pub open spec fn place_of(m: Members, name: Seq<char>) -> int
    decreases m.len(),
{
    if m.len() == 0 || m[0].0 == name {
        0
    } else {
        1 + place_of(m.skip(1), name)
    }
}

/// The members with `name` set to `value`: in its place where there is such a
/// member, or else behind the members whose names stand before it.
pub open spec fn put(m: Members, name: Seq<char>, value: JsonV) -> Members {
    if member(m, name) is Some {
        m.update(place_of(m, name), (name, value))
    } else {
        m.insert(rank_of(m, name), (name, value))
    }
}

/// Whether members stand in the order of their names, each name once.
pub open spec fn members_ordered(m: Members) -> bool {
    forall|i: int, j: int| 0 <= i < j < m.len() ==> text_lt((#[trigger] m[i]).0, (#[trigger] m[j]).0)
}

/// Whether the members of every object stand in the order of their names, each
/// name once.
pub open spec fn tidy(v: JsonV) -> bool
    decreases v,
{
    match v {
        JsonV::Array(s) => forall|i: int| 0 <= i < s.len() ==> tidy(#[trigger] s[i]),
        JsonV::Object(m) => members_ordered(m) && forall|i: int|
            0 <= i < m.len() ==> tidy((#[trigger] m[i]).1),
        _ => true,
    }
}

/// Whether every value among members is tidy.
pub open spec fn tidy_members(m: Members) -> bool {
    members_ordered(m) && forall|i: int| 0 <= i < m.len() ==> tidy((#[trigger] m[i]).1)
}

/// Where a member is, and what it holds.
pub proof fn lemma_place(m: Members, name: Seq<char>)
    ensures
        0 <= place_of(m, name) <= m.len(),
        forall|j: int| 0 <= j < place_of(m, name) ==> (#[trigger] m[j]).0 != name,
        place_of(m, name) < m.len() ==> m[place_of(m, name)].0 == name && member(m, name) == Some(
            m[place_of(m, name)].1,
        ),
        place_of(m, name) == m.len() ==> member(m, name) is None,
    decreases m.len(),
{
    if m.len() > 0 && m[0].0 != name {
        lemma_place(m.skip(1), name);
        let k = place_of(m, name);
        assert forall|j: int| 0 <= j < k implies (#[trigger] m[j]).0 != name by {
            if j > 0 {
                assert(m.skip(1)[j - 1] == m[j]);
            }
        }
        if k < m.len() {
            assert(m.skip(1)[k - 1] == m[k]);
        }
    }
}

/// The place of a member is the one position that the name first stands at.
pub proof fn lemma_place_is(m: Members, name: Seq<char>, k: int)
    requires
        0 <= k <= m.len(),
        forall|j: int| 0 <= j < k ==> (#[trigger] m[j]).0 != name,
        k < m.len() ==> m[k].0 == name,
    ensures
        place_of(m, name) == k,
{
    lemma_place(m, name);
    let p = place_of(m, name);
    if p < k {
        assert(m[p].0 != name);
    } else if k < p {
        assert(m[k].0 != name);
    }
}

/// What is put is there, in one place, and nothing else has changed.
pub proof fn lemma_put(m: Members, name: Seq<char>, value: JsonV)
    ensures
        member(put(m, name, value), name) == Some(value),
        forall|n: Seq<char>| n != name ==> #[trigger] member(put(m, name, value), n) == member(m, n),
        put(m, name, value).len() > 0,
{
    let out = put(m, name, value);
    lemma_place(m, name);
    lemma_rank(m, name);
    let k = if member(m, name) is Some {
        place_of(m, name)
    } else {
        rank_of(m, name)
    };
    if member(m, name) is None {
        assert forall|j: int| 0 <= j < m.len() implies (#[trigger] m[j]).0 != name by {}
    }
    assert forall|j: int| 0 <= j < k implies (#[trigger] out[j]).0 != name by {
        assert(out[j] == m[j]);
    }
    lemma_place_is(out, name, k);
    lemma_place(out, name);
    assert forall|n: Seq<char>| n != name implies #[trigger] member(out, n) == member(m, n) by {
        lemma_place(m, n);
        lemma_place(out, n);
        let p = place_of(m, n);
        if member(m, name) is Some {
            assert forall|j: int| 0 <= j < p implies (#[trigger] out[j]).0 != n by {
                if j != k {
                    assert(out[j] == m[j]);
                }
            }
            if p < m.len() {
                assert(p != k);
            }
            lemma_place_is(out, n, p);
        } else {
            let q = if p < k {
                p
            } else {
                p + 1
            };
            assert forall|j: int| 0 <= j < q implies (#[trigger] out[j]).0 != n by {
                if j < k {
                    assert(out[j] == m[j]);
                } else if j > k {
                    assert(out[j] == m[j - 1]);
                }
            }
            if p < m.len() {
                assert(out[q] == m[p]);
            }
            lemma_place_is(out, n, q);
        }
    }
}

/// To put what is there changes nothing.
pub proof fn lemma_put_same(m: Members, name: Seq<char>, value: JsonV)
    requires
        member(m, name) == Some(value),
    ensures
        put(m, name, value) == m,
{
    lemma_place(m, name);
    assert(put(m, name, value) =~= m);
}

/// Of two values that are put the last one counts.
pub proof fn lemma_put_put(m: Members, name: Seq<char>, v1: JsonV, v2: JsonV)
    ensures
        put(put(m, name, v1), name, v2) == put(m, name, v2),
{
    let out = put(m, name, v1);
    lemma_put(m, name, v1);
    lemma_place(m, name);
    lemma_rank(m, name);
    let k = if member(m, name) is Some {
        place_of(m, name)
    } else {
        rank_of(m, name)
    };
    assert forall|j: int| 0 <= j < k implies (#[trigger] out[j]).0 != name by {
        assert(out[j] == m[j]);
        if member(m, name) is None {
            assert(m[j].0 != name);
        }
    }
    lemma_place_is(out, name, k);
    assert(put(out, name, v2) =~= put(m, name, v2));
}

/// To remove what was put, where there was nothing, gives back the members.
pub proof fn lemma_remove_put(m: Members, name: Seq<char>, value: JsonV)
    requires
        member(m, name) is None,
    ensures
        without_member(put(m, name, value), name) == m,
{
    let out = put(m, name, value);
    lemma_place(m, name);
    lemma_rank(m, name);
    let k = rank_of(m, name);
    assert forall|j: int| 0 <= j < k implies (#[trigger] out[j]).0 != name by {
        assert(out[j] == m[j]);
    }
    crate::json::lemma_without_is(out, name, k);
    assert(out.remove(k) =~= m);
}

/// What is put into tidy members leaves them tidy.
pub proof fn lemma_put_tidy(m: Members, name: Seq<char>, value: JsonV)
    requires
        tidy_members(m),
        tidy(value),
    ensures
        tidy_members(put(m, name, value)),
{
    let out = put(m, name, value);
    lemma_place(m, name);
    lemma_rank(m, name);
    if member(m, name) is Some {
        let k = place_of(m, name);
        assert forall|i: int, j: int| 0 <= i < j < out.len() implies text_lt(
            (#[trigger] out[i]).0,
            (#[trigger] out[j]).0,
        ) by {
            assert(text_lt(m[i].0, m[j].0));
        }
        assert forall|i: int| 0 <= i < out.len() implies tidy((#[trigger] out[i]).1) by {
            if i != k {
                assert(tidy(m[i].1));
            }
        }
    } else {
        let k = rank_of(m, name);
        assert forall|i: int, j: int| 0 <= i < j < out.len() implies text_lt(
            (#[trigger] out[i]).0,
            (#[trigger] out[j]).0,
        ) by {
            if k < m.len() {
                text_lt_total(m[k].0, name);
                assert(m[k].0 != name);
            }
            if i == k {
                if j - 1 > k {
                    assert(text_lt(m[k].0, m[j - 1].0));
                    text_lt_transitive(name, m[k].0, m[j - 1].0);
                }
            } else if j == k {
                assert(text_lt(m[i].0, name));
            } else {
                let a = if i < k {
                    i
                } else {
                    i - 1
                };
                let b = if j < k {
                    j
                } else {
                    j - 1
                };
                assert(text_lt(m[a].0, m[b].0));
            }
        }
        assert forall|i: int| 0 <= i < out.len() implies tidy((#[trigger] out[i]).1) by {
            if i < k {
                assert(tidy(m[i].1));
            } else if i > k {
                assert(tidy(m[i - 1].1));
            }
        }
    }
}

/// To remove a member keeps the others, and their order.
pub proof fn lemma_without_tidy(m: Members, name: Seq<char>)
    requires
        tidy_members(m),
    ensures
        tidy_members(without_member(m, name)),
        member(without_member(m, name), name) is None,
        forall|n: Seq<char>|
            n != name ==> #[trigger] member(without_member(m, name), n) == member(m, n),
{
    lemma_place(m, name);
    let k = place_of(m, name);
    crate::json::lemma_without_is(m, name, k);
    let out = without_member(m, name);
    if k < m.len() {
        assert(out =~= m.remove(k));
        assert forall|i: int, j: int| 0 <= i < j < out.len() implies text_lt(
            (#[trigger] out[i]).0,
            (#[trigger] out[j]).0,
        ) by {
            let a = if i < k {
                i
            } else {
                i + 1
            };
            let b = if j < k {
                j
            } else {
                j + 1
            };
            assert(text_lt(m[a].0, m[b].0));
        }
        assert forall|i: int| 0 <= i < out.len() implies tidy((#[trigger] out[i]).1) by {
            let a = if i < k {
                i
            } else {
                i + 1
            };
            assert(tidy(m[a].1));
        }
        assert forall|j: int| 0 <= j < out.len() implies (#[trigger] out[j]).0 != name by {
            if j >= k {
                assert(text_lt(m[k].0, m[j + 1].0));
                text_lt_total(m[k].0, m[j + 1].0);
            }
        }
        lemma_place_is(out, name, out.len() as int);
        lemma_place(out, name);
        assert forall|n: Seq<char>| n != name implies #[trigger] member(out, n) == member(m, n) by {
            lemma_place(m, n);
            lemma_place(out, n);
            let p = place_of(m, n);
            let q = if p < k {
                p
            } else {
                p - 1
            };
            assert forall|j: int| 0 <= j < q implies (#[trigger] out[j]).0 != n by {
                if j < k {
                    assert(out[j] == m[j]);
                } else {
                    assert(out[j] == m[j + 1]);
                }
            }
            if p < m.len() {
                assert(out[q] == m[p]);
            }
            lemma_place_is(out, n, q);
        }
    }
}

/// To set ordered members one after the other gives the same members.
pub proof fn lemma_all_set_ordered(m: Members)
    requires
        members_ordered(m),
    ensures
        all_set(m) == m,
    decreases m.len(),
{
    if m.len() > 0 {
        let t = m.drop_last();
        assert forall|i: int, j: int| 0 <= i < j < t.len() implies text_lt(
            (#[trigger] t[i]).0,
            (#[trigger] t[j]).0,
        ) by {
            assert(text_lt(m[i].0, m[j].0));
        }
        lemma_all_set_ordered(t);
        let name = m.last().0;
        lemma_rank(t, name);
        let k = rank_of(t, name);
        if k < t.len() {
            assert(text_lt(m[k].0, m[m.len() - 1].0));
        }
        assert(t.insert(t.len() as int, m.last()) =~= m);
    }
}

/// A tidy value is in canonical form.
pub proof fn lemma_canonical_tidy(v: JsonV)
    requires
        tidy(v),
    ensures
        canonical(v) == v,
    decreases v,
{
    match v {
        JsonV::Array(s) => {
            assert forall|i: int| 0 <= i < s.len() implies canonical(#[trigger] s[i]) == s[i] by {
                assert(decreases_to!(v => v->Array_0[i]));
                lemma_canonical_tidy(s[i]);
            }
            assert(canonical(v)->Array_0 =~= s);
        },
        JsonV::Object(m) => {
            assert forall|i: int| 0 <= i < m.len() implies canonical((#[trigger] m[i]).1)
                == m[i].1 by {
                assert(decreases_to!(v => v->Object_0[i].1));
                lemma_canonical_tidy(m[i].1);
            }
            assert(canonical_members(m) =~= m);
            lemma_all_set_ordered(m);
        },
        _ => {},
    }
}

/// Sets a member: in its place where there is one of that name, or else behind
/// the members whose names stand before it.
pub fn put_member(m: &mut Vec<(String, Json)>, name: &str, value: Json)
    ensures
        members_view(final(m)@) == put(members_view(old(m)@), name@, value@),
{
    let ghost all = members_view(m@);
    let k: usize = find_member(m, name);
    proof {
        lemma_place(all, name@);
        assert forall|j: int| 0 <= j < k implies (#[trigger] all[j]).0 != name@ by {
            assert(m@[j].0@ != name@);
        }
        lemma_place_is(all, name@, k as int);
    }
    if k < m.len() {
        let ghost pair = (name@, value@);
        m.set(k, (name.to_owned(), value));
        proof {
            assert(members_view(m@) =~= all.update(k as int, pair));
        }
    } else {
        proof {
            lemma_rank(all, name@);
            let r = rank_of(all, name@);
            if r < all.len() {
                assert(m@[r].0@ != name@);
            }
        }
        set_member(m, name, value);
    }
}

/// What is set among ordered members is there, nothing else has changed, and the
/// members are still ordered.
pub proof fn lemma_with_member(m: Members, name: Seq<char>, value: JsonV)
    requires
        members_ordered(m),
    ensures
        members_ordered(with_member(m, name, value)),
        member(with_member(m, name, value), name) == Some(value),
        forall|n: Seq<char>|
            n != name ==> #[trigger] member(with_member(m, name, value), n) == member(m, n),
{
    let out = with_member(m, name, value);
    lemma_rank(m, name);
    lemma_place(m, name);
    let k = rank_of(m, name);
    let there = k < m.len() && m[k].0 == name;
    if k < m.len() {
        text_lt_total(m[k].0, name);
    }
    text_lt_total(name, name);
    assert forall|j: int| 0 <= j < m.len() && !(there && j == k) implies (#[trigger] m[j]).0
        != name by {
        if j > k {
            assert(text_lt(m[k].0, m[j].0));
            text_lt_total(m[k].0, m[j].0);
        }
    }
    assert forall|i: int, j: int| 0 <= i < j < out.len() implies text_lt(
        (#[trigger] out[i]).0,
        (#[trigger] out[j]).0,
    ) by {
        if there {
            assert(text_lt(m[i].0, m[j].0));
        } else {
            if i < k && j < k {
                assert(text_lt(m[i].0, m[j].0));
            } else if i < k && j > k {
                assert(text_lt(m[i].0, m[j - 1].0));
            } else if i == k {
                if j - 1 > k {
                    assert(text_lt(m[k].0, m[j - 1].0));
                    text_lt_transitive(name, m[k].0, m[j - 1].0);
                }
            } else if i > k {
                assert(text_lt(m[i - 1].0, m[j - 1].0));
            }
        }
    }
    if there {
        lemma_place_is(m, name, k);
        assert(out =~= put(m, name, value));
    } else {
        lemma_place_is(m, name, m.len() as int);
        assert(out =~= put(m, name, value));
    }
    lemma_put(m, name, value);
}

/// A member is the first one of its name, and there is none exactly if no name is
/// that one.
pub proof fn members_are_found_by_name(m: Members, name: Seq<char>)
    ensures
        member(m, name) is None <==> forall|i: int| 0 <= i < m.len() ==> (#[trigger] m[i]).0 != name,
        forall|i: int|
            0 <= i < m.len() && (#[trigger] m[i]).0 == name && (forall|j: int|
                0 <= j < i ==> (#[trigger] m[j]).0 != name) ==> member(m, name) == Some(m[i].1),
{
    lemma_place(m, name);
    assert forall|i: int|
        0 <= i < m.len() && (#[trigger] m[i]).0 == name && (forall|j: int|
            0 <= j < i ==> (#[trigger] m[j]).0 != name) implies member(m, name) == Some(m[i].1) by {
        lemma_place_is(m, name, i);
    }
}

} // verus!
