//! Lists of named items that stand in the order of their names, each name once.
use vstd::prelude::*;

use crate::order::{text_less, text_lt, text_lt_total, text_lt_transitive};
use crate::text::same;

verus! {

/// The number of names from the beginning that come before `name`.
pub open spec fn name_rank(names: Seq<Seq<char>>, name: Seq<char>) -> int
    decreases names.len(),
{
    if names.len() > 0 && text_lt(names[0], name) {
        1 + name_rank(names.skip(1), name)
    } else {
        0
    }
}

/// Whether the item at the rank of `name` has that name.
pub open spec fn name_found(names: Seq<Seq<char>>, name: Seq<char>) -> bool {
    name_rank(names, name) < names.len() && names[name_rank(names, name)] == name
}

/// Whether the names stand in order, each once.
pub open spec fn names_ordered(names: Seq<Seq<char>>) -> bool {
    forall|i: int, j: int|
        0 <= i < j < names.len() ==> text_lt(#[trigger] names[i], #[trigger] names[j])
}

/// The rank is the position before which all names come before `name`, and none
/// from it on does.
pub proof fn lemma_name_rank(names: Seq<Seq<char>>, name: Seq<char>)
    ensures
        0 <= name_rank(names, name) <= names.len(),
        forall|j: int| 0 <= j < name_rank(names, name) ==> text_lt(#[trigger] names[j], name),
        name_rank(names, name) < names.len() ==> !text_lt(names[name_rank(names, name)], name),
    decreases names.len(),
{
    if names.len() > 0 && text_lt(names[0], name) {
        lemma_name_rank(names.skip(1), name);
        let k = name_rank(names, name);
        assert forall|j: int| 0 <= j < k implies text_lt(#[trigger] names[j], name) by {
            if j > 0 {
                assert(names.skip(1)[j - 1] == names[j]);
            }
        }
    }
}

proof fn lemma_name_rank_is(names: Seq<Seq<char>>, name: Seq<char>, k: int)
    requires
        0 <= k <= names.len(),
        forall|j: int| 0 <= j < k ==> text_lt(#[trigger] names[j], name),
        k < names.len() ==> !text_lt(names[k], name),
    ensures
        name_rank(names, name) == k,
{
    lemma_name_rank(names, name);
    let r = name_rank(names, name);
    if r < k {
        assert(text_lt(names[r], name));
    } else if k < r {
        assert(text_lt(names[k], name));
    }
}

/// A name that is put at its rank keeps the names in order.
pub proof fn lemma_insert_ordered(names: Seq<Seq<char>>, name: Seq<char>)
    requires
        names_ordered(names),
        !name_found(names, name),
    ensures
        names_ordered(names.insert(name_rank(names, name), name)),
{
    lemma_name_rank(names, name);
    let k = name_rank(names, name);
    let out = names.insert(k, name);
    assert forall|i: int, j: int| 0 <= i < j < out.len() implies text_lt(
        #[trigger] out[i],
        #[trigger] out[j],
    ) by {
        if k < names.len() {
            text_lt_total(names[k], name);
        }
        if j == k {
        } else if i == k {
            if j - 1 > k {
                text_lt_transitive(name, names[k], names[j - 1]);
            }
        }
    }
}

/// In names that stand in order, a name is found exactly where it is one of them.
pub proof fn lemma_found_iff(names: Seq<Seq<char>>, name: Seq<char>)
    requires
        names_ordered(names),
    ensures
        name_found(names, name) <==> names.contains(name),
{
    lemma_name_rank(names, name);
    let k = name_rank(names, name);
    if names.contains(name) {
        let i = choose|i: int| 0 <= i < names.len() && names[i] == name;
        text_lt_total(name, name);
        if i < k {
            assert(text_lt(names[i], name));
        } else if k < i {
            assert(text_lt(names[k], names[i]));
        }
    }
}

/// Items with a name.
pub trait Named: Sized {
    /// The name.
    spec fn key(self) -> Seq<char>;

    /// The name.
    fn key_text(&self) -> (r: &str)
        ensures
            r@ == self.key(),
    ;
}

/// The names of items.
pub open spec fn names_in<T: Named>(v: Seq<T>) -> Seq<Seq<char>> {
    Seq::new(v.len(), |i: int| v[i].key())
}

/// Finds the rank of a name, and whether the item there has it.
pub fn find_name<T: Named>(v: &Vec<T>, name: &str) -> (r: (usize, bool))
    ensures
        r.0 == name_rank(names_in(v@), name@),
        r.0 <= v@.len(),
        r.1 == name_found(names_in(v@), name@),
{
    let ghost names = names_in(v@);
    let mut k: usize = 0;
    while k < v.len() && text_less(v[k].key_text(), name)
        invariant
            names == names_in(v@),
            k <= v@.len(),
            forall|j: int| 0 <= j < k ==> text_lt(#[trigger] names[j], name@),
        decreases v@.len() - k,
    {
        k = k + 1;
    }
    proof {
        if k < v@.len() {
            assert(names[k as int] == v@[k as int].key());
        }
        lemma_name_rank_is(names, name@, k as int);
    }
    let found = k < v.len() && same(v[k].key_text(), name);
    (k, found)
}

} // verus!
