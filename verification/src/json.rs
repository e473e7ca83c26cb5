//! JSON values as plain data.
use vstd::prelude::*;

use crate::order::{text_less, text_lt};
use crate::outside::Real;
use crate::text::same;

verus! {

/// A JSON value.
#[derive(Debug, PartialEq)]
pub enum Json {
    /// `null`.
    Null,
    /// `true` or `false`.
    Bool(bool),
    /// A non-negative integer.
    Uint(u64),
    /// An integer.
    Int(i64),
    /// A number that is not an integer of 64 bits, carried as it was read.
    Real(Real),
    /// A string.
    Str(String),
    /// An array.
    Array(Vec<Json>),
    /// An object: its members, in the order of their names.
    Object(Vec<(String, Json)>),
}

/// The contents of a [`Json`].
pub ghost enum JsonV {
    Null,
    Bool(bool),
    Int(int),
    Real(serde_json::Number),
    Str(Seq<char>),
    Array(Seq<JsonV>),
    Object(Seq<(Seq<char>, JsonV)>),
}

/// The contents of a value.
pub open spec fn json_view(j: Json) -> JsonV
    decreases j,
{
    match j {
        Json::Null => JsonV::Null,
        Json::Bool(b) => JsonV::Bool(b),
        Json::Uint(n) => JsonV::Int(n as int),
        Json::Int(n) => JsonV::Int(n as int),
        Json::Real(n) => JsonV::Real(n.number()),
        Json::Str(s) => JsonV::Str(s@),
        Json::Array(v) => JsonV::Array(
            Seq::new(
                v@.len(),
                |i: int|
                    if 0 <= i < v@.len() {
                        json_view(v@[i])
                    } else {
                        JsonV::Null
                    },
            ),
        ),
        Json::Object(v) => JsonV::Object(
            Seq::new(
                v@.len(),
                |i: int|
                    if 0 <= i < v@.len() {
                        (v@[i].0@, json_view(v@[i].1))
                    } else {
                        (Seq::<char>::empty(), JsonV::Null)
                    },
            ),
        ),
    }
}

impl View for Json {
    type V = JsonV;

    open spec fn view(&self) -> JsonV {
        json_view(*self)
    }
}

/// The contents of the items of an array.
pub open spec fn items_view(v: Seq<Json>) -> Seq<JsonV> {
    v.map_values(|j: Json| j@)
}

/// The contents of the members of an object.
pub open spec fn members_view(v: Seq<(String, Json)>) -> Seq<(Seq<char>, JsonV)> {
    v.map_values(|m: (String, Json)| (m.0@, m.1@))
}

/// An array and an object have the contents of their items and members.
pub broadcast proof fn lemma_json_view(j: Json)
    ensures
        j matches Json::Array(v) ==> #[trigger] json_view(j) == JsonV::Array(items_view(v@)),
        j matches Json::Object(v) ==> json_view(j) == JsonV::Object(members_view(v@)),
{
    match j {
        Json::Array(v) => {
            assert(json_view(j)->Array_0 =~= items_view(v@));
        },
        Json::Object(v) => {
            assert(json_view(j)->Object_0 =~= members_view(v@));
        },
        _ => {},
    }
}

impl Clone for Json {
    fn clone(&self) -> (out: Json)
        ensures
            out@ == self@,
        decreases *self,
    {
        broadcast use lemma_json_view;

        match self {
            Json::Null => Json::Null,
            Json::Bool(b) => Json::Bool(*b),
            Json::Uint(n) => Json::Uint(*n),
            Json::Int(n) => Json::Int(*n),
            Json::Real(n) => Json::Real(n.copy()),
            Json::Str(s) => Json::Str(s.clone()),
            Json::Array(v) => {
                let mut out: Vec<Json> = Vec::new();
                for i in 0..v.len()
                    invariant
                        *self == Json::Array(*v),
                        items_view(out@) == items_view(v@).take(i as int),
                    decreases v@.len() - i,
                {
                    let ghost out0 = out@;
                    proof {
                        assert(decreases_to!(*self => (*self)->Array_0@[i as int]));
                    }
                    let x = v[i].clone();
                    let ghost xv = x@;
                    out.push(x);
                    proof {
                        assert(items_view(out@) =~= items_view(out0).push(xv));
                        assert(items_view(v@).take(i + 1) =~= items_view(v@).take(i as int).push(
                            items_view(v@)[i as int],
                        ));
                    }
                }
                proof {
                    assert(items_view(v@).take(v@.len() as int) =~= items_view(v@));
                }
                Json::Array(out)
            },
            Json::Object(v) => {
                let mut out: Vec<(String, Json)> = Vec::new();
                for i in 0..v.len()
                    invariant
                        *self == Json::Object(*v),
                        members_view(out@) == members_view(v@).take(i as int),
                    decreases v@.len() - i,
                {
                    let ghost out0 = out@;
                    proof {
                        assert(decreases_to!(*self => (*self)->Object_0@[i as int].1));
                    }
                    let x = (v[i].0.clone(), v[i].1.clone());
                    let ghost xv = (x.0@, x.1@);
                    out.push(x);
                    proof {
                        assert(members_view(out@) =~= members_view(out0).push(xv));
                        assert(members_view(v@).take(i + 1) =~= members_view(v@).take(
                            i as int,
                        ).push(members_view(v@)[i as int]));
                    }
                }
                proof {
                    assert(members_view(v@).take(v@.len() as int) =~= members_view(v@));
                }
                Json::Object(out)
            },
        }
    }
}

// ---------------------------------------------------------------------------
// Reading
// ---------------------------------------------------------------------------

/// The value of the first member called `name`.
pub open spec fn member(m: Seq<(Seq<char>, JsonV)>, name: Seq<char>) -> Option<JsonV>
    decreases m.len(),
{
    if m.len() == 0 {
        None
    } else if m[0].0 == name {
        Some(m[0].1)
    } else {
        member(m.skip(1), name)
    }
}

impl JsonV {
    /// The member called `name`, if the value is an object that has one.
    pub open spec fn get(self, name: Seq<char>) -> Option<JsonV> {
        match self {
            JsonV::Object(m) => member(m, name),
            _ => None,
        }
    }

    /// The text, if the value is a string.
    pub open spec fn text(self) -> Option<Seq<char>> {
        match self {
            JsonV::Str(s) => Some(s),
            _ => None,
        }
    }

    /// The number, if the value is an integer that an `i64` holds.
    pub open spec fn int64(self) -> Option<int> {
        match self {
            JsonV::Int(n) => if i64::MIN <= n <= i64::MAX {
                Some(n)
            } else {
                None
            },
            _ => None,
        }
    }

    /// The number, if the value is an integer that a `u64` holds.
    pub open spec fn nat64(self) -> Option<int> {
        match self {
            JsonV::Int(n) => if 0 <= n <= u64::MAX {
                Some(n)
            } else {
                None
            },
            _ => None,
        }
    }

    /// The text of the member called `name`.
    pub open spec fn text_at(self, name: Seq<char>) -> Option<Seq<char>> {
        match self.get(name) {
            Some(v) => v.text(),
            None => None,
        }
    }
}

/// The position of the first member called `name`, or the number of members.
pub fn find_member(m: &Vec<(String, Json)>, name: &str) -> (k: usize)
    ensures
        k <= m@.len(),
        forall|j: int| 0 <= j < k ==> (#[trigger] m@[j]).0@ != name@,
        k < m@.len() ==> m@[k as int].0@ == name@,
        match member(members_view(m@), name@) {
            Some(v) => k < m@.len() && m@[k as int].1@ == v,
            None => k == m@.len(),
        },
{
    let ghost all = members_view(m@);
    let mut k: usize = 0;
    proof {
        assert(all.skip(0) =~= all);
    }
    while k < m.len()
        invariant
            all == members_view(m@),
            k <= m@.len(),
            forall|j: int| 0 <= j < k ==> (#[trigger] m@[j]).0@ != name@,
            member(all, name@) == member(all.skip(k as int), name@),
        decreases m@.len() - k,
    {
        proof {
            assert(all.skip(k as int)[0] == (m@[k as int].0@, m@[k as int].1@));
            assert(all.skip(k as int).skip(1) =~= all.skip(k + 1));
        }
        if same(m[k].0.as_str(), name) {
            return k;
        }
        k = k + 1;
    }
    k
}

/// The contents of an optional value.
pub open spec fn opt_json(v: Option<&Json>) -> Option<JsonV> {
    match v {
        Some(j) => Some(j@),
        None => None,
    }
}

impl Json {
    /// The member called `name`, if the value is an object that has one.
    pub fn get(&self, name: &str) -> (r: Option<&Json>)
        ensures
            opt_json(r) == self@.get(name@),
    {
        broadcast use lemma_json_view;

        match self {
            Json::Object(m) => {
                let k: usize = find_member(m, name);
                if k < m.len() {
                    Some(&m[k].1)
                } else {
                    None
                }
            },
            _ => None,
        }
    }

    /// The text, if the value is a string.
    pub fn as_str(&self) -> (r: Option<&str>)
        ensures
            match r {
                Some(s) => self@.text() == Some(s@),
                None => self@.text() is None,
            },
    {
        match self {
            Json::Str(s) => Some(s.as_str()),
            _ => None,
        }
    }

    /// The text of the member called `name`, if it is there and a string.
    pub fn str_at(&self, name: &str) -> (r: Option<&str>)
        ensures
            match r {
                Some(s) => self@.text_at(name@) == Some(s@),
                None => self@.text_at(name@) is None,
            },
    {
        match self.get(name) {
            Some(v) => v.as_str(),
            None => None,
        }
    }

    /// The number, if the value is an integer that an `i64` holds.
    pub fn as_i64(&self) -> (r: Option<i64>)
        ensures
            match r {
                Some(n) => self@.int64() == Some(n as int),
                None => self@.int64() is None,
            },
    {
        match self {
            Json::Uint(n) => if *n <= i64::MAX as u64 {
                Some(*n as i64)
            } else {
                None
            },
            Json::Int(n) => Some(*n),
            _ => None,
        }
    }

    /// The number, if the value is an integer that a `u64` holds.
    pub fn as_u64(&self) -> (r: Option<u64>)
        ensures
            match r {
                Some(n) => self@.nat64() == Some(n as int),
                None => self@.nat64() is None,
            },
    {
        match self {
            Json::Uint(n) => Some(*n),
            Json::Int(n) => if *n >= 0 {
                Some(*n as u64)
            } else {
                None
            },
            _ => None,
        }
    }

    /// The items, if the value is an array.
    pub fn as_array(&self) -> (r: Option<&Vec<Json>>)
        ensures
            match r {
                Some(v) => self@ == JsonV::Array(items_view(v@)),
                None => !(self@ is Array),
            },
    {
        broadcast use lemma_json_view;

        match self {
            Json::Array(v) => Some(v),
            _ => None,
        }
    }

    /// Whether the value is an object.
    pub fn is_object(&self) -> (r: bool)
        ensures
            r == (self@ is Object),
    {
        match self {
            Json::Object(_) => true,
            _ => false,
        }
    }
}

// ---------------------------------------------------------------------------
// Writing
// ---------------------------------------------------------------------------

/// The number of members from the beginning whose names stand before `name`.
pub open spec fn rank_of(m: Seq<(Seq<char>, JsonV)>, name: Seq<char>) -> int
    decreases m.len(),
{
    if m.len() > 0 && text_lt(m[0].0, name) {
        1 + rank_of(m.skip(1), name)
    } else {
        0
    }
}

/// The members with `name` set to `value`: behind the members whose names stand
/// before it, in the place of a member of that name.
pub open spec fn with_member(
    m: Seq<(Seq<char>, JsonV)>,
    name: Seq<char>,
    value: JsonV,
) -> Seq<(Seq<char>, JsonV)> {
    let k = rank_of(m, name);
    if k < m.len() && m[k].0 == name {
        m.update(k, (name, value))
    } else {
        m.insert(k, (name, value))
    }
}

/// The members without the first one called `name`.
pub open spec fn without_member(m: Seq<(Seq<char>, JsonV)>, name: Seq<char>) -> Seq<
    (Seq<char>, JsonV),
>
    decreases m.len(),
{
    if m.len() == 0 {
        m
    } else if m[0].0 == name {
        m.skip(1)
    } else {
        seq![m[0]] + without_member(m.skip(1), name)
    }
}

/// The members that are set one after the other.
pub open spec fn all_set(m: Seq<(Seq<char>, JsonV)>) -> Seq<(Seq<char>, JsonV)>
    decreases m.len(),
{
    if m.len() == 0 {
        m
    } else {
        with_member(all_set(m.drop_last()), m.last().0, m.last().1)
    }
}

/// The bounds of a rank.
pub proof fn lemma_rank(m: Seq<(Seq<char>, JsonV)>, name: Seq<char>)
    ensures
        0 <= rank_of(m, name) <= m.len(),
        forall|j: int| 0 <= j < rank_of(m, name) ==> text_lt((#[trigger] m[j]).0, name),
        rank_of(m, name) < m.len() ==> !text_lt(m[rank_of(m, name)].0, name),
    decreases m.len(),
{
    if m.len() > 0 && text_lt(m[0].0, name) {
        lemma_rank(m.skip(1), name);
        let k = rank_of(m, name);
        assert forall|j: int| 0 <= j < k implies text_lt((#[trigger] m[j]).0, name) by {
            if j > 0 {
                assert(m.skip(1)[j - 1] == m[j]);
            }
        }
    }
}

proof fn lemma_rank_is(m: Seq<(Seq<char>, JsonV)>, name: Seq<char>, k: int)
    requires
        0 <= k <= m.len(),
        forall|j: int| 0 <= j < k ==> text_lt((#[trigger] m[j]).0, name),
        k < m.len() ==> !text_lt(m[k].0, name),
    ensures
        rank_of(m, name) == k,
{
    lemma_rank(m, name);
    let r = rank_of(m, name);
    if r < k {
        assert(text_lt(m[r].0, name));
    } else if k < r {
        assert(text_lt(m[k].0, name));
    }
}

/// Sets the member called `name`.
pub fn set_member(m: &mut Vec<(String, Json)>, name: &str, value: Json)
    ensures
        members_view(final(m)@) == with_member(members_view(old(m)@), name@, value@),
{
    let ghost all = members_view(m@);
    let mut k: usize = 0;
    while k < m.len() && text_less(m[k].0.as_str(), name)
        invariant
            all == members_view(m@),
            k <= m@.len(),
            forall|j: int| 0 <= j < k ==> text_lt((#[trigger] all[j]).0, name@),
        decreases m@.len() - k,
    {
        k = k + 1;
    }
    proof {
        if k < m@.len() {
            assert(all[k as int].0 == m@[k as int].0@);
        }
        lemma_rank_is(all, name@, k as int);
    }
    let ghost vv = value@;
    if k < m.len() && same(m[k].0.as_str(), name) {
        m.set(k, (name.to_owned(), value));
        proof {
            assert(members_view(m@) =~= all.update(k as int, (name@, vv)));
        }
    } else {
        m.insert(k, (name.to_owned(), value));
        proof {
            assert(members_view(m@) =~= all.insert(k as int, (name@, vv)));
        }
    }
}

/// Removes the first member called `name`.
pub fn remove_member(m: &mut Vec<(String, Json)>, name: &str)
    ensures
        members_view(final(m)@) == without_member(members_view(old(m)@), name@),
{
    let ghost all = members_view(m@);
    let k: usize = find_member(m, name);
    proof {
        lemma_without_is(all, name@, k as int);
    }
    if k < m.len() {
        m.remove(k);
        proof {
            assert(members_view(m@) =~= all.remove(k as int));
        }
    }
}

/// Where the first member of a name stands at `k`, it is the one taken away.
pub proof fn lemma_without_is(m: Seq<(Seq<char>, JsonV)>, name: Seq<char>, k: int)
    requires
        0 <= k <= m.len(),
        forall|j: int| 0 <= j < k ==> (#[trigger] m[j]).0 != name,
        k < m.len() ==> m[k].0 == name,
    ensures
        without_member(m, name) == (if k < m.len() {
            m.remove(k)
        } else {
            m
        }),
    decreases m.len(),
{
    if m.len() > 0 {
        if k == 0 {
            assert(m.skip(1) =~= m.remove(0));
        } else {
            assert(m[0].0 != name);
            let t = m.skip(1);
            assert forall|j: int| 0 <= j < k - 1 implies (#[trigger] t[j]).0 != name by {
                assert(t[j] == m[j + 1]);
            }
            lemma_without_is(t, name, k - 1);
            if k < m.len() {
                assert(seq![m[0]] + t.remove(k - 1) =~= m.remove(k));
            } else {
                assert(seq![m[0]] + t =~= m);
            }
        }
    }
}

/// The value with the members of its objects set one after the other, as an
/// object holds them: in the order of their names, and the last of two members
/// of one name.
pub open spec fn canonical(v: JsonV) -> JsonV
    decreases v,
{
    match v {
        JsonV::Array(s) => JsonV::Array(
            Seq::new(
                s.len(),
                |i: int|
                    if 0 <= i < s.len() {
                        canonical(s[i])
                    } else {
                        JsonV::Null
                    },
            ),
        ),
        JsonV::Object(m) => JsonV::Object(all_set(canonical_members(m))),
        _ => v,
    }
}

/// The members with their values in canonical form.
pub open spec fn canonical_members(m: Seq<(Seq<char>, JsonV)>) -> Seq<(Seq<char>, JsonV)>
    decreases m,
{
    Seq::new(
        m.len(),
        |i: int|
            if 0 <= i < m.len() {
                (m[i].0, canonical(m[i].1))
            } else {
                (Seq::<char>::empty(), JsonV::Null)
            },
    )
}

} // verus!
