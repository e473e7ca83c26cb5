//! The fields of a record in JSON, as they stand.
//!
//! A record has some fields by name, each of them once. A field that it does not
//! know may stand among them, and is skipped without being read. A record may also
//! stand as the list of the values of its fields.
use vstd::prelude::*;

use vstd::slice::slice_subrange;

use crate::json::{find_member, items_view, lemma_json_view, member, members_view, Json, JsonV};
use crate::members::Members;
use crate::outside::{
    leading_skip, leading_value, parse_ahead, parse_bytes, parsed_bytes, skip_ahead,
};
use crate::text::{list_has, views};

verus! {

/// The white space of JSON: space, line feed, tab, carriage return.
pub open spec fn is_json_space(b: u8) -> bool {
    b == 32 || b == 10 || b == 9 || b == 13
}

/// The position of the first byte at `i` or behind it that is no white space, or the
/// number of bytes.
pub open spec fn past_space(b: Seq<u8>, i: int) -> int
    decreases b.len() - i,
{
    if 0 <= i < b.len() && is_json_space(b[i]) {
        past_space(b, i + 1)
    } else {
        i
    }
}

/// Whether the byte `c` stands at `i`.
pub open spec fn stands_at(b: Seq<u8>, i: int, c: u8) -> bool {
    0 <= i < b.len() && b[i] == c
}

/// The name of the field at `i`, and the position behind its colon. A field that is
/// not the first has a comma before it.
pub open spec fn name_at(b: Seq<u8>, i: int, first: bool) -> Option<(Seq<char>, int)> {
    let k = past_space(b, i);
    let j = if first {
        k
    } else {
        past_space(b, k + 1)
    };
    if (first || stands_at(b, k, 44)) && stands_at(b, j, 34) {
        match leading_value(b.skip(j)) {
            Some((JsonV::Str(name), n)) => {
                let c = past_space(b, j + n);
                if stands_at(b, c, 58) {
                    Some((name, c + 1))
                } else {
                    None
                }
            },
            _ => None,
        }
    } else {
        None
    }
}

/// The fields from `i` on that are called as one of `names`, in order, and the position
/// behind the brace that ends them.
pub open spec fn fields_from(
    b: Seq<u8>,
    i: int,
    first: bool,
    names: Seq<Seq<char>>,
) -> Option<(Members, int)>
    decreases b.len() - i,
{
    if stands_at(b, past_space(b, i), 125) {
        Some((Seq::<(Seq<char>, JsonV)>::empty(), past_space(b, i) + 1))
    } else {
        match name_at(b, i, first) {
            Some((name, v)) => if names.contains(name) {
                match leading_value(b.skip(v)) {
                    Some((value, n)) => if i < v && v + n <= b.len() {
                        match fields_from(b, v + n, false, names) {
                            Some((rest, end)) => Some((seq![(name, value)] + rest, end)),
                            None => None,
                        }
                    } else {
                        None
                    },
                    None => None,
                }
            } else {
                match leading_skip(b.skip(v)) {
                    Some(n) => if i < v && v + n <= b.len() {
                        fields_from(b, v + n, false, names)
                    } else {
                        None
                    },
                    None => None,
                }
            },
            None => None,
        }
    }
}

/// The names of members.
pub open spec fn field_names(m: Members) -> Seq<Seq<char>> {
    m.map_values(|x: (Seq<char>, JsonV)| x.0)
}

/// Whether `m` has a field for each of `names`, and no other.
pub open spec fn has_fields(m: Members, names: Seq<Seq<char>>) -> bool {
    m.len() == names.len() && forall|i: int|
        0 <= i < names.len() ==> member(m, #[trigger] names[i]) is Some
}

/// The fields of the record with the fields `names` that bytes hold: none where they
/// are no JSON, a field is not there or is there twice.
pub open spec fn struct_fields(b: Seq<u8>, names: Seq<Seq<char>>) -> Option<Members> {
    let k = past_space(b, 0);
    if stands_at(b, k, 123) {
        match fields_from(b, k + 1, true, names) {
            Some((m, end)) => if past_space(b, end) == b.len() && has_fields(m, names) {
                Some(m)
            } else {
                None
            },
            None => None,
        }
    } else {
        match parsed_bytes(b) {
            Some(JsonV::Array(s)) => if s.len() == names.len() {
                Some(Seq::new(s.len(), |i: int| (names[i], s[i])))
            } else {
                None
            },
            _ => None,
        }
    }
}

proof fn lemma_past_space(b: Seq<u8>, i: int, k: int)
    requires
        0 <= i <= k <= b.len(),
        forall|j: int| i <= j < k ==> is_json_space(#[trigger] b[j]),
        k < b.len() ==> !is_json_space(b[k]),
    ensures
        past_space(b, i) == k,
    decreases k - i,
{
    if i < k {
        assert(is_json_space(b[i]));
        lemma_past_space(b, i + 1, k);
    }
}

fn skip_space(b: &[u8], i: usize) -> (k: usize)
    requires
        i <= b@.len(),
    ensures
        k == past_space(b@, i as int),
        i <= k <= b@.len(),
{
    let mut k: usize = i;
    while k < b.len() && (b[k] == 32 || b[k] == 10 || b[k] == 9 || b[k] == 13)
        invariant
            i <= k <= b@.len(),
            forall|j: int| i <= j < k ==> is_json_space(#[trigger] b@[j]),
        decreases b@.len() - k,
    {
        k = k + 1;
    }
    proof {
        lemma_past_space(b@, i as int, k as int);
    }
    k
}

fn byte_stands_at(b: &[u8], i: usize, c: u8) -> (r: bool)
    ensures
        r == stands_at(b@, i as int, c),
        r ==> i < usize::MAX,
{
    i < b.len() && b[i] == c
}

/// Reads the name of the field at `i`, up to its colon.
fn read_name(b: &[u8], i: usize, first: bool) -> (r: Option<(String, usize)>)
    requires
        i <= b@.len(),
    ensures
        match r {
            Some((name, v)) => name_at(b@, i as int, first) == Some((name@, v as int)) && i < v
                <= b@.len(),
            None => name_at(b@, i as int, first) is None,
        },
{
    let k: usize = skip_space(b, i);
    if !first && !byte_stands_at(b, k, 44) {
        return None;
    }
    let j: usize = if first {
        k
    } else {
        skip_space(b, k + 1)
    };
    if !byte_stands_at(b, j, 34) {
        return None;
    }
    let rest = slice_subrange(b, j, b.len());
    proof {
        assert(rest@ =~= b@.skip(j as int));
    }
    match parse_ahead(rest) {
        Some((Json::Str(name), n)) => {
            let c: usize = skip_space(b, j + n);
            if byte_stands_at(b, c, 58) {
                Some((name, c + 1))
            } else {
                None
            }
        },
        _ => None,
    }
}

/// Reads the fields from `start` on that are called as one of `names`, up to the brace
/// that ends them.
fn read_fields(b: &[u8], start: usize, names: &Vec<String>) -> (r: Option<
    (Vec<(String, Json)>, usize),
>)
    requires
        start <= b@.len(),
    ensures
        match r {
            Some((m, end)) => fields_from(b@, start as int, true, views(names@)) == Some(
                (members_view(m@), end as int),
            ) && end <= b@.len(),
            None => fields_from(b@, start as int, true, views(names@)) is None,
        },
{
    let ghost nv = views(names@);
    let ghost whole = fields_from(b@, start as int, true, nv);
    let mut out: Vec<(String, Json)> = Vec::new();
    let mut i: usize = start;
    let mut first: bool = true;
    proof {
        if whole is Some {
            assert(members_view(out@) + (whole->0).0 =~= (whole->0).0);
        }
    }
    loop
        invariant
            i <= b@.len(),
            nv == views(names@),
            whole == (match fields_from(b@, i as int, first, nv) {
                Some((rest, end)) => Some((members_view(out@) + rest, end)),
                None => None,
            }),
            whole == fields_from(b@, start as int, true, nv),
        decreases b@.len() - i,
    {
        let k: usize = skip_space(b, i);
        if byte_stands_at(b, k, 125) {
            proof {
                assert(members_view(out@) + Seq::<(Seq<char>, JsonV)>::empty()
                    =~= members_view(out@));
            }
            return Some((out, k + 1));
        }
        let (name, v): (String, usize) = match read_name(b, i, first) {
            Some(x) => x,
            None => {
                return None;
            },
        };
        let rest = slice_subrange(b, v, b.len());
        proof {
            assert(rest@ =~= b@.skip(v as int));
        }
        if list_has(names, name.as_str()) {
            match parse_ahead(rest) {
                Some((value, n)) => {
                    let ghost before = members_view(out@);
                    let ghost entry = (name@, value@);
                    out.push((name, value));
                    i = v + n;
                    proof {
                        assert(members_view(out@) =~= before.push(entry));
                        match fields_from(b@, i as int, false, nv) {
                            Some((more, end)) => {
                                assert(before + (seq![entry] + more) =~= before.push(entry) + more);
                            },
                            None => {},
                        }
                    }
                },
                None => {
                    return None;
                },
            }
        } else {
            match skip_ahead(rest) {
                Some(n) => {
                    i = v + n;
                },
                None => {
                    return None;
                },
            }
        }
        first = false;
    }
}

/// Reads the record with the fields `names`.
pub fn read_struct(b: &[u8], names: &Vec<String>) -> (r: Option<Vec<(String, Json)>>)
    ensures
        match r {
            Some(m) => struct_fields(b@, views(names@)) == Some(members_view(m@)),
            None => struct_fields(b@, views(names@)) is None,
        },
{
    broadcast use lemma_json_view;

    let ghost nv = views(names@);
    let k: usize = skip_space(b, 0);
    if byte_stands_at(b, k, 123) {
        let (m, end): (Vec<(String, Json)>, usize) = match read_fields(b, k + 1, names) {
            Some(x) => x,
            None => {
                return None;
            },
        };
        if skip_space(b, end) != b.len() || m.len() != names.len() {
            return None;
        }
        for i in 0..names.len()
            invariant
                nv == views(names@),
                m@.len() == names@.len(),
                forall|j: int| 0 <= j < i ==> member(members_view(m@), #[trigger] nv[j]) is Some,
                struct_fields(b@, nv) == (if has_fields(members_view(m@), nv) {
                    Some(members_view(m@))
                } else {
                    None
                }),
        {
            proof {
                assert(nv[i as int] == names@[i as int]@);
            }
            if find_member(&m, names[i].as_str()) == m.len() {
                return None;
            }
        }
        Some(m)
    } else {
        match parse_bytes(b) {
            Ok(Json::Array(items)) => {
                if items.len() != names.len() {
                    return None;
                }
                let ghost iv = items_view(items@);
                let ghost all = items@;
                let mut out: Vec<(String, Json)> = Vec::new();
                for x in it: items
                    invariant
                        it.seq() == all,
                        nv == views(names@),
                        all.len() == names@.len(),
                        out@.len() == it.index(),
                        forall|j: int|
                            0 <= j < out@.len() ==> (#[trigger] out@[j]).0@ == nv[j] && out@[j].1@
                                == all[j]@,
                {
                    let n: usize = out.len();
                    out.push((names[n].clone(), x));
                }
                proof {
                    assert(members_view(out@) =~= Seq::new(iv.len(), |i: int| (nv[i], iv[i])));
                }
                Some(out)
            },
            _ => None,
        }
    }
}

} // verus!
