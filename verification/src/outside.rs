//! What the library takes from `serde_json`, `base64` and the standard library:
//! reading and writing JSON, the text form of bytes, and quoted texts.
use vstd::prelude::*;

use vstd::utf8::{decode_utf8, valid_utf8};

use crate::fields::{field_names, struct_fields};
use crate::members::{members_ordered, tidy};
use crate::json::{
    all_set, canonical, canonical_members, items_view, lemma_json_view, members_view, Json, JsonV,
};
use crate::split::without_returns;
use crate::text::is_blank;

verus! {

/// The number type of `serde_json`, carried through unread.
#[verifier::external_type_specification]
#[verifier::external_body]
pub struct ExNumber(serde_json::Number);

/// The value type of `serde_json`.
#[verifier::external_type_specification]
#[verifier::external_body]
pub struct ExValue(serde_json::Value);

/// The error type of `serde_json`.
#[verifier::external_type_specification]
#[verifier::external_body]
pub struct ExError(serde_json::Error);

/// What `serde_json::Number::is_f64` says of a number: that it is no integer of
/// 64 bits.
pub uninterp spec fn is_real(n: serde_json::Number) -> bool;

/// What a `serde_json::Value` holds.
pub uninterp spec fn json_of(v: serde_json::Value) -> JsonV;

/// What `serde_json::from_str` reads in a text: none where it reports an error.
pub uninterp spec fn parsed(text: Seq<char>) -> Option<JsonV>;

/// What the error says that `serde_json::from_str` reports for a text.
pub uninterp spec fn parse_failure(text: Seq<char>) -> Seq<char>;

/// What a `serde_json::Error` says.
pub uninterp spec fn error_message(e: serde_json::Error) -> Seq<char>;

/// What `serde_json::to_string_pretty` writes for what a value holds.
pub uninterp spec fn pretty_of(v: JsonV) -> Seq<char>;

/// What the error says that `serde_json::from_slice` reports for bytes.
pub uninterp spec fn slice_failure(bytes: Seq<u8>) -> Seq<char>;

/// What `serde::Serializer::collect_map` makes `serde_json::Serializer` write for
/// members.
pub uninterp spec fn object_bytes(members: Seq<(Seq<char>, JsonV)>) -> Seq<u8>;

/// What the first step of `serde_json::StreamDeserializer` into a `serde_json::Value`
/// reads in bytes, and `byte_offset` behind it: the first value, and the number of
/// bytes up to its end. None where there is no value, or it reports an error.
pub uninterp spec fn leading_value(bytes: Seq<u8>) -> Option<(JsonV, nat)>;

/// What `byte_offset` of `serde_json::StreamDeserializer` is behind its first step into
/// a `serde::de::IgnoredAny`: the number of bytes up to the end of the first value,
/// whatever it is. None where there is no value, or it reports an error.
pub uninterp spec fn leading_skip(bytes: Seq<u8>) -> Option<nat>;

/// What the URL-safe engine of `base64` without padding writes for bytes.
pub uninterp spec fn encoded(bytes: Seq<u8>) -> Seq<char>;

/// What the URL-safe engine of `base64` without padding reads in a text: none
/// where it reports an error.
pub uninterp spec fn decoded(text: Seq<char>) -> Option<Seq<u8>>;

/// What `Debug` of `str` writes for a text.
pub uninterp spec fn debug_of(text: Seq<char>) -> Seq<char>;

/// Asks `serde_json::Number::is_f64`, which is true exactly of the numbers that
/// `as_u64` and `as_i64` both refuse.
#[verifier::external_body]
fn number_is_real(n: &serde_json::Number) -> (r: bool)
    ensures
        r == is_real(*n),
{
    n.is_f64()
}

/// Copies a number with `Clone` of `serde_json::Number`, which gives the same
/// number.
#[verifier::external_body]
fn copy_number(n: &serde_json::Number) -> (r: serde_json::Number)
    ensures
        r == *n,
{
    n.clone()
}

/// A number that is not an integer of 64 bits.
#[derive(Debug, PartialEq)]
pub struct Real {
    n: serde_json::Number,
}

impl Real {
    #[verifier::type_invariant]
    spec fn inv(self) -> bool {
        is_real(self.n)
    }

    /// The number itself.
    pub closed spec fn number(self) -> serde_json::Number {
        self.n
    }

    /// The number `n`, if it is not an integer of 64 bits.
    pub fn new(n: serde_json::Number) -> (r: Option<Real>)
        ensures
            match r {
                Some(x) => is_real(n) && x.number() == n,
                None => !is_real(n),
            },
    {
        if number_is_real(&n) {
            Some(Real { n })
        } else {
            None
        }
    }

    /// The same number again.
    pub fn copy(&self) -> (r: Real)
        ensures
            r.number() == self.number(),
    {
        proof {
            use_type_invariant(self);
        }
        Real { n: copy_number(&self.n) }
    }
}

/// One level of a `serde_json::Value`.
enum Opened {
    Null,
    Bool(bool),
    Uint(u64),
    Int(i64),
    Real(serde_json::Number),
    Str(String),
    Array(Vec<serde_json::Value>),
    Object(Vec<(String, serde_json::Value)>),
}

/// What the members of an object hold.
spec fn opened_members(m: Seq<(String, serde_json::Value)>) -> Seq<(Seq<char>, JsonV)> {
    m.map_values(|x: (String, serde_json::Value)| (x.0@, json_of(x.1)))
}

/// What the items of an array hold.
spec fn opened_items(v: Seq<serde_json::Value>) -> Seq<JsonV> {
    v.map_values(|x: serde_json::Value| json_of(x))
}

impl Opened {
    spec fn json(self) -> JsonV {
        match self {
            Opened::Null => JsonV::Null,
            Opened::Bool(b) => JsonV::Bool(b),
            Opened::Uint(n) => JsonV::Int(n as int),
            Opened::Int(n) => JsonV::Int(n as int),
            Opened::Real(n) => JsonV::Real(n),
            Opened::Str(s) => JsonV::Str(s@),
            Opened::Array(v) => JsonV::Array(opened_items(v@)),
            Opened::Object(m) => JsonV::Object(opened_members(m@)),
        }
    }
}

/// Takes a `serde_json::Value` apart, one level: its variant, with an integer
/// as `as_u64` or `as_i64` gives it, and the members of an object as the map
/// hands them out, which is in the order of their names, each name once.
#[verifier::external_body]
fn open_value(v: serde_json::Value) -> (r: Opened)
    ensures
        r.json() == json_of(v),
        r matches Opened::Real(n) ==> is_real(n),
        r matches Opened::Object(m) ==> members_ordered(opened_members(m@)),
{
    match v {
        serde_json::Value::Null => Opened::Null,
        serde_json::Value::Bool(b) => Opened::Bool(b),
        serde_json::Value::Number(n) => match (n.as_u64(), n.as_i64()) {
            (Some(u), _) => Opened::Uint(u),
            (None, Some(i)) => Opened::Int(i),
            (None, None) => Opened::Real(n),
        },
        serde_json::Value::String(s) => Opened::Str(s),
        serde_json::Value::Array(a) => Opened::Array(a),
        serde_json::Value::Object(m) => Opened::Object(m.into_iter().collect()),
    }
}

/// Puts a `serde_json::Value` together, one level. The map of an object sets
/// its members one after the other, and holds them in the order of their names.
#[verifier::external_body]
fn close_value(o: Opened) -> (r: serde_json::Value)
    requires
        o matches Opened::Real(n) ==> is_real(n),
    ensures
        json_of(r) == (match o {
            Opened::Object(m) => JsonV::Object(all_set(opened_members(m@))),
            _ => o.json(),
        }),
{
    match o {
        Opened::Null => serde_json::Value::Null,
        Opened::Bool(b) => serde_json::Value::Bool(b),
        Opened::Uint(n) => serde_json::Value::Number(serde_json::Number::from(n)),
        Opened::Int(n) => serde_json::Value::Number(serde_json::Number::from(n)),
        Opened::Real(n) => serde_json::Value::Number(n),
        Opened::Str(s) => serde_json::Value::String(s),
        Opened::Array(a) => serde_json::Value::Array(a),
        Opened::Object(m) => serde_json::Value::Object(m.into_iter().collect()),
    }
}

/// Reads a text with `serde_json::from_str`, into a `serde_json::Value`. White space
/// behind the value is skipped, and a carriage return is part of no value, so that
/// carriage returns at the end do not change what is read.
#[verifier::external_body]
fn value_from_str(text: &str) -> (r: Result<serde_json::Value, serde_json::Error>)
    ensures
        match r {
            Ok(v) => parsed(text@) == Some(json_of(v)) && parsed(without_returns(text@)) == Some(
                json_of(v),
            ),
            Err(e) => parsed(text@) is None && parsed(without_returns(text@)) is None
                && error_message(e) == parse_failure(text@),
        },
{
    serde_json::from_str(text)
}

/// Reads bytes with `serde_json::from_slice`, into a `serde_json::Value`. Bytes
/// that are no UTF-8 are refused; others are read as `serde_json::from_str` reads
/// their text.
#[verifier::external_body]
fn value_from_slice(bytes: &[u8]) -> (r: Result<serde_json::Value, serde_json::Error>)
    ensures
        match r {
            Ok(v) => valid_utf8(bytes@) && parsed(decode_utf8(bytes@)) == Some(json_of(v)),
            Err(e) => (valid_utf8(bytes@) ==> parsed(decode_utf8(bytes@)) is None)
                && error_message(e) == slice_failure(bytes@),
        },
{
    serde_json::from_slice(bytes)
}

/// Reads the first value in bytes with `serde_json::StreamDeserializer`, into a
/// `serde_json::Value`, and asks its `byte_offset` for the number of bytes up to the end
/// of that value, which has at least one byte.
#[verifier::external_body]
fn value_ahead(bytes: &[u8]) -> (r: Option<(serde_json::Value, usize)>)
    ensures
        match r {
            Some((v, n)) => leading_value(bytes@) == Some((json_of(v), n as nat)) && 0 < n
                <= bytes@.len(),
            None => leading_value(bytes@) is None,
        },
{
    let mut stream = serde_json::Deserializer::from_slice(bytes).into_iter::<serde_json::Value>();
    match stream.next() {
        Some(Ok(v)) => Some((v, stream.byte_offset())),
        Some(Err(_)) => None,
        None => None,
    }
}

/// Reads the first value in bytes with `serde_json::StreamDeserializer`, into a
/// `serde::de::IgnoredAny`, and asks its `byte_offset` for the number of bytes up to the
/// end of that value, which has at least one byte.
#[verifier::external_body]
pub(crate) fn skip_ahead(bytes: &[u8]) -> (r: Option<usize>)
    ensures
        match r {
            Some(n) => leading_skip(bytes@) == Some(n as nat) && 0 < n <= bytes@.len(),
            None => leading_skip(bytes@) is None,
        },
{
    let mut stream = serde_json::Deserializer::from_slice(bytes).into_iter::<
        serde::de::IgnoredAny,
    >();
    match stream.next() {
        Some(Ok(_)) => Some(stream.byte_offset()),
        Some(Err(_)) => None,
        None => None,
    }
}

/// Reads the first value in bytes, and tells the number of bytes up to its end.
pub fn parse_ahead(bytes: &[u8]) -> (r: Option<(Json, usize)>)
    ensures
        match r {
            Some((j, n)) => leading_value(bytes@) == Some((j@, n as nat)) && 0 < n <= bytes@.len(),
            None => leading_value(bytes@) is None,
        },
{
    match value_ahead(bytes) {
        Some((v, n)) => Some((from_value(v), n)),
        None => None,
    }
}

/// Whether a value is a text or an integer of 64 bits.
pub open spec fn is_plain(v: JsonV) -> bool {
    match v {
        JsonV::Str(_) => true,
        JsonV::Int(n) => i64::MIN <= n <= u64::MAX,
        _ => false,
    }
}

/// Whether a text can stand as a line: it is not blank, and has no line feed and no
/// carriage return.
pub open spec fn is_line(s: Seq<char>) -> bool {
    !is_blank(s) && !s.contains('\n') && !s.contains('\r')
}

/// Writes an object with `serde::Serializer::collect_map` on a
/// `serde_json::Serializer` over a `Vec<u8>`, which has no error to report: the
/// members in the order in which they are given, with nothing between them but
/// commas. Where the values are texts and integers, what is written is UTF-8, on one
/// line, as control characters are escaped, and its fields read back as the members.
#[verifier::external_body]
fn members_to_bytes(members: Vec<(String, serde_json::Value)>) -> (r: Result<
    Vec<u8>,
    serde_json::Error,
>)
    ensures
        r is Ok,
        r matches Ok(b) ==> b@ == object_bytes(opened_members(members@)),
        r matches Ok(b) ==> (forall|i: int|
            0 <= i < members@.len() ==> is_plain(json_of((#[trigger] members@[i]).1)))
            ==> valid_utf8(b@) && is_line(decode_utf8(b@)) && struct_fields(
            b@,
            field_names(opened_members(members@)),
        ) == Some(opened_members(members@)),
{
    let mut s = serde_json::Serializer::new(Vec::new());
    serde::Serializer::collect_map(&mut s, members)?;
    Ok(s.into_inner())
}

/// Writes bytes with the URL-safe engine of `base64` without padding: in letters,
/// digits, hyphens and low lines, from which the same engine reads the bytes
/// back.
#[verifier::external_body]
pub(crate) fn encode(bytes: &[u8]) -> (r: String)
    ensures
        r@ == encoded(bytes@),
        decoded(r@) == Some(bytes@),
        forall|i: int| 0 <= i < r@.len() ==> is_url_char(#[trigger] r@[i]),
{
    base64::Engine::encode(&base64::engine::general_purpose::URL_SAFE_NO_PAD, bytes)
}

/// Reads a text with the URL-safe engine of `base64` without padding.
#[verifier::external_body]
pub(crate) fn decode(text: &str) -> (r: Option<Vec<u8>>)
    ensures
        match r {
            Some(b) => decoded(text@) == Some(b@),
            None => decoded(text@) is None,
        },
{
    base64::Engine::decode(&base64::engine::general_purpose::URL_SAFE_NO_PAD, text).ok()
}

/// Reads bytes as text with `String::from_utf8`, which takes exactly those that are
/// UTF-8.
#[verifier::external_body]
pub(crate) fn text_of_bytes(bytes: &[u8]) -> (r: Option<String>)
    ensures
        match r {
            Some(s) => valid_utf8(bytes@) && s@ == decode_utf8(bytes@),
            None => !valid_utf8(bytes@),
        },
{
    String::from_utf8(bytes.to_vec()).ok()
}

/// Whether a character is one of the URL-safe alphabet.
pub open spec fn is_url_char(c: char) -> bool {
    ('a' <= c && c <= 'z') || ('A' <= c && c <= 'Z') || ('0' <= c && c <= '9') || c == '-' || c
        == '_'
}

/// Writes a text as `Debug` of `str` does, in quotation marks.
#[verifier::external_body]
pub(crate) fn debug_text(text: &str) -> (r: String)
    ensures
        r@ == debug_of(text@),
{
    format!("{:?}", text)
}

/// The text of a `serde_json::Error`, as its `Display` writes it.
#[verifier::external_body]
pub(crate) fn error_text(e: &serde_json::Error) -> (r: String)
    ensures
        r@ == error_message(*e),
{
    e.to_string()
}

/// Whether a value holds no number but integers, and is nested no deeper than
/// `depth` levels.
pub open spec fn is_simple(v: JsonV, depth: nat) -> bool
    decreases depth,
{
    match v {
        JsonV::Real(_) => false,
        JsonV::Array(s) => depth > 0 && forall|i: int|
            0 <= i < s.len() ==> is_simple(#[trigger] s[i], (depth - 1) as nat),
        JsonV::Object(m) => depth > 0 && forall|i: int|
            0 <= i < m.len() ==> is_simple((#[trigger] m[i]).1, (depth - 1) as nat),
        _ => true,
    }
}

/// Writes a value with `serde_json::to_string_pretty`, which has no error to
/// report for a `serde_json::Value`. The text is not blank. Where the value has no
/// number but integers, and is not nested deeper than `serde_json::from_str` reads,
/// that reads the value back from the text with a line feed behind it.
#[verifier::external_body]
fn value_to_pretty(v: &serde_json::Value) -> (r: Result<String, serde_json::Error>)
    ensures
        r is Ok,
        r matches Ok(s) ==> s@ == pretty_of(json_of(*v)) && !is_blank(s@),
        r matches Ok(s) ==> is_simple(json_of(*v), 127) ==> parsed(s@ + "\n"@) == Some(
            json_of(*v),
        ),
{
    serde_json::to_string_pretty(v)
}

/// The value that a `serde_json::Value` holds.
fn from_value(v: serde_json::Value) -> (out: Json)
    ensures
        out@ == json_of(v),
        tidy(json_of(v)),
    decreases json_of(v),
{
    broadcast use lemma_json_view;

    let ghost whole = json_of(v);
    match open_value(v) {
        Opened::Null => Json::Null,
        Opened::Bool(b) => Json::Bool(b),
        Opened::Uint(n) => Json::Uint(n),
        Opened::Int(n) => Json::Int(n),
        Opened::Real(n) => Json::Real(Real { n }),
        Opened::Str(s) => Json::Str(s),
        Opened::Array(items) => {
            let ghost all = items@;
            let mut out: Vec<Json> = Vec::new();
            for x in it: items
                invariant
                    it.seq() == all,
                    whole == json_of(v),
                    whole == JsonV::Array(opened_items(all)),
                    items_view(out@) == opened_items(all).take(it.index() as int),
                    forall|k: int|
                        0 <= k < it.index() ==> tidy(#[trigger] opened_items(all)[k]),
            {
                proof {
                    let s = opened_items(all);
                    assert(s[it.index() as int] == json_of(x));
                    assert(whole->Array_0[it.index() as int] == json_of(x));
                    assert(decreases_to!(whole => whole->Array_0[it.index() as int]));
                }
                let ghost out0 = out@;
                let j = from_value(x);
                let ghost jv = j@;
                out.push(j);
                proof {
                    assert(items_view(out@) =~= items_view(out0).push(jv));
                    assert(opened_items(all).take(it.index() + 1) =~= opened_items(all).take(
                        it.index() as int,
                    ).push(jv));
                }
            }
            proof {
                assert(opened_items(all).take(all.len() as int) =~= opened_items(all));
            }
            Json::Array(out)
        },
        Opened::Object(members) => {
            let ghost all = members@;
            let mut out: Vec<(String, Json)> = Vec::new();
            for x in it: members
                invariant
                    it.seq() == all,
                    whole == json_of(v),
                    whole == JsonV::Object(opened_members(all)),
                    members_ordered(opened_members(all)),
                    members_view(out@) == opened_members(all).take(it.index() as int),
                    forall|k: int|
                        0 <= k < it.index() ==> tidy((#[trigger] opened_members(all)[k]).1),
            {
                proof {
                    let s = opened_members(all);
                    assert(s[it.index() as int].1 == json_of(x.1));
                    assert(whole->Object_0[it.index() as int].1 == json_of(x.1));
                    assert(decreases_to!(whole => whole->Object_0[it.index() as int].1));
                }
                let ghost out0 = out@;
                let (name, value) = x;
                let j = from_value(value);
                let ghost pair = (name@, j@);
                out.push((name, j));
                proof {
                    assert(members_view(out@) =~= members_view(out0).push(pair));
                    assert(opened_members(all).take(it.index() + 1) =~= opened_members(all).take(
                        it.index() as int,
                    ).push(pair));
                }
            }
            proof {
                assert(opened_members(all).take(all.len() as int) =~= opened_members(all));
            }
            Json::Object(out)
        },
    }
}

/// A `serde_json::Value` that holds a value.
fn to_value(j: &Json) -> (out: serde_json::Value)
    ensures
        json_of(out) == canonical(j@),
    decreases *j,
{
    broadcast use lemma_json_view;

    match j {
        Json::Null => close_value(Opened::Null),
        Json::Bool(b) => close_value(Opened::Bool(*b)),
        Json::Uint(n) => close_value(Opened::Uint(*n)),
        Json::Int(n) => close_value(Opened::Int(*n)),
        Json::Real(n) => {
            let m = n.copy();
            proof {
                use_type_invariant(&m);
            }
            let Real { n: number } = m;
            close_value(Opened::Real(number))
        },
        Json::Str(s) => close_value(Opened::Str(s.clone())),
        Json::Array(v) => {
            let mut out: Vec<serde_json::Value> = Vec::new();
            for i in 0..v.len()
                invariant
                    *j == Json::Array(*v),
                    out@.len() == i,
                    forall|k: int| 0 <= k < i ==> json_of(#[trigger] out@[k]) == canonical(v@[k]@),
            {
                proof {
                    assert(decreases_to!(*j => (*j)->Array_0@[i as int]));
                }
                out.push(to_value(&v[i]));
            }
            proof {
                assert(opened_items(out@) =~= canonical(j@)->Array_0);
            }
            close_value(Opened::Array(out))
        },
        Json::Object(m) => {
            let mut out: Vec<(String, serde_json::Value)> = Vec::new();
            for i in 0..m.len()
                invariant
                    *j == Json::Object(*m),
                    out@.len() == i,
                    forall|k: int|
                        0 <= k < i ==> (#[trigger] out@[k]).0@ == m@[k].0@ && json_of(out@[k].1)
                            == canonical(m@[k].1@),
            {
                proof {
                    assert(decreases_to!(*j => (*j)->Object_0@[i as int].1));
                }
                out.push((m[i].0.clone(), to_value(&m[i].1)));
            }
            proof {
                let mv = members_view(m@);
                assert(opened_members(out@) =~= canonical_members(mv));
            }
            close_value(Opened::Object(out))
        },
    }
}

/// Writes a value as indented JSON text.
pub fn pretty(j: &Json) -> (out: String)
    ensures
        out@ == pretty_of(canonical(j@)),
        !is_blank(out@),
        is_simple(canonical(j@), 127) ==> parsed(out@ + "\n"@) == Some(canonical(j@)),
{
    match value_to_pretty(&to_value(j)) {
        Ok(s) => s,
        Err(_) => String::new(),
    }
}

/// Reads JSON in bytes.
pub fn parse_bytes(bytes: &[u8]) -> (r: Result<Json, serde_json::Error>)
    ensures
        match r {
            Ok(j) => parsed_bytes(bytes@) == Some(j@) && tidy(j@),
            Err(e) => parsed_bytes(bytes@) is None && error_message(e) == slice_failure(bytes@),
        },
{
    match value_from_slice(bytes) {
        Ok(v) => Ok(from_value(v)),
        Err(e) => Err(e),
    }
}

/// Writes an object, its members in the order in which they are given.
pub fn write_object(members: &Vec<(String, Json)>) -> (out: Vec<u8>)
    ensures
        out@ == object_bytes(canonical_members(members_view(members@))),
        (forall|i: int| 0 <= i < members@.len() ==> is_plain((#[trigger] members@[i]).1@))
            ==> out@ == object_bytes(members_view(members@)) && valid_utf8(out@) && is_line(
            decode_utf8(out@),
        ) && struct_fields(out@, field_names(members_view(members@))) == Some(
            members_view(members@),
        ),
{
    let mut all: Vec<(String, serde_json::Value)> = Vec::new();
    for i in 0..members.len()
        invariant
            all@.len() == i,
            forall|k: int|
                0 <= k < i ==> (#[trigger] all@[k]).0@ == members@[k].0@ && json_of(all@[k].1)
                    == canonical(members@[k].1@),
    {
        let m = &members[i];
        all.push((m.0.clone(), to_value(&m.1)));
    }
    proof {
        assert(opened_members(all@) =~= canonical_members(members_view(members@)));
        if forall|i: int| 0 <= i < members@.len() ==> is_plain((#[trigger] members@[i]).1@) {
            assert forall|i: int| 0 <= i < all@.len() implies is_plain(
                json_of((#[trigger] all@[i]).1),
            ) by {
                assert(is_plain(members@[i].1@));
            }
            assert forall|i: int| 0 <= i < members@.len() implies members_view(members@)[i]
                == canonical_members(members_view(members@))[i] by {
                assert(is_plain(members@[i].1@));
            }
            assert(members_view(members@) =~= canonical_members(members_view(members@)));
        }
    }
    match members_to_bytes(all) {
        Ok(b) => b,
        Err(_) => Vec::new(),
    }
}

/// What JSON in bytes holds: none where they are no UTF-8, or no JSON.
pub open spec fn parsed_bytes(bytes: Seq<u8>) -> Option<JsonV> {
    if valid_utf8(bytes) {
        parsed(decode_utf8(bytes))
    } else {
        None
    }
}

/// Reads a JSON text.
pub fn parse(text: &str) -> (r: Result<Json, serde_json::Error>)
    ensures
        match r {
            Ok(j) => parsed(text@) == Some(j@) && parsed(without_returns(text@)) == Some(j@) && tidy(
                j@,
            ),
            Err(e) => parsed(text@) is None && parsed(without_returns(text@)) is None
                && error_message(e) == parse_failure(text@),
        },
{
    match value_from_str(text) {
        Ok(v) => Ok(from_value(v)),
        Err(e) => Err(e),
    }
}

} // verus!
