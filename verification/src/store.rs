//! The session store: where the records of a session lie, which session ids are
//! safe, and what a file of records holds.
//!
//! ```text
//! <sessions_root>/<session-id>/events.jsonl   one event to a line
//! <sessions_root>/<session-id>/raw.jsonl      one verbatim payload to a line
//! <sessions_root>/<session-id>/meta.json      session metadata
//! <sessions_root>/<session-id>/usage.json     token usage
//! ```
use vstd::prelude::*;

use vstd::utf8::{decode_utf8, decode_utf8_encode_utf8, encode_utf8};

use crate::event::{AgentEvent, SCHEMA_VERSION};
use crate::fields::{field_names, read_struct, struct_fields};
use crate::json::{find_member, lemma_json_view, member, members_view, Json, JsonV};
use crate::members::Members;
use crate::order::{own_order, sort, sorted_by, text_less, text_lt, Ordered};
use crate::outside::{is_line, is_plain, object_bytes, text_of_bytes, write_object};
use crate::split::{
    lemma_pieces_extend, lemma_pieces_nonempty, lines, lines_of, pieces, strip_cr, Cut,
};
use crate::text::{begins, blank, chars_of, is_blank, occurs_at, same, views};

verus! {

/// Whether a session id is a single ordinary path component: not empty, without
/// a separator, and neither `.` nor `..`.
pub open spec fn is_component(s: Seq<char>) -> bool {
    s.len() > 0 && !s.contains('/') && s != "."@ && s != ".."@
}

/// Tests whether a session id is a single ordinary path component, so that it
/// cannot lead out of the sessions root.
pub fn is_valid_session_id(session_id: &str) -> (r: bool)
    ensures
        r == is_component(session_id@),
{
    if session_id.is_empty() || same(session_id, ".") || same(session_id, "..") {
        return false;
    }
    let v = chars_of(session_id);
    for i in 0..v.len()
        invariant
            v@ == session_id@,
            forall|j: int| 0 <= j < i ==> v@[j] != '/',
    {
        if v[i] == '/' {
            return false;
        }
    }
    true
}

/// Why the store refuses a request.
#[derive(Debug, Clone, PartialEq, Eq)]
pub enum StoreError {
    /// The session id is not a safe path component.
    InvalidSessionId(String),
}

/// Metadata of a session.
#[derive(Debug, Clone, PartialEq, Eq)]
pub struct SessionMeta {
    /// Schema version.
    pub v: u32,
    /// The session id.
    pub session_id: String,
    /// When the session was first recorded, Unix epoch milliseconds.
    pub created_ts: i64,
}

/// A verbatim payload.
#[derive(Debug, Clone, PartialEq, Eq)]
pub struct RawRecord {
    /// Schema version.
    pub v: u32,
    /// Receive time, Unix epoch milliseconds.
    pub ts: i64,
    /// The session that it was recorded under.
    pub session: String,
    /// The reference that links it to its event.
    pub raw_ref: String,
    /// The payload as it was received.
    pub raw: String,
}

/// The contents of a [`RawRecord`].
pub ghost struct RawRecordV {
    pub v: u32,
    pub ts: i64,
    pub session: Seq<char>,
    pub raw_ref: Seq<char>,
    pub raw: Seq<char>,
}

impl View for RawRecord {
    type V = RawRecordV;

    open spec fn view(&self) -> RawRecordV {
        RawRecordV {
            v: self.v,
            ts: self.ts,
            session: self.session@,
            raw_ref: self.raw_ref@,
            raw: self.raw@,
        }
    }
}

/// The contents of a list of raw records.
pub open spec fn raw_views(v: Seq<RawRecord>) -> Seq<RawRecordV> {
    Seq::new(v.len(), |i: int| v[i]@)
}

/// The members of a raw record.
pub open spec fn raw_members(r: RawRecordV) -> Members {
    seq![
        ("v"@, JsonV::Int(r.v as int)),
        ("ts"@, JsonV::Int(r.ts as int)),
        ("session"@, JsonV::Str(r.session)),
        ("raw_ref"@, JsonV::Str(r.raw_ref)),
        ("raw"@, JsonV::Str(r.raw)),
    ]
}

/// The text of a raw record.
pub open spec fn raw_text(r: RawRecordV) -> Seq<char> {
    decode_utf8(object_bytes(raw_members(r)))
}

/// The names of the fields of a raw record.
pub open spec fn raw_names() -> Seq<Seq<char>> {
    seq!["v"@, "ts"@, "session"@, "raw_ref"@, "raw"@]
}

/// The raw record that fields make up, if they have its types.
pub open spec fn raw_of_fields(m: Members) -> Option<RawRecordV> {
    match (
        member(m, "v"@),
        member(m, "ts"@),
        member(m, "session"@),
        member(m, "raw_ref"@),
        member(m, "raw"@),
    ) {
        (
            Some(JsonV::Int(v)),
            Some(JsonV::Int(ts)),
            Some(JsonV::Str(session)),
            Some(JsonV::Str(raw_ref)),
            Some(JsonV::Str(raw)),
        ) => if 0 <= v <= u32::MAX && i64::MIN <= ts <= i64::MAX {
            Some(RawRecordV { v: v as u32, ts: ts as i64, session, raw_ref, raw })
        } else {
            None
        },
        _ => None,
    }
}

/// The raw record that a line holds.
pub open spec fn raw_in(line: Seq<char>) -> Option<RawRecordV> {
    match struct_fields(encode_utf8(line), raw_names()) {
        Some(m) => raw_of_fields(m),
        None => None,
    }
}

fn raw_from_fields(m: &Vec<(String, Json)>) -> (r: Option<RawRecord>)
    ensures
        raw_view(r) == raw_of_fields(members_view(m@)),
{
    broadcast use lemma_json_view;

    let a: usize = find_member(m, "v");
    let b: usize = find_member(m, "ts");
    let c: usize = find_member(m, "session");
    let d: usize = find_member(m, "raw_ref");
    let e: usize = find_member(m, "raw");
    let n: usize = m.len();
    if a == n || b == n || c == n || d == n || e == n {
        return None;
    }
    match (
        m[a].1.as_u64(),
        m[b].1.as_i64(),
        m[c].1.as_str(),
        m[d].1.as_str(),
        m[e].1.as_str(),
    ) {
        (Some(v), Some(ts), Some(session), Some(raw_ref), Some(raw)) => {
            if v > u32::MAX as u64 {
                return None;
            }
            Some(
                RawRecord {
                    v: v as u32,
                    ts,
                    session: session.to_owned(),
                    raw_ref: raw_ref.to_owned(),
                    raw: raw.to_owned(),
                },
            )
        },
        _ => None,
    }
}

/// What a raw record holds, if there is one.
pub open spec fn raw_view(r: Option<RawRecord>) -> Option<RawRecordV> {
    match r {
        Some(x) => Some(x@),
        None => None,
    }
}

/// Reads the raw record that a line holds.
pub fn read_raw_line(line: &str) -> (r: Option<RawRecord>)
    ensures
        raw_view(r) == raw_in(line@),
{
    let names: Vec<String> = vec![
        "v".to_owned(),
        "ts".to_owned(),
        "session".to_owned(),
        "raw_ref".to_owned(),
        "raw".to_owned(),
    ];
    proof {
        assert(views(names@) =~= raw_names());
    }
    match read_struct(line.as_bytes(), &names) {
        Some(m) => raw_from_fields(&m),
        None => None,
    }
}

proof fn lemma_raw_fields(r: RawRecordV)
    ensures
        raw_of_fields(raw_members(r)) == Some(r),
        field_names(raw_members(r)) == raw_names(),
{
    reveal_strlit("v");
    reveal_strlit("ts");
    reveal_strlit("session");
    reveal_strlit("raw_ref");
    reveal_strlit("raw");
    let m = raw_members(r);
    assert("v"@.len() == 1 && "ts"@.len() == 2 && "raw"@.len() == 3);
    assert("session"@.len() == 7 && "raw_ref"@.len() == 7);
    assert("session"@[0] == 's' && "raw_ref"@[0] == 'r');
    assert(field_names(m) =~= raw_names());
    let m1 = m.skip(1);
    let m2 = m1.skip(1);
    let m3 = m2.skip(1);
    let m4 = m3.skip(1);
    assert(m1[0] == m[1] && m2[0] == m[2] && m3[0] == m[3] && m4[0] == m[4]);
    assert(member(m4, "raw"@) == Some(m[4].1));
    assert(member(m3, "raw"@) == Some(m[4].1));
    assert(member(m2, "raw"@) == Some(m[4].1));
    assert(member(m1, "raw"@) == Some(m[4].1));
    assert(member(m3, "raw_ref"@) == Some(m[3].1));
    assert(member(m2, "raw_ref"@) == Some(m[3].1));
    assert(member(m1, "raw_ref"@) == Some(m[3].1));
    assert(member(m2, "session"@) == Some(m[2].1));
    assert(member(m1, "session"@) == Some(m[2].1));
    assert(member(m1, "ts"@) == Some(m[1].1));
}

/// Writes a raw record as a line of its file, from which it is read back as it is,
/// line feeds in its payload and all.
pub fn raw_line(r: &RawRecord) -> (out: String)
    ensures
        out@ == framed(raw_text(r@)),
        raw_reads_back(r@),
        forall|content: Seq<char>|
            ends_whole(content) ==> #[trigger] raw_records_in(content + out@) == raw_records_in(
                content,
            ).push(Some(r@)),
{
    broadcast use lemma_json_view;

    let members: Vec<(String, Json)> = vec![
        ("v".to_owned(), Json::Uint(r.v as u64)),
        ("ts".to_owned(), Json::Int(r.ts)),
        ("session".to_owned(), Json::Str(r.session.clone())),
        ("raw_ref".to_owned(), Json::Str(r.raw_ref.clone())),
        ("raw".to_owned(), Json::Str(r.raw.clone())),
    ];
    proof {
        assert(members_view(members@) =~= raw_members(r@));
        assert forall|i: int| 0 <= i < members@.len() implies is_plain(
            (#[trigger] members@[i]).1@,
        ) by {}
        lemma_raw_fields(r@);
    }
    let bytes = write_object(&members);
    proof {
        decode_utf8_encode_utf8(bytes@);
    }
    proof {
        assert forall|content: Seq<char>| ends_whole(content) implies #[trigger] raw_records_in(
            content + framed(raw_text(r@)),
        ) == raw_records_in(content).push(Some(r@)) by {
            appended_records_are_read_back(content, raw_text(r@));
            assert(raw_records_in(content + framed(raw_text(r@))) =~= raw_records_in(content).push(
                Some(r@),
            ));
        }
    }
    match text_of_bytes(bytes.as_slice()) {
        Some(text) => frame(text.as_str()),
        None => String::new(),
    }
}

/// Whether a raw record is read back from its text, which can stand as a line.
pub open spec fn raw_reads_back(r: RawRecordV) -> bool {
    is_line(raw_text(r)) && raw_in(raw_text(r)) == Some(r)
}

/// The events of a session, and the number of lines that could not be read.
#[derive(Debug, PartialEq)]
pub struct SessionRead {
    /// The events, in file order.
    pub events: Vec<AgentEvent>,
    /// Lines that could not be read.
    pub skipped_lines: usize,
}

/// The raw records of a session, and the number of lines that could not be read.
#[derive(Debug, PartialEq)]
pub struct RawRead {
    /// The records, in file order.
    pub records: Vec<RawRecord>,
    /// Lines that could not be read.
    pub skipped_lines: usize,
}

/// The path of `name` in the directory `dir`.
pub open spec fn joined_path(dir: Seq<char>, name: Seq<char>) -> Seq<char> {
    if dir.len() == 0 || dir.last() == '/' {
        dir + name
    } else {
        dir + "/"@ + name
    }
}

/// The path of `name`, which does not begin with a separator, in the directory
/// `dir`.
pub fn join_path(dir: &str, name: &str) -> (out: String)
    ensures
        out@ == joined_path(dir@, name@),
{
    let v = chars_of(dir);
    let n: usize = v.len();
    if n == 0 || v[n - 1] == '/' {
        dir.to_owned().concat(name)
    } else {
        dir.to_owned().concat("/").concat(name)
    }
}

/// The non-blank lines.
pub open spec fn nonblank(all: Seq<Seq<char>>) -> Seq<Seq<char>>
    decreases all.len(),
{
    if all.len() == 0 {
        all
    } else if is_blank(all.last()) {
        nonblank(all.drop_last())
    } else {
        nonblank(all.drop_last()).push(all.last())
    }
}

/// The lines of a file that hold a record each: all but the blank ones.
pub fn record_lines(content: &str) -> (out: Vec<String>)
    ensures
        views(out@) == nonblank(lines_of(content@)),
{
    let all = lines(content);
    let ghost av = views(all@);
    let mut out: Vec<String> = Vec::new();
    proof {
        assert(views(out@) =~= nonblank(av.take(0)));
    }
    for i in 0..all.len()
        invariant
            av == views(all@),
            views(out@) == nonblank(av.take(i as int)),
    {
        proof {
            assert(av.take(i + 1).drop_last() =~= av.take(i as int));
            assert(av.take(i + 1).last() == all@[i as int]@);
        }
        let ghost out0 = out@;
        if !blank(all[i].as_str()) {
            out.push(all[i].clone());
            proof {
                assert(views(out@) =~= views(out0).push(all@[i as int]@));
            }
        }
    }
    proof {
        assert(av.take(av.len() as int) =~= av);
    }
    out
}

/// A record as it is put behind the others in a file.
pub open spec fn framed(record: Seq<char>) -> Seq<char> {
    record + "\n"@
}

/// Frames a record, to be put behind the others in a file.
pub fn frame(record: &str) -> (out: String)
    ensures
        out@ == framed(record@),
{
    record.to_owned().concat("\n")
}

/// What the record lines of a file hold, read by `decode`: none for a line that cannot
/// be read.
pub open spec fn records_in<T>(
    content: Seq<char>,
    decode: spec_fn(Seq<char>) -> Option<T>,
) -> Seq<Option<T>> {
    nonblank(lines_of(content)).map_values(decode)
}

/// What the lines of a file of raw records hold.
pub open spec fn raw_records_in(content: Seq<char>) -> Seq<Option<RawRecordV>> {
    records_in(content, |line: Seq<char>| raw_in(line))
}

/// The records that could be read, in order.
pub open spec fn readable<T>(v: Seq<Option<T>>) -> Seq<T>
    decreases v.len(),
{
    if v.len() == 0 {
        Seq::<T>::empty()
    } else {
        match v.last() {
            Some(x) => readable(v.drop_last()).push(x),
            None => readable(v.drop_last()),
        }
    }
}

/// Sorts the record lines of a file into those that could be read, in order,
/// and the number of the others. A line that cannot be read costs no other.
pub fn collect_records<T>(v: Vec<Option<T>>) -> (r: (Vec<T>, usize))
    ensures
        r.0@ == readable(v@),
        r.0@.len() + r.1 == v@.len(),
{
    let ghost all = v@;
    let n: usize = v.len();
    let mut out: Vec<T> = Vec::new();
    let mut skipped: usize = 0;
    proof {
        assert(readable(all.take(0)) =~= Seq::<T>::empty());
    }
    for x in it: v
        invariant
            it.seq() == all,
            n == all.len(),
            out@ == readable(all.take(it.index() as int)),
            out@.len() + skipped == it.index(),
    {
        proof {
            let i = it.index() as int;
            assert(all.take(i + 1).drop_last() =~= all.take(i));
            assert(all.take(i + 1).last() == all[i]);
        }
        match x {
            Some(y) => {
                out.push(y);
            },
            None => {
                skipped = skipped + 1;
            },
        }
    }
    proof {
        assert(all.take(all.len() as int) =~= all);
    }
    (out, skipped)
}

/// A name in the order of strings.
struct Name {
    s: String,
}

impl Ordered for Name {
    closed spec fn before(a: Self, b: Self) -> bool {
        text_lt(a.s@, b.s@)
    }

    fn comes_before(&self, other: &Self) -> (r: bool) {
        text_less(self.s.as_str(), other.s.as_str())
    }
}

/// Sorts names in the order of strings.
pub fn sort_names(v: Vec<String>) -> (out: Vec<String>)
    ensures
        views(out@) == sorted_by(views(v@), |a: Seq<char>, b: Seq<char>| text_lt(a, b)),
{
    let ghost vv = views(v@);
    let mut names: Vec<Name> = Vec::new();
    let ghost all = v@;
    for x in it: v
        invariant
            it.seq() == all,
            names@.len() == it.index(),
            forall|k: int| 0 <= k < names@.len() ==> (#[trigger] names@[k]).s@ == all[k]@,
    {
        names.push(Name { s: x });
    }
    let ghost f = |n: Name| n.s@;
    let ghost lt2 = |a: Seq<char>, b: Seq<char>| text_lt(a, b);
    proof {
        assert(names@.map_values(f) =~= vv);
        crate::order::lemma_sorted_map(names@, f, own_order::<Name>(), lt2);
    }
    let sorted = sort(names);
    let mut out: Vec<String> = Vec::new();
    let ghost sv = sorted@;
    for x in it: sorted
        invariant
            it.seq() == sv,
            out@.len() == it.index(),
            forall|k: int| 0 <= k < out@.len() ==> (#[trigger] out@[k])@ == sv[k].s@,
    {
        out.push(x.s);
    }
    proof {
        assert(views(out@) =~= sv.map_values(f));
    }
    out
}

/// The directory names that are session ids.
pub open spec fn session_names(names: Seq<Seq<char>>) -> Seq<Seq<char>>
    decreases names.len(),
{
    if names.len() == 0 {
        names
    } else if is_component(names.last()) {
        session_names(names.drop_last()).push(names.last())
    } else {
        session_names(names.drop_last())
    }
}

/// What opening a session for writing takes: the paths, and the metadata to
/// write where there is none yet.
#[derive(Debug, PartialEq)]
pub struct Opening {
    /// The directory of the session.
    pub dir: String,
    /// The file of the metadata.
    pub meta_path: String,
    /// The file of the events.
    pub events_path: String,
    /// The file of the raw records.
    pub raw_path: String,
    /// The metadata of a session that is opened for the first time.
    pub meta: SessionMeta,
}

/// The store of a sessions root.
#[derive(Debug, Clone)]
pub struct SessionStore {
    sessions_root: String,
}

impl SessionStore {
    /// The sessions root.
    pub closed spec fn root(self) -> Seq<char> {
        self.sessions_root@
    }

    /// The file `name` of a session.
    pub open spec fn file(self, session_id: Seq<char>, name: Seq<char>) -> Seq<char> {
        joined_path(joined_path(self.root(), session_id), name)
    }

    /// A store at a sessions root.
    pub fn new(sessions_root: &str) -> (s: SessionStore)
        ensures
            s.root() == sessions_root@,
    {
        SessionStore { sessions_root: sessions_root.to_owned() }
    }

    /// The sessions root.
    pub fn sessions_root(&self) -> (r: &str)
        ensures
            r@ == self.root(),
    {
        self.sessions_root.as_str()
    }

    /// The directory of a session. An id that is not a safe path component is
    /// refused.
    pub fn session_dir(&self, session_id: &str) -> (r: Result<String, StoreError>)
        ensures
            match r {
                Ok(p) => is_component(session_id@) && p@ == joined_path(self.root(), session_id@),
                Err(StoreError::InvalidSessionId(s)) => !is_component(session_id@) && s@
                    == session_id@,
            },
    {
        if is_valid_session_id(session_id) {
            Ok(join_path(self.sessions_root.as_str(), session_id))
        } else {
            Err(StoreError::InvalidSessionId(session_id.to_owned()))
        }
    }

    /// The file `name` of a session. An id that is not a safe path component is
    /// refused.
    pub fn session_file(&self, session_id: &str, name: &str) -> (r: Result<String, StoreError>)
        ensures
            match r {
                Ok(p) => is_component(session_id@) && p@ == self.file(session_id@, name@),
                Err(StoreError::InvalidSessionId(s)) => !is_component(session_id@) && s@
                    == session_id@,
            },
    {
        match self.session_dir(session_id) {
            Ok(dir) => Ok(join_path(dir.as_str(), name)),
            Err(e) => Err(e),
        }
    }

    /// What opening a session for writing takes.
    pub fn open(&self, session_id: &str, created_ts: i64) -> (r: Result<Opening, StoreError>)
        ensures
            match r {
                Ok(o) => {
                    &&& is_component(session_id@)
                    &&& o.dir@ == joined_path(self.root(), session_id@)
                    &&& o.meta_path@ == self.file(session_id@, "meta.json"@)
                    &&& o.events_path@ == self.file(session_id@, "events.jsonl"@)
                    &&& o.raw_path@ == self.file(session_id@, "raw.jsonl"@)
                    &&& o.meta.v == SCHEMA_VERSION
                    &&& o.meta.session_id@ == session_id@
                    &&& o.meta.created_ts == created_ts
                },
                Err(StoreError::InvalidSessionId(s)) => !is_component(session_id@) && s@
                    == session_id@,
            },
    {
        match self.session_dir(session_id) {
            Ok(dir) => Ok(
                Opening {
                    meta_path: join_path(dir.as_str(), "meta.json"),
                    events_path: join_path(dir.as_str(), "events.jsonl"),
                    raw_path: join_path(dir.as_str(), "raw.jsonl"),
                    meta: SessionMeta {
                        v: SCHEMA_VERSION,
                        session_id: session_id.to_owned(),
                        created_ts,
                    },
                    dir,
                },
            ),
            Err(e) => Err(e),
        }
    }

    /// The events of a session, from what was read of each record line of its
    /// event file.
    pub fn read(&self, session_id: &str, parsed: Vec<Option<AgentEvent>>) -> (r: Result<
        SessionRead,
        StoreError,
    >)
        ensures
            match r {
                Ok(read) => {
                    &&& is_component(session_id@)
                    &&& read.events@ == readable(parsed@)
                    &&& read.events@.len() + read.skipped_lines == parsed@.len()
                },
                Err(StoreError::InvalidSessionId(s)) => !is_component(session_id@) && s@
                    == session_id@,
            },
    {
        if !is_valid_session_id(session_id) {
            return Err(StoreError::InvalidSessionId(session_id.to_owned()));
        }
        let (events, skipped_lines) = collect_records(parsed);
        Ok(SessionRead { events, skipped_lines })
    }

    /// The raw records of a session, from the contents of its raw file.
    pub fn read_raw(&self, session_id: &str, content: &str) -> (r: Result<RawRead, StoreError>)
        ensures
            match r {
                Ok(read) => {
                    &&& is_component(session_id@)
                    &&& raw_views(read.records@) == readable(raw_records_in(content@))
                    &&& read.records@.len() + read.skipped_lines == raw_records_in(content@).len()
                },
                Err(StoreError::InvalidSessionId(s)) => !is_component(session_id@) && s@
                    == session_id@,
            },
    {
        if !is_valid_session_id(session_id) {
            return Err(StoreError::InvalidSessionId(session_id.to_owned()));
        }
        let all = record_lines(content);
        let ghost av = views(all@);
        let mut parsed: Vec<Option<RawRecord>> = Vec::new();
        for i in 0..all.len()
            invariant
                av == views(all@),
                parsed@.len() == i,
                forall|k: int| 0 <= k < i ==> raw_view(#[trigger] parsed@[k]) == raw_in(av[k]),
        {
            parsed.push(read_raw_line(all[i].as_str()));
        }
        let ghost pv = parsed@;
        let (records, skipped_lines) = collect_records(parsed);
        proof {
            assert(pv.map_values(|x: Option<RawRecord>| raw_view(x)) =~= raw_records_in(content@));
            lemma_readable_views(pv);
        }
        Ok(RawRead { records, skipped_lines })
    }

    /// The recorded sessions, from the names of the directories under the
    /// sessions root: those that are session ids, in order.
    pub fn list_sessions(&self, directories: Vec<String>) -> (out: Vec<String>)
        ensures
            views(out@) == sorted_by(
                session_names(views(directories@)),
                |a: Seq<char>, b: Seq<char>| text_lt(a, b),
            ),
    {
        let ghost dv = views(directories@);
        let mut ids: Vec<String> = Vec::new();
        proof {
            assert(views(ids@) =~= session_names(dv.take(0)));
        }
        for i in 0..directories.len()
            invariant
                dv == views(directories@),
                views(ids@) == session_names(dv.take(i as int)),
        {
            proof {
                assert(dv.take(i + 1).drop_last() =~= dv.take(i as int));
                assert(dv.take(i + 1).last() == directories@[i as int]@);
            }
            let ghost ids0 = ids@;
            if is_valid_session_id(directories[i].as_str()) {
                ids.push(directories[i].clone());
                proof {
                    assert(views(ids@) =~= views(ids0).push(directories@[i as int]@));
                }
            }
        }
        proof {
            assert(dv.take(dv.len() as int) =~= dv);
        }
        sort_names(ids)
    }
}

// ---------------------------------------------------------------------------
// Laws
// ---------------------------------------------------------------------------

/// The bucket for payloads without a session is itself a safe session id.
pub proof fn unknown_session_is_safe()
    ensures
        is_component("unknown-session"@),
{
    reveal_strlit("unknown-session");
    reveal_strlit(".");
    reveal_strlit("..");
    let s = "unknown-session"@;
    assert(s.len() == 15);
    assert forall|i: int| 0 <= i < s.len() implies s[i] != '/' by {}
}

/// The file of a session lies in a directory directly under the sessions root:
/// behind the root, its path has the session id, which holds no separator, and
/// then the name of the file. A separator stands between the root and the id, unless
/// the root is empty or ends with one.
pub proof fn session_files_stay_inside(store: SessionStore, id: Seq<char>, name: Seq<char>)
    requires
        is_component(id),
    ensures
        store.file(id, name) == (if store.root().len() == 0 || store.root().last() == '/' {
            store.root() + id + "/"@ + name
        } else {
            store.root() + "/"@ + id + "/"@ + name
        }),
        begins(store.file(id, name), store.root()),
        !id.contains('/'),
        id != "."@ && id != ".."@,
{
    let dir = joined_path(store.root(), id);
    assert(dir.last() == id.last());
    assert(id.last() != '/') by {
        if id.last() == '/' {
            assert(id[id.len() - 1] == '/');
            assert(id.contains('/'));
        }
    }
    let root = store.root();
    let path = store.file(id, name);
    assert(path.subrange(0, root.len() as int) =~= root);
    assert(occurs_at(path, root, 0));
}

/// Whether a file is empty or ends with the end of a line.
pub open spec fn ends_whole(content: Seq<char>) -> bool {
    content.len() == 0 || content.last() == '\n'
}

/// What is put behind the records of a file is read back as the last of them, and
/// the others are read as before. A record is on one line and is not blank; the file
/// is empty or ends with a line.
pub proof fn appended_records_are_read_back(content: Seq<char>, record: Seq<char>)
    requires
        ends_whole(content),
        is_line(record),
    ensures
        nonblank(lines_of(content + framed(record))) == nonblank(lines_of(content)).push(record),
        ends_whole(content + framed(record)),
{
    assert(record.last() != '\r') by {
        if record.last() == '\r' {
            assert(record[record.len() - 1] == '\r');
            assert(record.contains('\r'));
        }
    }
    reveal_strlit("\n");
    let cut = Cut::At('\n');
    let p = pieces(content, cut);
    lemma_pieces_nonempty(content, cut);
    lemma_pieces_extend(content, record);
    let all = content + framed(record);
    assert(all.drop_last() =~= content + record);
    assert(all.last() == '\n');
    let q = pieces(all, cut);
    assert(p.last().len() == 0);
    assert(p.last() + record =~= record);
    assert(q =~= p.drop_last().push(record).push(Seq::<char>::empty()));
    let before = lines_of(content);
    assert(lines_of(all) =~= before.push(record)) by {
        assert forall|i: int| 0 <= i < before.len() implies before[i] == #[trigger] strip_cr(
            q[i],
        ) by {
            assert(q[i] == p[i]);
        }
        assert(strip_cr(record) == record);
        assert(q[before.len() as int] == record);
    }
    assert(before.push(record).drop_last() =~= before);
}

/// A file with the lines of records put behind what it holds, one after the other.
pub open spec fn with_lines(content: Seq<char>, lines: Seq<Seq<char>>) -> Seq<char>
    decreases lines.len(),
{
    if lines.len() == 0 {
        content
    } else {
        with_lines(content, lines.drop_last()) + framed(lines.last())
    }
}

/// However many records are put behind those of a file, they are read back, as they
/// are and in order, behind the records that were there, and as many lines as before
/// cannot be read. The file is empty or ends with a line; what is written of a record
/// is one line, from which `decode` reads the record back.
pub proof fn all_appended_records_are_read_back<T>(
    content: Seq<char>,
    records: Seq<T>,
    encode: spec_fn(T) -> Seq<char>,
    decode: spec_fn(Seq<char>) -> Option<T>,
)
    requires
        ends_whole(content),
        forall|i: int|
            0 <= i < records.len() ==> is_line(encode(#[trigger] records[i])) && decode(
                encode(records[i]),
            ) == Some(records[i]),
    ensures
        ({
            let before = records_in(content, decode);
            let after = records_in(with_lines(content, records.map_values(encode)), decode);
            &&& readable(after) == readable(before) + records
            &&& after.len() - readable(after).len() == before.len() - readable(before).len()
        }),
        ends_whole(with_lines(content, records.map_values(encode))),
    decreases records.len(),
{
    let lines = records.map_values(encode);
    let before = records_in(content, decode);
    if records.len() == 0 {
        assert(readable(before) + records =~= readable(before));
    } else {
        let rest = records.drop_last();
        let x = records.last();
        assert forall|i: int| 0 <= i < rest.len() implies is_line(encode(#[trigger] rest[i]))
            && decode(encode(rest[i])) == Some(rest[i]) by {
            assert(rest[i] == records[i]);
        }
        all_appended_records_are_read_back(content, rest, encode, decode);
        assert(lines.drop_last() =~= rest.map_values(encode));
        assert(is_line(encode(records[records.len() - 1])));
        let most = with_lines(content, lines.drop_last());
        appended_records_are_read_back(most, encode(x));
        let middle = records_in(most, decode);
        let after = records_in(with_lines(content, lines), decode);
        assert(after =~= middle.push(Some(x)));
        assert(after.drop_last() =~= middle);
        assert(readable(after) =~= readable(before) + records);
    }
}

/// However many raw records are put behind those of a raw file, [`SessionStore::read_raw`]
/// reads them back, as they are and in order, behind the records that were there, and
/// skips as many lines as before. That each is read back by itself is what [`raw_line`]
/// gives of every record.
pub proof fn all_appended_raw_records_are_read_back(content: Seq<char>, records: Seq<RawRecordV>)
    requires
        ends_whole(content),
        forall|i: int| 0 <= i < records.len() ==> raw_reads_back(#[trigger] records[i]),
    ensures
        ({
            let before = raw_records_in(content);
            let after = raw_records_in(
                with_lines(content, records.map_values(|r: RawRecordV| raw_text(r))),
            );
            &&& readable(after) == readable(before) + records
            &&& after.len() - readable(after).len() == before.len() - readable(before).len()
        }),
{
    let encode = |r: RawRecordV| raw_text(r);
    let decode = |line: Seq<char>| raw_in(line);
    assert forall|i: int| 0 <= i < records.len() implies is_line(encode(#[trigger] records[i]))
        && decode(encode(records[i])) == Some(records[i]) by {
        assert(raw_reads_back(records[i]));
    }
    all_appended_records_are_read_back(content, records, encode, decode);
}

proof fn lemma_readable_views(v: Seq<Option<RawRecord>>)
    ensures
        raw_views(readable(v)) == readable(v.map_values(|x: Option<RawRecord>| raw_view(x))),
    decreases v.len(),
{
    let m = v.map_values(|x: Option<RawRecord>| raw_view(x));
    if v.len() > 0 {
        lemma_readable_views(v.drop_last());
        assert(m.drop_last() =~= v.drop_last().map_values(|x: Option<RawRecord>| raw_view(x)));
        assert(m.last() == raw_view(v.last()));
        assert(raw_views(readable(v)) =~= readable(m));
    } else {
        assert(raw_views(readable(v)) =~= readable(m));
    }
}

/// A record that cannot be read costs no other: the records before it and those
/// behind it are read as if it were not there.
pub proof fn damaged_records_hide_no_others<T>(before: Seq<Option<T>>, behind: Seq<Option<T>>)
    ensures
        readable(before.push(None) + behind) == readable(before) + readable(behind),
    decreases behind.len(),
{
    let all = before.push(None) + behind;
    if behind.len() == 0 {
        assert(all =~= before.push(None));
        assert(all.drop_last() =~= before);
        assert(readable(before) + readable(behind) =~= readable(before));
    } else {
        damaged_records_hide_no_others(before, behind.drop_last());
        assert(all.drop_last() =~= before.push(None) + behind.drop_last());
        assert(all.last() == behind.last());
        assert(readable(all) =~= readable(before) + readable(behind));
    }
}

/// The record lines of a file are those that are not blank, in order, and the records are
/// those of them that could be read, in order.
pub proof fn records_are_kept_in_order<T>(all: Seq<Seq<char>>, v: Seq<Option<T>>)
    ensures
        nonblank(all) == all.filter(|l: Seq<char>| !is_blank(l)),
        readable(v) == v.filter(|x: Option<T>| x is Some).map_values(|x: Option<T>| x->0),
{
    lemma_nonblank(all);
    lemma_readable(v);
}

proof fn lemma_nonblank(all: Seq<Seq<char>>)
    ensures
        nonblank(all) == all.filter(|l: Seq<char>| !is_blank(l)),
    decreases all.len(),
{
    reveal(Seq::filter);
    if all.len() > 0 {
        lemma_nonblank(all.drop_last());
    } else {
        assert(all =~= all.filter(|l: Seq<char>| !is_blank(l)));
    }
}

proof fn lemma_readable<T>(v: Seq<Option<T>>)
    ensures
        readable(v) == v.filter(|x: Option<T>| x is Some).map_values(|x: Option<T>| x->0),
    decreases v.len(),
{
    let p = |x: Option<T>| x is Some;
    let f = |x: Option<T>| x->0;
    reveal(Seq::filter);
    if v.len() > 0 {
        let t = v.drop_last();
        lemma_readable(t);
        if p(v.last()) {
            assert(t.filter(p).push(v.last()).map_values(f) =~= t.filter(p).map_values(f).push(
                f(v.last()),
            ));
        }
    }
    assert(readable(v) =~= v.filter(p).map_values(f));
}

/// The sessions are the directories that are session ids, and no others: names that are not
/// empty, have no separator, and are neither the directory itself nor the one above.
pub proof fn sessions_are_the_directories_with_ids(names: Seq<Seq<char>>)
    ensures
        session_names(names) == names.filter(
            |s: Seq<char>|
                s.len() > 0 && s != "."@ && s != ".."@ && forall|i: int|
                    0 <= i < s.len() ==> #[trigger] s[i] != '/',
        ),
    decreases names.len(),
{
    let p = |s: Seq<char>|
        s.len() > 0 && s != "."@ && s != ".."@ && forall|i: int|
            0 <= i < s.len() ==> #[trigger] s[i] != '/';
    reveal(Seq::filter);
    if names.len() > 0 {
        sessions_are_the_directories_with_ids(names.drop_last());
        let s = names.last();
        if p(s) && s.contains('/') {
            let i = s.index_of('/');
            assert(s[i] != '/');
        }
        if is_component(s) {
            assert forall|i: int| 0 <= i < s.len() implies #[trigger] s[i] != '/' by {
                assert(s.contains(s[i]));
            }
        }
        assert(p(s) <==> is_component(s));
    } else {
        assert(session_names(names) =~= names.filter(p));
    }
}

} // verus!
