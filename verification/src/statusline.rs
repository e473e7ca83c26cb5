//! The status line: a segment that tells whether the current session is being
//! recorded, and its place in the settings.
//!
//! Only one status line command can be set. One that is not ours is wrapped, not
//! replaced: it is kept word for word inside ours, and removing ours puts it
//! back. What is not understood is left alone.
use vstd::prelude::*;

use crate::count::{how_many, lemma_how_many};
use crate::fields::{field_names, read_struct, struct_fields};
use crate::init::or_empty;
use crate::json::{
    find_member, lemma_json_view, member, members_view, remove_member, without_member, Json, JsonV,
};
use crate::members::{
    lemma_place, lemma_put, lemma_put_put, lemma_put_same, lemma_put_tidy, lemma_without_tidy,
    place_of, put, put_member, tidy, tidy_members, Members,
};
use crate::num::{decimal, decimal_usize};
use crate::outside::{
    decode, decoded, encode, encoded, is_plain, is_simple, is_url_char, object_bytes, parse, parsed,
    write_object,
};
use crate::settings::{
    load_settings, loaded, settings_text, write_settings, SettingsError, SettingsErrorV,
};
use crate::split::{lines, lines_of};
use crate::store::{join_path, joined_path};
use crate::text::{
    begins, contains_text, has_text, is_space, occurs_at, opt_str, opt_view, same, starts_with,
    strip_prefix, trim, trim_back, trim_end, trim_front, trim_start, trimmed, views,
};

verus! {

/// Our command.
pub const STATUSLINE_COMMAND: &'static str = "agent-witness statusline";

/// The flag that a wrapped command stands behind.
pub const WRAP_FLAG: &'static str = "--wrap-v1";

/// The segment of a session that is being recorded.
pub const SEG_RECORDING: &'static str = "● witness";

/// The segment of a session that is not being recorded.
pub const SEG_NOT_RECORDING: &'static str = "○ witness not recording";

/// What stands between the wrapped segment and ours.
pub const SEG_SEPARATOR: &'static str = " | ";

/// What happened to the status line.
#[derive(Debug, Clone, Copy, PartialEq, Eq, Structural)]
pub enum StatuslineOutcome {
    /// There was none, and ours was set.
    Installed,
    /// There was another, and ours was wrapped around it.
    Wrapped,
    /// Ours was there.
    AlreadyInstalled,
    /// Ours was taken out.
    Removed,
    /// Ours was taken out, and the wrapped one put back.
    Restored,
    /// Ours was not there.
    NothingToRemove,
    /// There is one that is not understood, and was left alone.
    SkippedUnrecognized,
}

// ---------------------------------------------------------------------------
// The envelope
// ---------------------------------------------------------------------------

/// The members of the envelope of a command.
pub open spec fn envelope_members(original: Seq<char>) -> Members {
    seq![
        ("original_command"@, JsonV::Str(original)),
        ("installed_by"@, JsonV::Str("agent-witness"@)),
        ("version"@, JsonV::Int(1)),
    ]
}

/// The text of the envelope of a command.
pub open spec fn payload_of(original: Seq<char>) -> Seq<char> {
    encoded(object_bytes(envelope_members(original)))
}

/// Our command, wrapped around another.
pub open spec fn wrapped_of(original: Seq<char>) -> Seq<char> {
    STATUSLINE_COMMAND@ + " "@ + WRAP_FLAG@ + " "@ + payload_of(original)
}

/// The names of the fields of an envelope.
pub open spec fn envelope_names() -> Seq<Seq<char>> {
    seq!["original_command"@, "installed_by"@, "version"@]
}

/// The command in an envelope, if its three fields show that it is one of ours.
pub open spec fn envelope_command(m: Members) -> Option<Seq<char>> {
    match (
        member(m, "original_command"@),
        member(m, "installed_by"@),
        member(m, "version"@),
    ) {
        (Some(JsonV::Str(original)), Some(JsonV::Str(by)), Some(JsonV::Int(version))) => if by
            == "agent-witness"@ && version == 1 {
            Some(original)
        } else {
            None
        },
        _ => None,
    }
}

/// The command in the text of an envelope.
pub open spec fn unwrapped(payload: Seq<char>) -> Option<Seq<char>> {
    match decoded(payload) {
        Some(bytes) => match struct_fields(bytes, envelope_names()) {
            Some(m) => envelope_command(m),
            None => None,
        },
        None => None,
    }
}

/// What the status line of settings is.
pub ghost enum LineV {
    /// There is none.
    Absent,
    /// Ours.
    Bare,
    /// Ours, wrapped around another.
    Wrapping(Seq<char>),
    /// Another command.
    Foreign(Seq<char>),
    /// Something that is not understood.
    Unrecognized,
}

/// What a status line command is. One that looks like ours but is not is not
/// understood.
pub open spec fn command_class(command: Seq<char>) -> LineV {
    let rest = command.skip(STATUSLINE_COMMAND@.len() as int);
    let flagged = trim_front(rest);
    if command == STATUSLINE_COMMAND@ {
        LineV::Bare
    } else if !begins(command, STATUSLINE_COMMAND@) {
        LineV::Foreign(command)
    } else if begins(flagged, WRAP_FLAG@) {
        match unwrapped(trimmed(flagged.skip(WRAP_FLAG@.len() as int))) {
            Some(original) => LineV::Wrapping(original),
            None => LineV::Unrecognized,
        }
    } else {
        LineV::Unrecognized
    }
}

/// The command of a status line.
pub open spec fn line_command(v: JsonV) -> Option<Seq<char>> {
    if v is Object && v.text_at("type"@) == Some("command"@) {
        v.text_at("command"@)
    } else {
        None
    }
}

/// What the status line of settings is.
pub open spec fn line_class(v: Option<JsonV>) -> LineV {
    match v {
        None => LineV::Absent,
        Some(v) => match line_command(v) {
            Some(command) => command_class(command),
            None => LineV::Unrecognized,
        },
    }
}

/// What the status line of settings is.
#[derive(Debug)]
pub enum Line {
    /// There is none.
    Absent,
    /// Ours.
    Bare,
    /// Ours, wrapped around another.
    Wrapping(String),
    /// Another command.
    Foreign(String),
    /// Something that is not understood.
    Unrecognized,
}

impl View for Line {
    type V = LineV;

    open spec fn view(&self) -> LineV {
        match *self {
            Line::Absent => LineV::Absent,
            Line::Bare => LineV::Bare,
            Line::Wrapping(s) => LineV::Wrapping(s@),
            Line::Foreign(s) => LineV::Foreign(s@),
            Line::Unrecognized => LineV::Unrecognized,
        }
    }
}

fn read_envelope(m: &Vec<(String, Json)>) -> (r: Option<String>)
    ensures
        opt_view(r) == envelope_command(members_view(m@)),
{
    broadcast use lemma_json_view;

    let i: usize = find_member(m, "original_command");
    let j: usize = find_member(m, "installed_by");
    let k: usize = find_member(m, "version");
    if i == m.len() || j == m.len() || k == m.len() {
        return None;
    }
    match (m[i].1.as_str(), m[j].1.as_str(), m[k].1.as_u64()) {
        (Some(original), Some(by), Some(1)) => if same(by, "agent-witness") {
            Some(original.to_owned())
        } else {
            None
        },
        _ => None,
    }
}

/// Reads the command in the text of an envelope. A field that is there twice makes it
/// none, and fields of other names are no matter.
pub fn decode_wrap(payload: &str) -> (r: Option<String>)
    ensures
        opt_view(r) == unwrapped(payload@),
{
    let names: Vec<String> = vec![
        "original_command".to_owned(),
        "installed_by".to_owned(),
        "version".to_owned(),
    ];
    proof {
        assert(views(names@) =~= envelope_names());
    }
    match decode(payload) {
        Some(bytes) => match read_struct(bytes.as_slice(), &names) {
            Some(m) => read_envelope(&m),
            None => None,
        },
        None => None,
    }
}

proof fn lemma_envelope(original: Seq<char>)
    ensures
        envelope_command(envelope_members(original)) == Some(original),
        field_names(envelope_members(original)) == envelope_names(),
{
    reveal_strlit("original_command");
    reveal_strlit("installed_by");
    reveal_strlit("version");
    let m = envelope_members(original);
    assert("original_command"@[0] == 'o');
    assert("installed_by"@[0] == 'i');
    assert("version"@[0] == 'v');
    assert(field_names(m) =~= envelope_names());
    let t = m.skip(1);
    assert(t =~= seq![m[1], m[2]]);
    assert(t.skip(1) =~= seq![m[2]]);
    assert(member(t.skip(1), "version"@) == Some(m[2].1));
    assert(member(t, "version"@) == Some(m[2].1));
    assert(member(t, "installed_by"@) == Some(m[1].1));
}

proof fn lemma_no_space(c: char)
    requires
        is_url_char(c),
    ensures
        !is_space(c),
{
}

proof fn lemma_trim_payload(p: Seq<char>)
    requires
        forall|i: int| 0 <= i < p.len() ==> is_url_char(#[trigger] p[i]),
    ensures
        trimmed(" "@ + p) == p,
{
    reveal_strlit(" ");
    let s = " "@ + p;
    assert(s[0] == ' ');
    assert(s.skip(1) =~= p);
    if p.len() > 0 {
        lemma_no_space(p[0]);
        lemma_no_space(p[p.len() - 1]);
        assert(trim_front(p) == p);
        assert(trim_back(p) == p);
    } else {
        assert(trim_front(p) == p);
        assert(trim_back(p) == p);
    }
}

proof fn lemma_wrapped_class(original: Seq<char>, payload: Seq<char>)
    requires
        forall|i: int| 0 <= i < payload.len() ==> is_url_char(#[trigger] payload[i]),
        unwrapped(payload) == Some(original),
    ensures
        command_class(STATUSLINE_COMMAND@ + " "@ + WRAP_FLAG@ + " "@ + payload) == LineV::Wrapping(
            original,
        ),
{
    reveal_strlit(" ");
    reveal_strlit("--wrap-v1");
    let c = STATUSLINE_COMMAND@;
    let n = c.len() as int;
    let whole = c + " "@ + WRAP_FLAG@ + " "@ + payload;
    assert(whole.len() > n);
    assert(whole.subrange(0, n) =~= c);
    assert(occurs_at(whole, c, 0));
    let rest = whole.skip(n);
    assert(rest =~= " "@ + (WRAP_FLAG@ + " "@ + payload));
    let flagged = WRAP_FLAG@ + " "@ + payload;
    assert(rest[0] == ' ');
    assert(rest.skip(1) =~= flagged);
    assert(flagged[0] == '-');
    assert(trim_front(flagged) == flagged);
    assert(trim_front(rest) == flagged);
    let w = WRAP_FLAG@.len() as int;
    assert(flagged.subrange(0, w) =~= WRAP_FLAG@);
    assert(occurs_at(flagged, WRAP_FLAG@, 0));
    assert(flagged.skip(w) =~= " "@ + payload);
    lemma_trim_payload(payload);
}

/// Wraps our command around another, which can be read back from it exactly.
pub fn wrapped_command(original: &str) -> (out: String)
    ensures
        out@ == wrapped_of(original@),
        command_class(out@) == LineV::Wrapping(original@),
        unwrapped(payload_of(original@)) == Some(original@),
{
    broadcast use lemma_json_view;

    let members: Vec<(String, Json)> = vec![
        ("original_command".to_owned(), Json::Str(original.to_owned())),
        ("installed_by".to_owned(), Json::Str("agent-witness".to_owned())),
        ("version".to_owned(), Json::Uint(1)),
    ];
    proof {
        assert(members_view(members@) =~= envelope_members(original@));
        lemma_envelope(original@);
        assert forall|i: int| 0 <= i < members@.len() implies is_plain(
            (#[trigger] members@[i]).1@,
        ) by {}
    }
    let bytes = write_object(&members);
    let payload = encode(bytes.as_slice());
    proof {
        lemma_wrapped_class(original@, payload@);
    }
    STATUSLINE_COMMAND.to_owned().concat(" ").concat(WRAP_FLAG).concat(" ").concat(
        payload.as_str(),
    )
}

fn classify_command(command: &str) -> (r: Line)
    ensures
        r@ == command_class(command@),
{
    if same(command, STATUSLINE_COMMAND) {
        return Line::Bare;
    }
    let rest = match strip_prefix(command, STATUSLINE_COMMAND) {
        Some(rest) => rest,
        None => {
            return Line::Foreign(command.to_owned());
        },
    };
    match strip_prefix(trim_start(rest.as_str()).as_str(), WRAP_FLAG) {
        Some(payload) => match decode_wrap(trim(payload.as_str()).as_str()) {
            Some(original) => Line::Wrapping(original),
            None => Line::Unrecognized,
        },
        None => Line::Unrecognized,
    }
}

/// Tells what the status line of settings is.
pub fn classify(value: Option<&Json>) -> (r: Line)
    ensures
        r@ == line_class(crate::json::opt_json(value)),
{
    broadcast use lemma_json_view;

    let v = match value {
        None => {
            return Line::Absent;
        },
        Some(v) => v,
    };
    if !v.is_object() {
        return Line::Unrecognized;
    }
    let typed = match v.str_at("type") {
        Some(t) => same(t, "command"),
        None => false,
    };
    if !typed {
        return Line::Unrecognized;
    }
    match v.str_at("command") {
        Some(command) => classify_command(command),
        None => Line::Unrecognized,
    }
}

// ---------------------------------------------------------------------------
// Installing and removing
// ---------------------------------------------------------------------------

/// The settings with another command in their status line, which is an object.
pub open spec fn with_command(root: Members, command: Seq<char>) -> Members {
    let line = member(root, "statusLine"@)->0->Object_0;
    put(
        root,
        "statusLine"@,
        JsonV::Object(
            put(put(line, "command"@, JsonV::Str(command)), "type"@, JsonV::Str("command"@)),
        ),
    )
}

/// Our status line.
pub open spec fn own_line() -> JsonV {
    JsonV::Object(
        seq![("command"@, JsonV::Str(STATUSLINE_COMMAND@)), ("type"@, JsonV::Str("command"@))],
    )
}

/// What installing does to settings.
pub open spec fn line_installed(root: Members) -> (StatuslineOutcome, Members) {
    match line_class(member(root, "statusLine"@)) {
        LineV::Bare => (StatuslineOutcome::AlreadyInstalled, root),
        LineV::Wrapping(_) => (StatuslineOutcome::AlreadyInstalled, root),
        LineV::Unrecognized => (StatuslineOutcome::SkippedUnrecognized, root),
        LineV::Absent => (
            StatuslineOutcome::Installed,
            put(root, "statusLine"@, own_line()),
        ),
        LineV::Foreign(original) => (
            StatuslineOutcome::Wrapped,
            with_command(root, wrapped_of(original)),
        ),
    }
}

/// What removing does to settings.
pub open spec fn line_removed(root: Members) -> (StatuslineOutcome, Members) {
    match line_class(member(root, "statusLine"@)) {
        LineV::Absent => (StatuslineOutcome::NothingToRemove, root),
        LineV::Foreign(_) => (StatuslineOutcome::NothingToRemove, root),
        LineV::Unrecognized => (StatuslineOutcome::SkippedUnrecognized, root),
        LineV::Bare => (StatuslineOutcome::Removed, without_member(root, "statusLine"@)),
        LineV::Wrapping(original) => (
            StatuslineOutcome::Restored,
            with_command(root, original),
        ),
    }
}

fn set_command(root: &mut Vec<(String, Json)>, command: &str)
    requires
        member(members_view(old(root)@), "statusLine"@) is Some,
        member(members_view(old(root)@), "statusLine"@)->0 is Object,
    ensures
        members_view(final(root)@) == with_command(members_view(old(root)@), command@),
{
    broadcast use lemma_json_view;

    let k: usize = find_member(root, "statusLine");
    match root[k].1.clone() {
        Json::Object(mut line) => {
            put_member(&mut line, "command", Json::Str(command.to_owned()));
            put_member(&mut line, "type", Json::Str("command".to_owned()));
            put_member(root, "statusLine", Json::Object(line));
        },
        _ => {},
    }
}

proof fn lemma_own_line()
    ensures
        line_class(Some(own_line())) == LineV::Bare,
        tidy(own_line()),
        is_simple(own_line(), 1),
{
    reveal_strlit("command");
    reveal_strlit("type");
    let m = own_line()->Object_0;
    assert("command"@[0] == 'c');
    assert("type"@[0] == 't');
    assert(crate::order::text_lt("command"@, "type"@));
    assert(member(m, "command"@) == Some(m[0].1));
    assert(m.skip(1) =~= seq![m[1]]);
    assert(member(seq![m[1]], "type"@) == Some(m[1].1));
    assert(member(m, "type"@) == Some(m[1].1));
    assert(tidy(m[0].1) && tidy(m[1].1));
    reveal_with_fuel(is_simple, 2);
}

/// Sets our status line in settings, or wraps it around the one there.
///
/// What was wrapped is put back by removing, and to install again changes nothing.
pub fn install_line(root: &mut Vec<(String, Json)>) -> (outcome: StatuslineOutcome)
    ensures
        (outcome, members_view(final(root)@)) == line_installed(members_view(old(root)@)),
        outcome is Wrapped ==> line_removed(members_view(final(root)@)) == (
            StatuslineOutcome::Restored,
            members_view(old(root)@),
        ),
        outcome is Installed || outcome is Wrapped ==> line_installed(members_view(final(root)@))
            == (StatuslineOutcome::AlreadyInstalled, members_view(final(root)@)),
{
    broadcast use lemma_json_view;

    let ghost rv = members_view(root@);
    let k: usize = find_member(root, "statusLine");
    let line = if k < root.len() {
        classify(Some(&root[k].1))
    } else {
        classify(None)
    };
    match line {
        Line::Bare => StatuslineOutcome::AlreadyInstalled,
        Line::Wrapping(_) => StatuslineOutcome::AlreadyInstalled,
        Line::Unrecognized => StatuslineOutcome::SkippedUnrecognized,
        Line::Absent => {
            let members: Vec<(String, Json)> = vec![
                ("command".to_owned(), Json::Str(STATUSLINE_COMMAND.to_owned())),
                ("type".to_owned(), Json::Str("command".to_owned())),
            ];
            let own = Json::Object(members);
            proof {
                assert(own@->Object_0 =~= own_line()->Object_0);
                lemma_own_line();
                lemma_put(rv, "statusLine"@, own_line());
            }
            put_member(root, "statusLine", own);
            StatuslineOutcome::Installed
        },
        Line::Foreign(original) => {
            let wrapped = wrapped_command(original.as_str());
            proof {
                lemma_command_class(original@);
                lemma_wrap_and_restore(rv, original@, wrapped@);
            }
            set_command(root, wrapped.as_str());
            StatuslineOutcome::Wrapped
        },
    }
}

proof fn lemma_command_class(command: Seq<char>)
    ensures
        command_class(command) matches LineV::Foreign(c) ==> c == command,
{
}

proof fn lemma_wrap_and_restore(root: Members, original: Seq<char>, wrapped: Seq<char>)
    requires
        line_class(member(root, "statusLine"@)) == LineV::Foreign(original),
        command_class(wrapped) == LineV::Wrapping(original),
    ensures
        line_class(member(with_command(root, wrapped), "statusLine"@)) == LineV::Wrapping(original),
        with_command(with_command(root, wrapped), original) == root,
{
    let v = member(root, "statusLine"@)->0;
    let line = v->Object_0;
    let t = JsonV::Str("command"@);
    let w = JsonV::Str(wrapped);
    let o = JsonV::Str(original);
    reveal_strlit("command");
    reveal_strlit("type");
    assert("command"@.len() != "type"@.len());
    assert(line_command(v) == Some(original));
    assert(member(line, "command"@) == Some(o));
    assert(member(line, "type"@) == Some(t));
    let l1 = put(line, "command"@, w);
    lemma_put(line, "command"@, w);
    assert(member(l1, "type"@) == Some(t));
    lemma_put_same(l1, "type"@, t);
    assert(put(l1, "type"@, t) == l1);
    let r1 = with_command(root, wrapped);
    lemma_put(root, "statusLine"@, JsonV::Object(l1));
    assert(member(r1, "statusLine"@) == Some(JsonV::Object(l1)));
    assert(line_command(JsonV::Object(l1)) == Some(wrapped));
    lemma_put_put(line, "command"@, w, o);
    lemma_put_same(line, "command"@, o);
    assert(put(l1, "command"@, o) == line);
    lemma_put_same(line, "type"@, t);
    lemma_put_put(root, "statusLine"@, JsonV::Object(l1), JsonV::Object(line));
    lemma_put_same(root, "statusLine"@, JsonV::Object(line));
}

/// Takes our status line out of settings, and puts back the one that it was
/// wrapped around.
pub fn remove_line(root: &mut Vec<(String, Json)>) -> (outcome: StatuslineOutcome)
    ensures
        (outcome, members_view(final(root)@)) == line_removed(members_view(old(root)@)),
{
    broadcast use lemma_json_view;

    let k: usize = find_member(root, "statusLine");
    let line = if k < root.len() {
        classify(Some(&root[k].1))
    } else {
        classify(None)
    };
    match line {
        Line::Absent => StatuslineOutcome::NothingToRemove,
        Line::Foreign(_) => StatuslineOutcome::NothingToRemove,
        Line::Unrecognized => StatuslineOutcome::SkippedUnrecognized,
        Line::Bare => {
            remove_member(root, "statusLine");
            StatuslineOutcome::Removed
        },
        Line::Wrapping(original) => {
            set_command(root, original.as_str());
            StatuslineOutcome::Restored
        },
    }
}

/// What is to be done with a settings file.
#[derive(Debug, Clone, PartialEq, Eq)]
pub struct StatuslinePlan {
    /// What happens to the status line.
    pub outcome: StatuslineOutcome,
    /// The new text of the file, where it changes. The old one is kept as a
    /// backup.
    pub text: Option<String>,
}

/// The contents of a [`StatuslinePlan`].
pub ghost struct StatuslinePlanV {
    pub outcome: StatuslineOutcome,
    pub text: Option<Seq<char>>,
}

impl View for StatuslinePlan {
    type V = StatuslinePlanV;

    open spec fn view(&self) -> StatuslinePlanV {
        StatuslinePlanV { outcome: self.outcome, text: opt_view(self.text) }
    }
}

/// Whether settings change with an outcome.
pub open spec fn changes(outcome: StatuslineOutcome) -> bool {
    outcome is Installed || outcome is Wrapped || outcome is Removed || outcome is Restored
}

/// What is to be done with settings.
pub open spec fn line_step(root: Members, remove: bool) -> (StatuslineOutcome, Members) {
    if remove {
        line_removed(root)
    } else {
        line_installed(root)
    }
}

/// What is to be done with a settings file, of which the text is given where
/// there is one.
pub open spec fn line_plan(raw: Option<Seq<char>>, remove: bool) -> Result<
    StatuslinePlanV,
    SettingsErrorV,
> {
    match loaded(raw) {
        Err(e) => Err(e),
        Ok(found) => {
            let (outcome, members) = line_step(or_empty(found), remove);
            Ok(
                StatuslinePlanV {
                    outcome,
                    text: if changes(outcome) {
                        Some(settings_text(members))
                    } else {
                        None
                    },
                },
            )
        },
    }
}

proof fn lemma_line_step_tidy(root: Members, remove: bool)
    requires
        tidy_members(root),
    ensures
        tidy_members(line_step(root, remove).1),
{
    lemma_own_line();
    lemma_place(root, "statusLine"@);
    let k = place_of(root, "statusLine"@);
    if k < root.len() {
        assert(tidy(root[k].1));
    }
    match line_class(member(root, "statusLine"@)) {
        LineV::Absent => {
            if !remove {
                lemma_put_tidy(root, "statusLine"@, own_line());
            }
        },
        LineV::Bare => {
            if remove {
                lemma_without_tidy(root, "statusLine"@);
            }
        },
        LineV::Wrapping(original) => {
            if remove {
                lemma_with_command_tidy(root, original);
            }
        },
        LineV::Foreign(original) => {
            if !remove {
                lemma_with_command_tidy(root, wrapped_of(original));
            }
        },
        LineV::Unrecognized => {},
    }
}

proof fn lemma_with_command_tidy(root: Members, command: Seq<char>)
    requires
        tidy_members(root),
        member(root, "statusLine"@) is Some,
        member(root, "statusLine"@)->0 is Object,
    ensures
        tidy_members(with_command(root, command)),
{
    lemma_place(root, "statusLine"@);
    let k = place_of(root, "statusLine"@);
    assert(tidy(root[k].1));
    let line = member(root, "statusLine"@)->0->Object_0;
    assert(tidy_members(line));
    let l1 = put(line, "command"@, JsonV::Str(command));
    lemma_put_tidy(line, "command"@, JsonV::Str(command));
    let l2 = put(l1, "type"@, JsonV::Str("command"@));
    lemma_put_tidy(l1, "type"@, JsonV::Str("command"@));
    assert(tidy(JsonV::Object(l2)));
    lemma_put_tidy(root, "statusLine"@, JsonV::Object(l2));
}

/// Plans what is to be done with a settings file, of which the text is given
/// where there is one.
///
/// From a file that was written so, removing puts back what was wrapped, where
/// the file holds no number but integers and is not nested too deep.
pub fn plan_statusline(raw: Option<&str>, remove: bool) -> (r: Result<
    StatuslinePlan,
    SettingsError,
>)
    ensures
        match r {
            Ok(p) => line_plan(opt_str(raw), remove) == Ok::<_, SettingsErrorV>(p@),
            Err(e) => line_plan(opt_str(raw), remove) == Err::<StatuslinePlanV, _>(e@),
        },
        r matches Ok(p) ==> p.outcome is Wrapped ==> is_simple(
            JsonV::Object(line_step(or_empty(loaded(opt_str(raw))->Ok_0), remove).1),
            127,
        ) ==> p.text is Some && line_plan(Some(p.text->0@), true) == Ok::<_, SettingsErrorV>(
            StatuslinePlanV {
                outcome: StatuslineOutcome::Restored,
                text: Some(settings_text(or_empty(loaded(opt_str(raw))->Ok_0))),
            },
        ),
{
    let found = match load_settings(raw) {
        Ok(found) => found,
        Err(e) => {
            return Err(e);
        },
    };
    let mut root: Vec<(String, Json)> = match found {
        Some(m) => m,
        None => Vec::new(),
    };
    proof {
        assert(members_view(root@) =~= or_empty(loaded(opt_str(raw))->Ok_0));
        lemma_line_step_tidy(members_view(root@), remove);
    }
    let outcome = if remove {
        remove_line(&mut root)
    } else {
        install_line(&mut root)
    };
    let changed = match outcome {
        StatuslineOutcome::Installed => true,
        StatuslineOutcome::Wrapped => true,
        StatuslineOutcome::Removed => true,
        StatuslineOutcome::Restored => true,
        _ => false,
    };
    if !changed {
        return Ok(StatuslinePlan { outcome, text: None });
    }
    let text = write_settings(root);
    Ok(StatuslinePlan { outcome, text: Some(text) })
}

// ---------------------------------------------------------------------------
// Showing
// ---------------------------------------------------------------------------

/// Whether a session id can stand as one component of a path.
pub open spec fn can_be_looked_up(id: Seq<char>) -> bool {
    id.len() > 0 && !has_text(id, "/"@) && !has_text(id, "\\"@) && !has_text(id, ".."@)
}

/// The session that a payload is about, if it can be looked up.
pub open spec fn session_asked(payload: Seq<char>) -> Option<Seq<char>> {
    match parsed(payload) {
        Some(v) => match v.text_at("session_id"@) {
            Some(id) => if can_be_looked_up(id) {
                Some(id)
            } else {
                None
            },
            None => None,
        },
        None => None,
    }
}

/// The file with the events of the session that a payload is about.
pub open spec fn events_file_of(payload: Seq<char>, sessions_root: Seq<char>) -> Option<Seq<char>> {
    match session_asked(payload) {
        Some(id) => Some(joined_path(joined_path(sessions_root, id), "events.jsonl"@)),
        None => None,
    }
}

/// The number of line feeds.
pub open spec fn line_feeds(bytes: Seq<u8>) -> nat
    decreases bytes.len(),
{
    if bytes.len() == 0 {
        0
    } else {
        line_feeds(bytes.drop_last()) + (if bytes.last() == 10 {
            1nat
        } else {
            0
        })
    }
}

/// Our segment, from the events of the session, if there are any.
pub open spec fn segment_of(events: Option<Seq<u8>>) -> Seq<char> {
    match events {
        Some(bytes) => if bytes.len() > 0 {
            SEG_RECORDING@ + " "@ + decimal(line_feeds(bytes)) + "ev"@
        } else {
            SEG_NOT_RECORDING@
        },
        None => SEG_NOT_RECORDING@,
    }
}

/// The command to run ahead of ours: the wrapped one, unless it is ours again.
pub open spec fn command_to_run(payload: Option<Seq<char>>) -> Option<Seq<char>> {
    match payload {
        Some(p) => match unwrapped(p) {
            Some(original) => if begins(original, STATUSLINE_COMMAND@) {
                None
            } else {
                Some(original)
            },
            None => None,
        },
        None => None,
    }
}

/// The first line of what a command wrote, without white space at its end.
pub open spec fn first_line_of(out: Seq<char>) -> Seq<char> {
    if lines_of(out).len() > 0 {
        trim_back(lines_of(out)[0])
    } else {
        ""@
    }
}

/// The status line: what the wrapped command wrote, if it wrote anything, and our
/// segment.
pub open spec fn status_of(wrote: Option<Seq<char>>, ours: Seq<char>) -> Seq<char> {
    match wrote {
        Some(out) => if first_line_of(out).len() > 0 {
            first_line_of(out) + SEG_SEPARATOR@ + ours
        } else {
            ours
        },
        None => ours,
    }
}

/// Tells which file holds the events of the session that a payload is about.
pub fn events_file(payload: &str, sessions_root: &str) -> (r: Option<String>)
    ensures
        opt_view(r) == events_file_of(payload@, sessions_root@),
{
    let v = match parse(payload) {
        Ok(v) => v,
        Err(_) => {
            return None;
        },
    };
    match v.str_at("session_id") {
        Some(id) => {
            if id.is_empty() || contains_text(id, "/") || contains_text(id, "\\")
                || contains_text(id, "..") {
                None
            } else {
                Some(join_path(join_path(sessions_root, id).as_str(), "events.jsonl"))
            }
        },
        None => None,
    }
}

fn count_line_feeds(bytes: &Vec<u8>) -> (n: usize)
    ensures
        n == line_feeds(bytes@),
{
    let mut n: usize = 0;
    for i in 0..bytes.len()
        invariant
            n == line_feeds(bytes@.take(i as int)),
            n <= i,
    {
        proof {
            assert(bytes@.take(i + 1).drop_last() =~= bytes@.take(i as int));
        }
        if bytes[i] == 10 {
            n = n + 1;
        }
    }
    proof {
        assert(bytes@.take(bytes@.len() as int) =~= bytes@);
    }
    n
}

/// Makes our segment from the events of the session, if there are any.
pub fn witness_segment(events: Option<&Vec<u8>>) -> (out: String)
    ensures
        out@ == segment_of(
            match events {
                Some(b) => Some(b@),
                None => None,
            },
        ),
{
    match events {
        Some(bytes) => if bytes.len() > 0 {
            SEG_RECORDING.to_owned().concat(" ").concat(
                decimal_usize(count_line_feeds(bytes)).as_str(),
            ).concat("ev")
        } else {
            SEG_NOT_RECORDING.to_owned()
        },
        None => SEG_NOT_RECORDING.to_owned(),
    }
}

/// Tells which command to run ahead of ours.
pub fn original_to_run(payload: Option<&str>) -> (r: Option<String>)
    ensures
        opt_view(r) == command_to_run(opt_str(payload)),
{
    match payload {
        Some(p) => match decode_wrap(p) {
            Some(original) => if starts_with(original.as_str(), STATUSLINE_COMMAND) {
                None
            } else {
                Some(original)
            },
            None => None,
        },
        None => None,
    }
}

/// Puts the status line together from what the wrapped command wrote, if it did,
/// and our segment.
pub fn compose(wrote: Option<&str>, ours: &str) -> (out: String)
    ensures
        out@ == status_of(opt_str(wrote), ours@),
{
    match wrote {
        Some(text) => {
            let all = lines(text);
            let ghost lv = lines_of(text@);
            proof {
                assert(views(all@).len() == all@.len());
            }
            if all.len() == 0 {
                proof {
                    reveal_strlit("");
                }
                return ours.to_owned();
            }
            proof {
                assert(views(all@)[0] == all@[0]@);
            }
            let first = trim_end(all[0].as_str());
            if first.as_str().is_empty() {
                ours.to_owned()
            } else {
                first.concat(SEG_SEPARATOR).concat(ours)
            }
        },
        None => ours.to_owned(),
    }
}

// ---------------------------------------------------------------------------
// Laws
// ---------------------------------------------------------------------------

/// A status line that is not understood is never changed, and one that is not
/// ours is never removed.
pub proof fn foreign_lines_are_not_touched(root: Members)
    ensures
        line_class(member(root, "statusLine"@)) is Unrecognized ==> line_installed(root).1 == root
            && line_removed(root).1 == root,
        line_class(member(root, "statusLine"@)) is Foreign ==> line_removed(root).1 == root,
        forall|n: Seq<char>|
            n != "statusLine"@ && line_installed(root).0 is Wrapped ==> #[trigger] member(
                line_installed(root).1,
                n,
            ) == member(root, n),
{
    match line_class(member(root, "statusLine"@)) {
        LineV::Foreign(original) => {
            let line = member(root, "statusLine"@)->0->Object_0;
            lemma_put(
                root,
                "statusLine"@,
                JsonV::Object(
                    put(
                        put(line, "command"@, JsonV::Str(wrapped_of(original))),
                        "type"@,
                        JsonV::Str("command"@),
                    ),
                ),
            );
        },
        _ => {},
    }
}

/// Our own status line, once set, is known as ours, and removing it gives back
/// the settings.
pub proof fn removing_undoes_setting(root: Members)
    requires
        member(root, "statusLine"@) is None,
    ensures
        line_installed(root).0 is Installed,
        line_removed(line_installed(root).1) == (StatuslineOutcome::Removed, root),
{
    lemma_own_line();
    lemma_put(root, "statusLine"@, own_line());
    crate::members::lemma_remove_put(root, "statusLine"@, own_line());
}

/// The command that is run ahead of ours is never ours.
pub proof fn ours_is_never_run_by_ours(payload: Option<Seq<char>>)
    ensures
        command_to_run(payload) matches Some(c) ==> !begins(c, STATUSLINE_COMMAND@),
{
}

/// Silence shows: without any event the segment says that nothing is recorded,
/// and it always stands at the end of the status line.
pub proof fn silence_shows(wrote: Option<Seq<char>>, events: Option<Seq<u8>>)
    ensures
        events is None ==> segment_of(events) == SEG_NOT_RECORDING@,
        events == Some(Seq::<u8>::empty()) ==> segment_of(events) == SEG_NOT_RECORDING@,
        crate::text::finishes(status_of(wrote, segment_of(events)), segment_of(events)),
{
    let ours = segment_of(events);
    let s = status_of(wrote, ours);
    assert(s.subrange(s.len() - ours.len(), s.len() as int) =~= ours);
}

/// The segment tells the number of lines of the events of a session.
pub proof fn segments_count_the_lines(bytes: Seq<u8>)
    requires
        bytes.len() > 0,
    ensures
        segment_of(Some(bytes)) == SEG_RECORDING@ + " "@ + decimal(
            how_many(bytes, |b: u8| b == 10),
        ) + "ev"@,
{
    lemma_line_feeds(bytes);
}

proof fn lemma_line_feeds(bytes: Seq<u8>)
    ensures
        line_feeds(bytes) == how_many(bytes, |b: u8| b == 10),
    decreases bytes.len(),
{
    lemma_how_many(bytes, |b: u8| b == 10);
    if bytes.len() > 0 {
        lemma_line_feeds(bytes.drop_last());
    }
}

/// The session of a payload is looked up by its id, unless the id is empty or could lead
/// elsewhere: through a separator of either kind, or to a directory above.
pub proof fn sessions_are_looked_up_by_safe_ids(payload: Seq<char>, v: JsonV, id: Seq<char>)
    requires
        parsed(payload) == Some(v),
    ensures
        session_asked(payload) == Some(id) ==> v.get("session_id"@) == Some(JsonV::Str(id))
            && id.len() > 0 && forall|i: int|
            0 <= i < id.len() ==> #[trigger] id[i] != '/' && id[i] != '\\',
        v.get("session_id"@) == Some(JsonV::Str(id)) && id.len() > 0 && (forall|i: int|
            0 <= i < id.len() ==> #[trigger] id[i] != '/' && id[i] != '\\' && id[i] != '.')
            ==> session_asked(payload) == Some(id),
        session_asked(payload) == Some(id) ==> !has_text(id, ".."@),
{
    reveal_strlit("/");
    reveal_strlit("\\");
    reveal_strlit("..");
    if session_asked(payload) == Some(id) {
        assert forall|i: int| 0 <= i < id.len() implies #[trigger] id[i] != '/' && id[i]
            != '\\' by {
            if id[i] == '/' {
                assert(id.subrange(i, i + 1) =~= "/"@);
                assert(occurs_at(id, "/"@, i));
            }
            if id[i] == '\\' {
                assert(id.subrange(i, i + 1) =~= "\\"@);
                assert(occurs_at(id, "\\"@, i));
            }
        }
    }
    if forall|i: int|
        0 <= i < id.len() ==> #[trigger] id[i] != '/' && id[i] != '\\' && id[i] != '.' {
        if has_text(id, "/"@) {
            let k = choose|k: int| occurs_at(id, "/"@, k);
            assert(id.subrange(k, k + 1)[0] == id[k]);
        }
        if has_text(id, "\\"@) {
            let k = choose|k: int| occurs_at(id, "\\"@, k);
            assert(id.subrange(k, k + 1)[0] == id[k]);
        }
        if has_text(id, ".."@) {
            let k = choose|k: int| occurs_at(id, ".."@, k);
            assert(id.subrange(k, k + 2)[0] == id[k]);
        }
    }
}

/// What a status line is goes by its command: ours alone is known as ours, one that does
/// not begin with ours is another's, and no line is none. One that is no command is not
/// understood.
pub proof fn lines_are_known_by_their_command(v: JsonV, command: Seq<char>)
    ensures
        line_class(None) is Absent,
        v.get("type"@) == Some(JsonV::Str("command"@)) && v.get("command"@) == Some(
            JsonV::Str("agent-witness statusline"@),
        ) ==> line_class(Some(v)) is Bare,
        v.get("type"@) == Some(JsonV::Str("command"@)) && v.get("command"@) == Some(
            JsonV::Str(command),
        ) && !begins(command, "agent-witness statusline"@) ==> line_class(Some(v)) == LineV::Foreign(
            command,
        ),
        v.get("type"@) != Some(JsonV::Str("command"@)) || v.text_at("command"@) is None
            ==> line_class(Some(v)) is Unrecognized,
{
    let own = "agent-witness statusline"@;
    assert(own.subrange(0, own.len() as int) =~= own);
}

/// What installing and removing do goes by what the status line is: none is set to ours,
/// another's is wrapped, ours is left; ours is removed, and what it wrapped is given back.
pub proof fn steps_go_by_what_the_line_is(root: Members, original: Seq<char>)
    ensures
        ({
            let was = line_class(member(root, "statusLine"@));
            &&& was is Absent ==> line_installed(root).0 is Installed && line_removed(
                root,
            ).0 is NothingToRemove
            &&& was is Bare ==> line_installed(root) == (StatuslineOutcome::AlreadyInstalled, root)
                && line_removed(root).0 is Removed && member(line_removed(root).1, "statusLine"@)
                == member(without_member(root, "statusLine"@), "statusLine"@)
            &&& was == LineV::Foreign(original) ==> line_installed(root).0 is Wrapped
                && line_removed(root).0 is NothingToRemove && line_command(
                member(line_installed(root).1, "statusLine"@)->0,
            ) == Some(wrapped_of(original))
            &&& was == LineV::Wrapping(original) ==> line_installed(root) == (
                StatuslineOutcome::AlreadyInstalled,
                root,
            ) && line_removed(root).0 is Restored && line_command(
                member(line_removed(root).1, "statusLine"@)->0,
            ) == Some(original)
            &&& was is Unrecognized ==> line_installed(root) == (
                StatuslineOutcome::SkippedUnrecognized,
                root,
            ) && line_removed(root) == (StatuslineOutcome::SkippedUnrecognized, root)
        }),
{
    lemma_with_command(root, wrapped_of(original));
    lemma_with_command(root, original);
}

proof fn lemma_with_command(root: Members, command: Seq<char>)
    ensures
        line_command(member(with_command(root, command), "statusLine"@)->0) == Some(command),
{
    reveal_strlit("command");
    reveal_strlit("type");
    assert("command"@.len() == 7 && "type"@.len() == 4);
    let line = member(root, "statusLine"@)->0->Object_0;
    let a = put(line, "command"@, JsonV::Str(command));
    let b = put(a, "type"@, JsonV::Str("command"@));
    lemma_put(line, "command"@, JsonV::Str(command));
    lemma_put(a, "type"@, JsonV::Str("command"@));
    lemma_put(root, "statusLine"@, JsonV::Object(b));
}

/// The events of a session lie in its directory below the sessions root, under the name that
/// the store gives them.
pub proof fn events_are_looked_up_where_they_lie(
    payload: Seq<char>,
    sessions_root: Seq<char>,
    id: Seq<char>,
)
    requires
        session_asked(payload) == Some(id),
        sessions_root.len() > 0,
        sessions_root[sessions_root.len() - 1] != '/',
        id.len() > 0,
        id[id.len() - 1] != '/',
    ensures
        events_file_of(payload, sessions_root) == Some(
            sessions_root + "/"@ + id + "/"@ + "events.jsonl"@,
        ),
{
    let dir = sessions_root + "/"@ + id;
    assert(dir[dir.len() - 1] == id[id.len() - 1]);
}

/// What the wrapped command wrote stands ahead of ours by its first line; where it wrote
/// nothing, ours stands alone.
pub proof fn the_wrapped_line_stands_ahead(line: Seq<char>, rest: Seq<char>, ours: Seq<char>)
    requires
        line.len() > 0,
        !line.contains('\n'),
        !is_space(line[line.len() - 1]),
    ensures
        status_of(Some(line), ours) == line + " | "@ + ours,
        status_of(Some(line.push('\n') + rest), ours) == line + " | "@ + ours,
        status_of(None, ours) == ours,
        status_of(Some(Seq::empty()), ours) == ours,
{
    reveal_strlit("");
    crate::split::written_lines_are_read_back(Seq::empty(), line);
    let none = Seq::<char>::empty();
    assert(none + line =~= line);
    assert(lines_of(line) =~= lines_of(none).push(line));
    assert(lines_of(line)[0] == line);
    let cut = crate::split::Cut::At('\n');
    let whole = line.push('\n') + rest;
    crate::split::a_cut_parts_the_pieces(line, '\n', rest, cut);
    assert forall|i: int| 0 <= i < line.len() implies !cut.cuts(#[trigger] line[i]) by {
        assert(line.contains(line[i]));
    }
    crate::split::uncut_texts_are_one_piece(line, cut);
    crate::split::lemma_pieces_nonempty(rest, cut);
    assert(crate::split::pieces(whole, cut)[0] == line);
    assert(is_space('\r'));
    assert(lines_of(whole)[0] == line);
}

/// A file of settings is written exactly where the status line changes.
pub proof fn line_files_are_written_where_something_changes(raw: Option<Seq<char>>, remove: bool)
    requires
        loaded(raw) is Ok,
    ensures
        ({
            let root = or_empty(loaded(raw)->Ok_0);
            let was = line_class(member(root, "statusLine"@));
            &&& line_plan(raw, remove) is Ok
            &&& !remove ==> (line_plan(raw, remove)->Ok_0.text is Some <==> was is Absent
                || was is Foreign)
            &&& remove ==> (line_plan(raw, remove)->Ok_0.text is Some <==> was is Bare
                || was is Wrapping)
        }),
{
}

/// An envelope gives a command exactly if it holds one and the other two fields show that it
/// is ours, of the version that is known.
pub proof fn envelopes_are_known_by_their_fields(m: Members, original: Seq<char>)
    ensures
        envelope_command(m) == Some(original) <==> member(m, "original_command"@) == Some(
            JsonV::Str(original),
        ) && member(m, "installed_by"@) == Some(JsonV::Str("agent-witness"@)) && member(
            m,
            "version"@,
        ) == Some(JsonV::Int(1)),
{
}

} // verus!
