//! A settings file: reading it, refusing what it should not be, and writing it.
use vstd::prelude::*;

use crate::json::{canonical, lemma_json_view, members_view, Json, JsonV};
use crate::members::{lemma_canonical_tidy, tidy, tidy_members, Members};
use crate::outside::{error_text, is_simple, parse, parse_failure, parsed, pretty, pretty_of};
use crate::text::{blank, is_blank, opt_str};

verus! {

/// Why a settings file is refused. It is left as it is.
#[derive(Debug, Clone, PartialEq, Eq)]
pub enum SettingsError {
    /// It is no JSON, for a reason.
    NotJson(String),
    /// It is no JSON object.
    NotObject,
    /// Its hooks are no object.
    HooksNotObject,
    /// The hooks of an event are no array.
    EventNotArray(String),
}

/// The contents of a [`SettingsError`].
pub ghost enum SettingsErrorV {
    NotJson(Seq<char>),
    NotObject,
    HooksNotObject,
    EventNotArray(Seq<char>),
}

impl View for SettingsError {
    type V = SettingsErrorV;

    open spec fn view(&self) -> SettingsErrorV {
        match *self {
            SettingsError::NotJson(s) => SettingsErrorV::NotJson(s@),
            SettingsError::NotObject => SettingsErrorV::NotObject,
            SettingsError::HooksNotObject => SettingsErrorV::HooksNotObject,
            SettingsError::EventNotArray(s) => SettingsErrorV::EventNotArray(s@),
        }
    }
}

impl SettingsErrorV {
    /// What is said of the file at `path`.
    pub open spec fn message(self, path: Seq<char>) -> Seq<char> {
        match self {
            SettingsErrorV::NotJson(reason) => "settings file "@ + path + " is not valid JSON ("@
                + reason
                + "); refusing to modify it. Fix the JSON (or delete the file) and re-run."@,
            SettingsErrorV::NotObject => "settings file "@ + path
                + " is not a JSON object; refusing to modify it."@,
            SettingsErrorV::HooksNotObject =>
                "settings `hooks` is present but is not a JSON object; refusing to modify it."@,
            SettingsErrorV::EventNotArray(event) => "settings `hooks."@ + event
                + "` is present but is not a JSON array; refusing to modify it."@,
        }
    }
}

impl SettingsError {
    /// What is said of the file at `path`.
    pub fn message(&self, path: &str) -> (r: String)
        ensures
            r@ == self@.message(path@),
    {
        match self {
            SettingsError::NotJson(reason) => "settings file ".to_owned().concat(path).concat(
                " is not valid JSON (",
            ).concat(reason.as_str()).concat(
                "); refusing to modify it. Fix the JSON (or delete the file) and re-run.",
            ),
            SettingsError::NotObject => "settings file ".to_owned().concat(path).concat(
                " is not a JSON object; refusing to modify it.",
            ),
            SettingsError::HooksNotObject =>
                "settings `hooks` is present but is not a JSON object; refusing to modify it.".to_owned(),
            SettingsError::EventNotArray(event) => "settings `hooks.".to_owned().concat(
                event.as_str(),
            ).concat("` is present but is not a JSON array; refusing to modify it."),
        }
    }
}

/// The members of a settings file, if there is one. A blank file has none.
pub open spec fn loaded(raw: Option<Seq<char>>) -> Result<Option<Members>, SettingsErrorV> {
    match raw {
        None => Ok(None),
        Some(text) => if is_blank(text) {
            Ok(Some(Seq::<(Seq<char>, JsonV)>::empty()))
        } else {
            match parsed(text) {
                None => Err(SettingsErrorV::NotJson(parse_failure(text))),
                Some(JsonV::Object(m)) => Ok(Some(m)),
                Some(_) => Err(SettingsErrorV::NotObject),
            }
        },
    }
}

/// The text of a settings file.
pub open spec fn settings_text(m: Members) -> Seq<char> {
    pretty_of(canonical(JsonV::Object(m))) + "\n"@
}

/// Reads the members of a settings file, if there is one.
pub fn load_settings(raw: Option<&str>) -> (r: Result<
    Option<Vec<(String, Json)>>,
    SettingsError,
>)
    ensures
        match r {
            Ok(None) => loaded(opt_str(raw)) == Ok::<_, SettingsErrorV>(None::<Members>),
            Ok(Some(m)) => loaded(opt_str(raw)) == Ok::<_, SettingsErrorV>(
                Some(members_view(m@)),
            ) && tidy_members(members_view(m@)),
            Err(e) => loaded(opt_str(raw)) == Err::<Option<Members>, _>(e@),
        },
{
    broadcast use lemma_json_view;

    let text = match raw {
        None => {
            return Ok(None);
        },
        Some(text) => text,
    };
    if blank(text) {
        let m: Vec<(String, Json)> = Vec::new();
        proof {
            assert(members_view(m@) =~= Seq::<(Seq<char>, JsonV)>::empty());
        }
        return Ok(Some(m));
    }
    match parse(text) {
        Ok(Json::Object(m)) => {
            proof {
                assert(tidy(JsonV::Object(members_view(m@))));
            }
            Ok(Some(m))
        },
        Ok(_) => Err(SettingsError::NotObject),
        Err(e) => Err(SettingsError::NotJson(error_text(&e))),
    }
}

/// Writes the text of a settings file. It reads back as the same members, where
/// they hold no number but integers and are not nested too deep.
pub fn write_settings(m: Vec<(String, Json)>) -> (out: String)
    ensures
        out@ == settings_text(members_view(m@)),
        !is_blank(out@),
        tidy_members(members_view(m@)) && is_simple(JsonV::Object(members_view(m@)), 127)
            ==> parsed(out@) == Some(JsonV::Object(members_view(m@))),
{
    broadcast use lemma_json_view;

    let ghost mv = members_view(m@);
    let j = Json::Object(m);
    proof {
        if tidy_members(mv) {
            assert(tidy(j@));
            lemma_canonical_tidy(j@);
        }
    }
    let text = pretty(&j);
    let out = text.concat("\n");
    proof {
        let i = choose|i: int| 0 <= i < text@.len() && !crate::text::is_space(#[trigger] text@[i]);
        assert(out@[i] == text@[i]);
    }
    out
}

} // verus!
