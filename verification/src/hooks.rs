//! Hook payloads as normalized events.
//!
//! A pure mapping: the caller supplies the receive time and the reference that
//! links the event to its verbatim raw record. Events from hooks are always
//! direct, with full confidence: the agent reported them itself.
use vstd::prelude::*;

use crate::event::{
    fresh_event, AgentEvent, Attribution, EventKind, EventV, Source, CONFIDENCE_CERTAIN,
};
use crate::json::{
    lemma_json_view, member, members_view, set_member, with_member, Json, JsonV,
};
use crate::members::{lemma_with_member, members_ordered};
use crate::text::{concat3, has_text, lemma_text_inside, same};

verus! {

/// Session id for a payload that no real session can be told of. A single safe
/// path component.
pub const UNKNOWN_SESSION: &'static str = "unknown-session";

/// Hook event name: a session began.
pub const HOOK_SESSION_START: &'static str = "SessionStart";

/// Hook event name: a prompt was submitted.
pub const HOOK_USER_PROMPT_SUBMIT: &'static str = "UserPromptSubmit";

/// Hook event name: a tool is about to run.
pub const HOOK_PRE_TOOL_USE: &'static str = "PreToolUse";

/// Hook event name: a tool has run.
pub const HOOK_POST_TOOL_USE: &'static str = "PostToolUse";

/// Hook event name: a tool has failed.
pub const HOOK_POST_TOOL_USE_FAILURE: &'static str = "PostToolUseFailure";

/// Hook event name: a turn ended.
pub const HOOK_STOP: &'static str = "Stop";

/// Hook event name: the session terminated.
pub const HOOK_SESSION_END: &'static str = "SessionEnd";

/// Field that carries the session id on every hook payload.
pub const FIELD_SESSION_ID: &'static str = "session_id";

/// Field that carries the hook event name on every hook payload.
pub const FIELD_HOOK_EVENT_NAME: &'static str = "hook_event_name";

/// Field that carries the path of the session transcript.
pub const FIELD_TRANSCRIPT_PATH: &'static str = "transcript_path";

/// Why a payload could not be normalized.
#[derive(Debug, Clone, PartialEq, Eq)]
pub enum NormalizeError {
    /// The payload was valid JSON but not an object.
    NotAnObject,
    /// A required string field was missing.
    MissingField(&'static str),
    /// The hook event name is not one that is mapped.
    UnmappedHookEvent(String),
    /// The input was not valid JSON.
    MalformedJson(String),
    /// The session id is not a safe path component.
    InvalidSessionId(String),
}

/// The contents of a [`NormalizeError`].
pub ghost enum NormalizeErrorV {
    NotAnObject,
    MissingField(Seq<char>),
    UnmappedHookEvent(Seq<char>),
    MalformedJson(Seq<char>),
    InvalidSessionId(Seq<char>),
}

impl View for NormalizeError {
    type V = NormalizeErrorV;

    open spec fn view(&self) -> NormalizeErrorV {
        match self {
            NormalizeError::NotAnObject => NormalizeErrorV::NotAnObject,
            NormalizeError::MissingField(s) => NormalizeErrorV::MissingField(s@),
            NormalizeError::UnmappedHookEvent(s) => NormalizeErrorV::UnmappedHookEvent(s@),
            NormalizeError::MalformedJson(s) => NormalizeErrorV::MalformedJson(s@),
            NormalizeError::InvalidSessionId(s) => NormalizeErrorV::InvalidSessionId(s@),
        }
    }
}

impl NormalizeErrorV {
    /// What the error says.
    pub open spec fn message(self) -> Seq<char> {
        match self {
            NormalizeErrorV::NotAnObject => "hook payload is not a JSON object"@,
            NormalizeErrorV::MissingField(f) => "hook payload missing required field `"@ + f
                + "`"@,
            NormalizeErrorV::UnmappedHookEvent(e) => "unmapped hook event `"@ + e + "`"@,
            NormalizeErrorV::MalformedJson(e) => "malformed hook JSON: "@ + e,
            NormalizeErrorV::InvalidSessionId(s) => "invalid session id `"@ + s + "`"@,
        }
    }
}

impl NormalizeError {
    /// What the error says.
    pub fn message(&self) -> (r: String)
        ensures
            r@ == self@.message(),
    {
        match self {
            NormalizeError::NotAnObject => "hook payload is not a JSON object".to_owned(),
            NormalizeError::MissingField(f) => concat3(
                "hook payload missing required field `",
                f,
                "`",
            ),
            NormalizeError::UnmappedHookEvent(e) => concat3(
                "unmapped hook event `",
                e.as_str(),
                "`",
            ),
            NormalizeError::MalformedJson(e) => "malformed hook JSON: ".to_owned().concat(
                e.as_str(),
            ),
            NormalizeError::InvalidSessionId(s) => concat3("invalid session id `", s.as_str(), "`"),
        }
    }
}

/// The session id of a hook payload, if it is there and a string.
pub fn session_id_of(hook: &Json) -> (r: Option<&str>)
    ensures
        match r {
            Some(s) => hook@.text_at("session_id"@) == Some(s@),
            None => hook@.text_at("session_id"@) is None,
        },
{
    hook.str_at("session_id")
}

/// The hook event name of a hook payload, if it is there and a string.
pub fn hook_event_name_of(hook: &Json) -> (r: Option<&str>)
    ensures
        match r {
            Some(s) => hook@.text_at("hook_event_name"@) == Some(s@),
            None => hook@.text_at("hook_event_name"@) is None,
        },
{
    hook.str_at("hook_event_name")
}

/// The transcript path of a hook payload, if it is there and a string.
pub fn transcript_path_of(hook: &Json) -> (r: Option<&str>)
    ensures
        match r {
            Some(s) => hook@.text_at("transcript_path"@) == Some(s@),
            None => hook@.text_at("transcript_path"@) is None,
        },
{
    hook.str_at("transcript_path")
}

/// The kind of event that a hook stands for, and the payload fields that it
/// keeps.
pub open spec fn hook_shape(name: Seq<char>) -> Option<(EventKind, Seq<Seq<char>>)> {
    if name == "SessionStart"@ {
        Some((EventKind::SessionStart, seq!["source"@, "cwd"@]))
    } else if name == "UserPromptSubmit"@ {
        Some((EventKind::Prompt, seq!["prompt"@, "prompt_id"@, "cwd"@]))
    } else if name == "PreToolUse"@ {
        Some(
            (EventKind::ToolCall, seq!["tool_name"@, "tool_use_id"@, "tool_input"@, "cwd"@]),
        )
    } else if name == "PostToolUse"@ {
        Some(
            (
                EventKind::ToolResult,
                seq!["tool_name"@, "tool_use_id"@, "tool_response"@, "duration_ms"@],
            ),
        )
    } else if name == "PostToolUseFailure"@ {
        Some(
            (
                EventKind::ToolFailure,
                seq!["tool_name"@, "tool_use_id"@, "tool_response"@, "duration_ms"@],
            ),
        )
    } else if name == "Stop"@ {
        Some((EventKind::Stop, seq!["last_assistant_message"@, "stop_hook_active"@]))
    } else if name == "SessionEnd"@ {
        Some((EventKind::SessionEnd, seq!["reason"@]))
    } else {
        None
    }
}

/// An object with those of the members called `keys` that `m` has.
pub open spec fn projected(m: Seq<(Seq<char>, JsonV)>, keys: Seq<Seq<char>>) -> Seq<
    (Seq<char>, JsonV),
>
    decreases keys.len(),
{
    if keys.len() == 0 {
        Seq::<(Seq<char>, JsonV)>::empty()
    } else {
        let before = projected(m, keys.drop_last());
        match member(m, keys.last()) {
            Some(v) => with_member(before, keys.last(), v),
            None => before,
        }
    }
}

/// The event of a hook payload, or why there is none.
pub open spec fn normalized(hook: JsonV, ts: i64, raw_ref: Seq<char>) -> Result<
    EventV,
    NormalizeErrorV,
> {
    match hook {
        JsonV::Object(m) => match hook.text_at("session_id"@) {
            None => Err(NormalizeErrorV::MissingField("session_id"@)),
            Some(session) => match hook.text_at("hook_event_name"@) {
                None => Err(NormalizeErrorV::MissingField("hook_event_name"@)),
                Some(name) => match hook_shape(name) {
                    None => Err(NormalizeErrorV::UnmappedHookEvent(name)),
                    Some((kind, keys)) => Ok(
                        EventV {
                            raw_event_ref: Some(raw_ref),
                            ..fresh_event(
                                ts,
                                session,
                                Source::Hooks,
                                kind,
                                Attribution::Direct,
                                CONFIDENCE_CERTAIN,
                                JsonV::Object(
                                    with_member(
                                        projected(m, keys),
                                        "hook_event_name"@,
                                        JsonV::Str(name),
                                    ),
                                ),
                            )
                        },
                    ),
                },
            },
        },
        _ => Err(NormalizeErrorV::NotAnObject),
    }
}

/// The contents of a list of string slices.
spec fn strs(v: Seq<&str>) -> Seq<Seq<char>> {
    Seq::new(v.len(), |i: int| v[i]@)
}

fn shape_of_hook(name: &str) -> (r: Option<(EventKind, Vec<&'static str>)>)
    ensures
        match r {
            Some((kind, keys)) => hook_shape(name@) == Some((kind, strs(keys@))),
            None => hook_shape(name@) is None,
        },
{
    if same(name, "SessionStart") {
        let keys = vec!["source", "cwd"];
        proof {
            assert(strs(keys@) =~= seq!["source"@, "cwd"@]);
        }
        Some((EventKind::SessionStart, keys))
    } else if same(name, "UserPromptSubmit") {
        let keys = vec!["prompt", "prompt_id", "cwd"];
        proof {
            assert(strs(keys@) =~= seq!["prompt"@, "prompt_id"@, "cwd"@]);
        }
        Some((EventKind::Prompt, keys))
    } else if same(name, "PreToolUse") {
        let keys = vec!["tool_name", "tool_use_id", "tool_input", "cwd"];
        proof {
            assert(strs(keys@) =~= seq!["tool_name"@, "tool_use_id"@, "tool_input"@, "cwd"@]);
        }
        Some((EventKind::ToolCall, keys))
    } else if same(name, "PostToolUse") {
        let keys = vec!["tool_name", "tool_use_id", "tool_response", "duration_ms"];
        proof {
            assert(strs(keys@)
                =~= seq!["tool_name"@, "tool_use_id"@, "tool_response"@, "duration_ms"@]);
        }
        Some((EventKind::ToolResult, keys))
    } else if same(name, "PostToolUseFailure") {
        let keys = vec!["tool_name", "tool_use_id", "tool_response", "duration_ms"];
        proof {
            assert(strs(keys@)
                =~= seq!["tool_name"@, "tool_use_id"@, "tool_response"@, "duration_ms"@]);
        }
        Some((EventKind::ToolFailure, keys))
    } else if same(name, "Stop") {
        let keys = vec!["last_assistant_message", "stop_hook_active"];
        proof {
            assert(strs(keys@) =~= seq!["last_assistant_message"@, "stop_hook_active"@]);
        }
        Some((EventKind::Stop, keys))
    } else if same(name, "SessionEnd") {
        let keys = vec!["reason"];
        proof {
            assert(strs(keys@) =~= seq!["reason"@]);
        }
        Some((EventKind::SessionEnd, keys))
    } else {
        None
    }
}

/// Copies the members called `keys`, where there are such.
fn project(hook: &Json, keys: &Vec<&'static str>) -> (out: Vec<(String, Json)>)
    requires
        hook@ is Object,
    ensures
        members_view(out@) == projected(hook@->Object_0, strs(keys@)),
{
    let ghost m = hook@->Object_0;
    let ghost ks = strs(keys@);
    let mut out: Vec<(String, Json)> = Vec::new();
    proof {
        assert(members_view(out@) =~= projected(m, ks.take(0)));
    }
    for i in 0..keys.len()
        invariant
            hook@ == JsonV::Object(m),
            ks == strs(keys@),
            members_view(out@) == projected(m, ks.take(i as int)),
    {
        proof {
            assert(ks.take(i + 1).drop_last() =~= ks.take(i as int));
            assert(ks.take(i + 1).last() == keys@[i as int]@);
        }
        match hook.get(keys[i]) {
            Some(v) => {
                set_member(&mut out, keys[i], v.clone());
            },
            None => {},
        }
    }
    proof {
        assert(ks.take(ks.len() as int) =~= ks);
    }
    out
}

/// Normalizes one parsed hook payload.
///
/// `ts` is the receive time; `raw_ref` links the event to its verbatim raw
/// record.
pub fn normalize(hook: &Json, ts: i64, raw_ref: &str) -> (r: Result<AgentEvent, NormalizeError>)
    ensures
        match r {
            Ok(e) => normalized(hook@, ts, raw_ref@) == Ok::<EventV, NormalizeErrorV>(e@),
            Err(e) => normalized(hook@, ts, raw_ref@) == Err::<EventV, NormalizeErrorV>(e@),
        },
{
    broadcast use lemma_json_view;

    if !hook.is_object() {
        return Err(NormalizeError::NotAnObject);
    }
    let session = match session_id_of(hook) {
        Some(s) => s,
        None => {
            return Err(NormalizeError::MissingField("session_id"));
        },
    };
    let name = match hook_event_name_of(hook) {
        Some(s) => s,
        None => {
            return Err(NormalizeError::MissingField("hook_event_name"));
        },
    };
    let (kind, keys) = match shape_of_hook(name) {
        Some(x) => x,
        None => {
            return Err(NormalizeError::UnmappedHookEvent(name.to_owned()));
        },
    };
    let mut payload = project(hook, &keys);
    set_member(&mut payload, "hook_event_name", Json::Str(name.to_owned()));
    let mut event = AgentEvent::new(
        ts,
        session,
        Source::Hooks,
        kind,
        Attribution::Direct,
        CONFIDENCE_CERTAIN,
        Json::Object(payload),
    );
    event.raw_event_ref = Some(raw_ref.to_owned());
    Ok(event)
}

/// The event for a payload that could not be normalized.
pub open spec fn error_event_of(
    session: Seq<char>,
    ts: i64,
    raw_ref: Seq<char>,
    reason: NormalizeErrorV,
) -> EventV {
    EventV {
        raw_event_ref: Some(raw_ref),
        ..fresh_event(
            ts,
            session,
            Source::Hooks,
            EventKind::Error,
            Attribution::Direct,
            CONFIDENCE_CERTAIN,
            JsonV::Object(seq![("error"@, JsonV::Str(reason.message()))]),
        )
    }
}

/// Builds the event for a payload that could not be normalized. It is direct:
/// the bytes were certainly received, though they could not be read.
pub fn error_event(session: &str, ts: i64, raw_ref: &str, reason: &NormalizeError) -> (r:
    AgentEvent)
    ensures
        r@ == error_event_of(session@, ts, raw_ref@, reason@),
{
    broadcast use lemma_json_view;

    let mut members: Vec<(String, Json)> = Vec::new();
    members.push(("error".to_owned(), Json::Str(reason.message())));
    proof {
        assert(members_view(members@) =~= seq![("error"@, JsonV::Str(reason@.message()))]);
    }
    let mut event = AgentEvent::new(
        ts,
        session,
        Source::Hooks,
        EventKind::Error,
        Attribution::Direct,
        CONFIDENCE_CERTAIN,
        Json::Object(members),
    );
    event.raw_event_ref = Some(raw_ref.to_owned());
    event
}

// ---------------------------------------------------------------------------
// Laws
// ---------------------------------------------------------------------------

/// Every event from a hook is direct, from the hooks, fully confident and
/// linked to its raw record.
pub proof fn hook_events_are_direct(hook: JsonV, ts: i64, raw_ref: Seq<char>)
    ensures
        normalized(hook, ts, raw_ref) matches Ok(e) ==> {
            &&& e.attribution == Attribution::Direct
            &&& e.source == Source::Hooks
            &&& e.confidence == CONFIDENCE_CERTAIN
            &&& e.raw_event_ref == Some(raw_ref)
            &&& e.ts == ts
        },
{
}

/// No failure is made up: an event of a failed tool comes from an explicit
/// failure hook and from nothing else.
pub proof fn failures_are_explicit(hook: JsonV, ts: i64, raw_ref: Seq<char>)
    ensures
        normalized(hook, ts, raw_ref) matches Ok(e) ==> (e.kind == EventKind::ToolFailure <==> (
        hook.text_at("hook_event_name"@) == Some("PostToolUseFailure"@))),
{
    reveal_strlit("SessionStart");
    reveal_strlit("UserPromptSubmit");
    reveal_strlit("PreToolUse");
    reveal_strlit("PostToolUse");
    reveal_strlit("PostToolUseFailure");
    reveal_strlit("Stop");
    reveal_strlit("SessionEnd");
    assert("SessionStart"@.len() == 12 && "UserPromptSubmit"@.len() == 16 && "PreToolUse"@.len()
        == 10 && "PostToolUse"@.len() == 11 && "PostToolUseFailure"@.len() == 18 && "Stop"@.len()
        == 4 && "SessionEnd"@.len() == 10);
}

/// Of the members called as one of some keys, each is kept as it is, and no other.
proof fn lemma_projected(m: Seq<(Seq<char>, JsonV)>, keys: Seq<Seq<char>>)
    ensures
        members_ordered(projected(m, keys)),
        forall|n: Seq<char>| #[trigger]
            member(projected(m, keys), n) == (if keys.contains(n) {
                member(m, n)
            } else {
                None
            }),
    decreases keys.len(),
{
    if keys.len() > 0 {
        let rest = keys.drop_last();
        let key = keys.last();
        lemma_projected(m, rest);
        let before = projected(m, rest);
        if member(m, key) is Some {
            lemma_with_member(before, key, member(m, key)->0);
        }
        assert forall|n: Seq<char>| #[trigger] member(projected(m, keys), n) == (if keys.contains(
            n,
        ) {
            member(m, n)
        } else {
            None
        }) by {
            assert(keys[keys.len() - 1] == key);
            if keys.contains(n) {
                let i = keys.index_of(n);
                if n != key {
                    assert(rest[i] == n);
                }
            }
            if rest.contains(n) {
                let i = rest.index_of(n);
                assert(keys[i] == n);
            }
            assert(member(before, n) == (if rest.contains(n) {
                member(m, n)
            } else {
                None
            }));
        }
    } else {
        assert forall|n: Seq<char>| #[trigger] member(projected(m, keys), n) is None by {}
    }
}

proof fn lemma_hook_names()
    ensures
        "SessionStart"@.len() == 12,
        "UserPromptSubmit"@.len() == 16,
        "PreToolUse"@.len() == 10,
        "PostToolUse"@.len() == 11,
        "PostToolUseFailure"@.len() == 18,
        "Stop"@.len() == 4,
        "SessionEnd"@.len() == 10,
        "PreToolUse"@[0] == 'P',
        "SessionEnd"@[0] == 'S',
{
    reveal_strlit("SessionStart");
    reveal_strlit("UserPromptSubmit");
    reveal_strlit("PreToolUse");
    reveal_strlit("PostToolUse");
    reveal_strlit("PostToolUseFailure");
    reveal_strlit("Stop");
    reveal_strlit("SessionEnd");
}

/// A payload is normalized exactly if it is an object with a session id and the name of
/// one of the seven hook events, and the name fixes the kind of the event.
pub proof fn hooks_are_mapped_by_name(hook: JsonV, ts: i64, raw_ref: Seq<char>)
    ensures
        normalized(hook, ts, raw_ref) is Ok <==> hook is Object && hook.text_at("session_id"@) is Some
            && (hook.text_at("hook_event_name"@) == Some("SessionStart"@) || hook.text_at(
            "hook_event_name"@,
        ) == Some("UserPromptSubmit"@) || hook.text_at("hook_event_name"@) == Some("PreToolUse"@)
            || hook.text_at("hook_event_name"@) == Some("PostToolUse"@) || hook.text_at(
            "hook_event_name"@,
        ) == Some("PostToolUseFailure"@) || hook.text_at("hook_event_name"@) == Some("Stop"@)
            || hook.text_at("hook_event_name"@) == Some("SessionEnd"@)),
        normalized(hook, ts, raw_ref) matches Ok(e) ==> {
            &&& Some(e.session) == hook.text_at("session_id"@)
            &&& (e.kind == EventKind::SessionStart) == (hook.text_at("hook_event_name"@) == Some(
                "SessionStart"@,
            ))
            &&& (e.kind == EventKind::Prompt) == (hook.text_at("hook_event_name"@) == Some(
                "UserPromptSubmit"@,
            ))
            &&& (e.kind == EventKind::ToolCall) == (hook.text_at("hook_event_name"@) == Some(
                "PreToolUse"@,
            ))
            &&& (e.kind == EventKind::ToolResult) == (hook.text_at("hook_event_name"@) == Some(
                "PostToolUse"@,
            ))
            &&& (e.kind == EventKind::ToolFailure) == (hook.text_at("hook_event_name"@) == Some(
                "PostToolUseFailure"@,
            ))
            &&& (e.kind == EventKind::Stop) == (hook.text_at("hook_event_name"@) == Some("Stop"@))
            &&& (e.kind == EventKind::SessionEnd) == (hook.text_at("hook_event_name"@) == Some(
                "SessionEnd"@,
            ))
        },
        hook !is Object ==> normalized(hook, ts, raw_ref) == Err::<EventV, NormalizeErrorV>(
            NormalizeErrorV::NotAnObject,
        ),
        hook is Object && hook.text_at("session_id"@) is None ==> normalized(hook, ts, raw_ref)
            == Err::<EventV, NormalizeErrorV>(NormalizeErrorV::MissingField("session_id"@)),
        hook is Object && hook.text_at("session_id"@) is Some && hook.text_at(
            "hook_event_name"@,
        ) is None ==> normalized(hook, ts, raw_ref) == Err::<EventV, NormalizeErrorV>(
            NormalizeErrorV::MissingField("hook_event_name"@),
        ),
{
    lemma_hook_names();
}

/// What a hook reports of a turn, a tool or a session is in its event, with the value
/// that it has in the payload, wherever a view may look for it; and nothing is in the
/// event that is not in the payload.
pub proof fn hooks_lose_nothing_that_is_shown(hook: JsonV, ts: i64, raw_ref: Seq<char>)
    ensures
        normalized(hook, ts, raw_ref) matches Ok(e) ==> {
            &&& e.payload is Object
            &&& e.payload.get("hook_event_name"@) == hook.get("hook_event_name"@)
            &&& forall|n: Seq<char>|
                #[trigger] e.payload.get(n) is Some ==> e.payload.get(n) == hook.get(n)
            &&& e.kind == EventKind::SessionStart ==> {
                &&& e.payload.get("source"@) == hook.get("source"@)
                &&& e.payload.get("cwd"@) == hook.get("cwd"@)
            }
            &&& e.kind == EventKind::Prompt ==> {
                &&& e.payload.get("prompt"@) == hook.get("prompt"@)
                &&& e.payload.get("prompt_id"@) == hook.get("prompt_id"@)
                &&& e.payload.get("cwd"@) == hook.get("cwd"@)
            }
            &&& e.kind == EventKind::ToolCall ==> {
                &&& e.payload.get("tool_name"@) == hook.get("tool_name"@)
                &&& e.payload.get("tool_use_id"@) == hook.get("tool_use_id"@)
                &&& e.payload.get("tool_input"@) == hook.get("tool_input"@)
                &&& e.payload.get("cwd"@) == hook.get("cwd"@)
            }
            &&& e.kind == EventKind::ToolResult || e.kind == EventKind::ToolFailure ==> {
                &&& e.payload.get("tool_name"@) == hook.get("tool_name"@)
                &&& e.payload.get("tool_use_id"@) == hook.get("tool_use_id"@)
                &&& e.payload.get("tool_response"@) == hook.get("tool_response"@)
                &&& e.payload.get("duration_ms"@) == hook.get("duration_ms"@)
            }
            &&& e.kind == EventKind::Stop ==> {
                &&& e.payload.get("last_assistant_message"@) == hook.get("last_assistant_message"@)
                &&& e.payload.get("stop_hook_active"@) == hook.get("stop_hook_active"@)
            }
            &&& e.kind == EventKind::SessionEnd ==> e.payload.get("reason"@) == hook.get("reason"@)
        },
{
    match normalized(hook, ts, raw_ref) {
        Ok(e) => {
            let m = hook->Object_0;
            let name = hook.text_at("hook_event_name"@)->0;
            let keys = (hook_shape(name)->0).1;
            let p = projected(m, keys);
            lemma_hook_names();
            lemma_projected(m, keys);
            lemma_with_member(p, "hook_event_name"@, JsonV::Str(name));
            assert forall|n: Seq<char>| keys.contains(n) && n != "hook_event_name"@ implies
                #[trigger] e.payload.get(n) == hook.get(n) by {
                assert(member(p, n) == member(m, n));
            }
            assert forall|n: Seq<char>| #[trigger] e.payload.get(n) is Some implies e.payload.get(n)
                == hook.get(n) by {
                if n != "hook_event_name"@ {
                    assert(member(p, n) is Some);
                }
            }
            lemma_field_names();
            if e.kind == EventKind::SessionStart {
                assert(keys[0] == "source"@ && keys[1] == "cwd"@);
            } else if e.kind == EventKind::Prompt {
                assert(keys[0] == "prompt"@ && keys[1] == "prompt_id"@ && keys[2] == "cwd"@);
            } else if e.kind == EventKind::ToolCall {
                assert(keys[0] == "tool_name"@ && keys[1] == "tool_use_id"@ && keys[2]
                    == "tool_input"@ && keys[3] == "cwd"@);
            } else if e.kind == EventKind::ToolResult || e.kind == EventKind::ToolFailure {
                assert(keys[0] == "tool_name"@ && keys[1] == "tool_use_id"@ && keys[2]
                    == "tool_response"@ && keys[3] == "duration_ms"@);
            } else if e.kind == EventKind::Stop {
                assert(keys[0] == "last_assistant_message"@ && keys[1] == "stop_hook_active"@);
            } else {
                assert(keys[0] == "reason"@);
            }
        },
        Err(_) => {},
    }
}

/// No field that a hook reports is called as the field of its name.
proof fn lemma_field_names()
    ensures
        "source"@ != "hook_event_name"@,
        "cwd"@ != "hook_event_name"@,
        "prompt"@ != "hook_event_name"@,
        "prompt_id"@ != "hook_event_name"@,
        "tool_name"@ != "hook_event_name"@,
        "tool_use_id"@ != "hook_event_name"@,
        "tool_input"@ != "hook_event_name"@,
        "tool_response"@ != "hook_event_name"@,
        "duration_ms"@ != "hook_event_name"@,
        "last_assistant_message"@ != "hook_event_name"@,
        "stop_hook_active"@ != "hook_event_name"@,
        "reason"@ != "hook_event_name"@,
{
    reveal_strlit("hook_event_name");
    reveal_strlit("source");
    reveal_strlit("cwd");
    reveal_strlit("prompt");
    reveal_strlit("prompt_id");
    reveal_strlit("tool_name");
    reveal_strlit("tool_use_id");
    reveal_strlit("tool_input");
    reveal_strlit("tool_response");
    reveal_strlit("duration_ms");
    reveal_strlit("last_assistant_message");
    reveal_strlit("stop_hook_active");
    reveal_strlit("reason");
    assert("hook_event_name"@[0] == 'h');
    assert("source"@[0] == 's' && "cwd"@[0] == 'c' && "prompt"@[0] == 'p' && "prompt_id"@[0] == 'p');
    assert("tool_name"@[0] == 't' && "tool_use_id"@[0] == 't' && "tool_input"@[0] == 't');
    assert("tool_response"@[0] == 't' && "duration_ms"@[0] == 'd' && "reason"@[0] == 'r');
    assert("last_assistant_message"@[0] == 'l' && "stop_hook_active"@[0] == 's');
}

/// An event for a payload that could not be normalized says why, is linked to the raw
/// record, and is neither a call nor a result of a tool.
pub proof fn unreadable_payloads_are_told(
    session: Seq<char>,
    ts: i64,
    raw_ref: Seq<char>,
    reason: NormalizeErrorV,
)
    ensures
        ({
            let e = error_event_of(session, ts, raw_ref, reason);
            &&& e.kind == EventKind::Error
            &&& e.session == session
            &&& e.ts == ts
            &&& e.source == Source::Hooks
            &&& e.attribution == Attribution::Direct
            &&& e.raw_event_ref == Some(raw_ref)
            &&& e.payload.text_at("error"@) == Some(reason.message())
            &&& (reason matches NormalizeErrorV::MissingField(f) ==> has_text(reason.message(), f))
            &&& (reason matches NormalizeErrorV::UnmappedHookEvent(n) ==> has_text(
                reason.message(),
                n,
            ))
            &&& (reason matches NormalizeErrorV::MalformedJson(t) ==> has_text(reason.message(), t))
            &&& (reason matches NormalizeErrorV::InvalidSessionId(s) ==> has_text(
                reason.message(),
                s,
            ))
        }),
{
    match reason {
        NormalizeErrorV::MissingField(f) => {
            lemma_text_inside("hook payload missing required field `"@, f, "`"@);
        },
        NormalizeErrorV::UnmappedHookEvent(n) => {
            lemma_text_inside("unmapped hook event `"@, n, "`"@);
        },
        NormalizeErrorV::MalformedJson(t) => {
            lemma_text_inside("malformed hook JSON: "@, t, Seq::empty());
            assert("malformed hook JSON: "@ + t + Seq::<char>::empty() =~= "malformed hook JSON: "@
                + t);
        },
        NormalizeErrorV::InvalidSessionId(s) => {
            lemma_text_inside("invalid session id `"@, s, "`"@);
        },
        _ => {},
    }
}

} // verus!
