//! Registering the recording hooks in a settings file, and taking them out again.
//!
//! What is there is merged with, never replaced: fields and hooks of the user stay
//! as they are. Entries of our own are known by their command. A file that is not
//! as it should be is refused and left alone.
use vstd::prelude::*;

use crate::count::{how_many, lemma_how_many_some};
use crate::json::{lemma_json_view, member, members_view, without_member, Json, JsonV};
use crate::members::{
    lemma_place, lemma_put, lemma_put_put, lemma_put_same, lemma_put_tidy, lemma_remove_put,
    lemma_without_tidy, members_are_found_by_name, place_of, put, put_member, tidy, tidy_members,
    Members,
};
use crate::outside::{is_simple, parse_failure, parsed};
use crate::settings::{
    load_settings, loaded, settings_text, write_settings, SettingsError, SettingsErrorV,
};
use crate::text::{
    contains_text, has_text, is_blank, lemma_text_inside, occurs_at, opt_str, opt_view,
};

verus! {

/// The command of our hooks.
pub const EMIT_COMMAND: &'static str = "agent-witness emit";

/// What happened to the hooks.
#[derive(Debug, Clone, Copy, PartialEq, Eq, Structural)]
pub enum InitOutcome {
    /// Entries were added.
    Installed,
    /// All entries were there.
    AlreadyInstalled,
    /// Entries were removed.
    Removed,
    /// There was none to remove.
    NothingToRemove,
}

// ---------------------------------------------------------------------------
// Entries of our own
// ---------------------------------------------------------------------------

/// Whether a hook is ours: its command holds our own.
pub open spec fn is_own(hook: JsonV) -> bool {
    match hook.text_at("command"@) {
        Some(command) => has_text(command, EMIT_COMMAND@),
        None => false,
    }
}

/// The hooks of a group, if it has a list of them.
pub open spec fn hooks_of(group: JsonV) -> Option<Seq<JsonV>> {
    match group.get("hooks"@) {
        Some(JsonV::Array(a)) => Some(a),
        _ => None,
    }
}

/// Whether one of `hooks` is ours.
pub open spec fn any_own(hooks: Seq<JsonV>) -> bool {
    exists|i: int| 0 <= i < hooks.len() && is_own(#[trigger] hooks[i])
}

/// Whether a group holds a hook of ours.
pub open spec fn group_is_own(group: JsonV) -> bool {
    match hooks_of(group) {
        Some(hooks) => any_own(hooks),
        None => false,
    }
}

/// Whether one of `groups` holds a hook of ours.
pub open spec fn any_group_own(groups: Seq<JsonV>) -> bool {
    exists|i: int| 0 <= i < groups.len() && group_is_own(#[trigger] groups[i])
}

/// Our hook.
pub open spec fn own_hook() -> JsonV {
    JsonV::Object(
        seq![("command"@, JsonV::Str(EMIT_COMMAND@)), ("type"@, JsonV::Str("command"@))],
    )
}

/// A group with our hook, for all tools where it takes a matcher.
pub open spec fn own_group(use_matcher: bool) -> JsonV {
    let hooks = JsonV::Array(seq![own_hook()]);
    if use_matcher {
        JsonV::Object(seq![("hooks"@, hooks), ("matcher"@, JsonV::Str("*"@))])
    } else {
        JsonV::Object(seq![("hooks"@, hooks)])
    }
}

fn hook_is_own(hook: &Json) -> (r: bool)
    ensures
        r == is_own(hook@),
{
    match hook.str_at("command") {
        Some(command) => contains_text(command, EMIT_COMMAND),
        None => false,
    }
}

fn list_has_own(hooks: &Vec<Json>) -> (r: bool)
    ensures
        r == any_own(crate::json::items_view(hooks@)),
{
    let ghost hv = crate::json::items_view(hooks@);
    for i in 0..hooks.len()
        invariant
            hv == crate::json::items_view(hooks@),
            forall|k: int| 0 <= k < i ==> !is_own(#[trigger] hv[k]),
    {
        proof {
            assert(hv[i as int] == hooks@[i as int]@);
        }
        if hook_is_own(&hooks[i]) {
            return true;
        }
    }
    false
}

/// Tells whether a group holds a hook of ours.
pub fn group_contains_own_command(group: &Json) -> (r: bool)
    ensures
        r == group_is_own(group@),
{
    broadcast use lemma_json_view;

    match group.get("hooks") {
        Some(Json::Array(hooks)) => list_has_own(hooks),
        _ => false,
    }
}

fn any_group_has_own(groups: &Vec<Json>) -> (r: bool)
    ensures
        r == any_group_own(crate::json::items_view(groups@)),
{
    let ghost gv = crate::json::items_view(groups@);
    for i in 0..groups.len()
        invariant
            gv == crate::json::items_view(groups@),
            forall|k: int| 0 <= k < i ==> !group_is_own(#[trigger] gv[k]),
    {
        proof {
            assert(gv[i as int] == groups@[i as int]@);
        }
        if group_contains_own_command(&groups[i]) {
            return true;
        }
    }
    false
}

fn new_group(use_matcher: bool) -> (r: Json)
    ensures
        r@ == own_group(use_matcher),
{
    broadcast use lemma_json_view;

    let members: Vec<(String, Json)> = vec![
        ("command".to_owned(), Json::Str(EMIT_COMMAND.to_owned())),
        ("type".to_owned(), Json::Str("command".to_owned())),
    ];
    let hook = Json::Object(members);
    proof {
        assert(hook@->Object_0 =~= own_hook()->Object_0);
    }
    let hooks: Vec<Json> = vec![hook];
    let list = Json::Array(hooks);
    proof {
        assert(list@->Array_0 =~= seq![own_hook()]);
    }
    let group: Vec<(String, Json)> = if use_matcher {
        vec![("hooks".to_owned(), list), ("matcher".to_owned(), Json::Str("*".to_owned()))]
    } else {
        vec![("hooks".to_owned(), list)]
    };
    let r = Json::Object(group);
    proof {
        assert(r@->Object_0 =~= own_group(use_matcher)->Object_0);
    }
    r
}

// ---------------------------------------------------------------------------
// Installing
// ---------------------------------------------------------------------------

/// The events that are recorded, and whether they take a matcher.
pub open spec fn managed() -> Seq<(Seq<char>, bool)> {
    seq![
        ("SessionStart"@, false),
        ("UserPromptSubmit"@, false),
        ("PreToolUse"@, true),
        ("PostToolUse"@, true),
        ("Stop"@, false),
        ("SessionEnd"@, false),
    ]
}

/// The hooks with ours for one event, which is added unless it is there.
pub open spec fn with_event(hooks: Members, event: Seq<char>, use_matcher: bool) -> Result<
    Members,
    SettingsErrorV,
> {
    match member(hooks, event) {
        None => Ok(put(hooks, event, JsonV::Array(seq![own_group(use_matcher)]))),
        Some(JsonV::Array(groups)) => if any_group_own(groups) {
            Ok(hooks)
        } else {
            Ok(put(hooks, event, JsonV::Array(groups.push(own_group(use_matcher)))))
        },
        Some(_) => Err(SettingsErrorV::EventNotArray(event)),
    }
}

/// The hooks with ours for events.
pub open spec fn with_events(hooks: Members, events: Seq<(Seq<char>, bool)>) -> Result<
    Members,
    SettingsErrorV,
>
    decreases events.len(),
{
    if events.len() == 0 {
        Ok(hooks)
    } else {
        match with_events(hooks, events.drop_last()) {
            Ok(h) => with_event(h, events.last().0, events.last().1),
            Err(e) => Err(e),
        }
    }
}

/// The hooks of settings, none where there are none.
pub open spec fn settings_hooks(root: Members) -> Result<Members, SettingsErrorV> {
    match member(root, "hooks"@) {
        None => Ok(Seq::<(Seq<char>, JsonV)>::empty()),
        Some(JsonV::Object(hooks)) => Ok(hooks),
        Some(_) => Err(SettingsErrorV::HooksNotObject),
    }
}

/// Whether ours is there for an event.
pub open spec fn event_done(hooks: Members, event: Seq<char>) -> bool {
    match member(hooks, event) {
        Some(JsonV::Array(groups)) => any_group_own(groups),
        _ => false,
    }
}

/// Whether ours is there for all of the events.
pub open spec fn all_done(hooks: Members, events: Seq<(Seq<char>, bool)>) -> bool {
    forall|i: int| 0 <= i < events.len() ==> event_done(hooks, (#[trigger] events[i]).0)
}

/// The settings with our hooks.
pub open spec fn installed(root: Members) -> Result<Members, SettingsErrorV> {
    match settings_hooks(root) {
        Err(e) => Err(e),
        Ok(hooks) => match with_events(hooks, managed()) {
            Err(e) => Err(e),
            Ok(h) => Ok(put(root, "hooks"@, JsonV::Object(h))),
        },
    }
}

/// Whether the settings have all our hooks.
pub open spec fn is_installed(root: Members) -> bool {
    settings_hooks(root) matches Ok(hooks) && all_done(hooks, managed())
}

proof fn lemma_own_group(use_matcher: bool)
    ensures
        group_is_own(own_group(use_matcher)),
        tidy(own_group(use_matcher)),
        is_simple(own_group(use_matcher), 3),
{
    reveal_strlit("hooks");
    reveal_strlit("matcher");
    reveal_strlit("command");
    reveal_strlit("type");
    let g = own_group(use_matcher);
    let hook = own_hook();
    let hm = hook->Object_0;
    assert("command"@[0] == 'c');
    assert("type"@[0] == 't');
    assert(crate::order::text_lt("command"@, "type"@));
    assert(tidy(hm[0].1) && tidy(hm[1].1));
    assert(tidy(hook));
    assert("hooks"@[0] == 'h');
    assert("matcher"@[0] == 'm');
    assert(crate::order::text_lt("hooks"@, "matcher"@));
    let hooks = seq![hook];
    assert(tidy(JsonV::Array(hooks)));
    assert(member(hm, "command"@) == Some(JsonV::Str(EMIT_COMMAND@)));
    assert(EMIT_COMMAND@.subrange(0, EMIT_COMMAND@.len() as int) =~= EMIT_COMMAND@);
    assert(occurs_at(EMIT_COMMAND@, EMIT_COMMAND@, 0));
    assert(is_own(hooks[0]));
    let gm = g->Object_0;
    assert(gm[0].0 == "hooks"@);
    assert(member(gm, "hooks"@) == Some(JsonV::Array(hooks)));
    assert(tidy(gm[0].1));
    if use_matcher {
        assert(gm[1].1 == JsonV::Str("*"@));
        assert(tidy(gm[1].1));
    }
    assert(tidy(g));
    reveal_with_fuel(is_simple, 4);
    assert(is_simple(hook, 1));
    assert(is_simple(JsonV::Array(hooks), 2));
    assert(is_simple(g, 3));
}

fn add_event(hooks: &mut Vec<(String, Json)>, event: &str, use_matcher: bool) -> (r: Result<
    bool,
    SettingsError,
>)
    ensures
        match r {
            Ok(changed) => with_event(members_view(old(hooks)@), event@, use_matcher) == Ok::<
                _,
                SettingsErrorV,
            >(members_view(final(hooks)@)) && changed == !event_done(
                members_view(old(hooks)@),
                event@,
            ),
            Err(e) => with_event(members_view(old(hooks)@), event@, use_matcher) == Err::<
                Members,
                _,
            >(e@),
        },
{
    broadcast use lemma_json_view;

    let k: usize = crate::json::find_member(hooks, event);
    if k >= hooks.len() {
        let groups: Vec<Json> = vec![new_group(use_matcher)];
        let list = Json::Array(groups);
        proof {
            assert(list@->Array_0 =~= seq![own_group(use_matcher)]);
        }
        put_member(hooks, event, list);
        return Ok(true);
    }
    let groups = match &hooks[k].1 {
        Json::Array(groups) => {
            if any_group_has_own(groups) {
                return Ok(false);
            }
            let copy = hooks[k].1.clone();
            copy
        },
        _ => {
            return Err(SettingsError::EventNotArray(event.to_owned()));
        },
    };
    match groups {
        Json::Array(mut groups) => {
            let ghost g0 = crate::json::items_view(groups@);
            groups.push(new_group(use_matcher));
            proof {
                assert(crate::json::items_view(groups@) =~= g0.push(own_group(use_matcher)));
            }
            put_member(hooks, event, Json::Array(groups));
            Ok(true)
        },
        _ => Ok(false),
    }
}

fn managed_events() -> (out: Vec<(&'static str, bool)>)
    ensures
        out@.len() == managed().len(),
        forall|i: int|
            0 <= i < out@.len() ==> (#[trigger] out@[i]).0@ == managed()[i].0 && out@[i].1
                == managed()[i].1,
{
    vec![
        ("SessionStart", false),
        ("UserPromptSubmit", false),
        ("PreToolUse", true),
        ("PostToolUse", true),
        ("Stop", false),
        ("SessionEnd", false),
    ]
}

proof fn lemma_managed_distinct(i: int, j: int)
    requires
        0 <= i < j < managed().len(),
    ensures
        managed()[i].0 != managed()[j].0,
{
    reveal_strlit("SessionStart");
    reveal_strlit("UserPromptSubmit");
    reveal_strlit("PreToolUse");
    reveal_strlit("PostToolUse");
    reveal_strlit("Stop");
    reveal_strlit("SessionEnd");
    let m = managed();
    assert(m[0].0.len() == 12 && m[1].0.len() == 16 && m[2].0.len() == 10 && m[3].0.len() == 11
        && m[4].0.len() == 4 && m[5].0.len() == 10);
    assert(m[2].0[0] == 'P');
    assert(m[5].0[0] == 'S');
    assert(i == 0 || i == 1 || i == 2 || i == 3 || i == 4);
    assert(j == 1 || j == 2 || j == 3 || j == 4 || j == 5);
}

proof fn lemma_with_event(hooks: Members, event: Seq<char>, use_matcher: bool)
    ensures
        with_event(hooks, event, use_matcher) matches Ok(h) ==> event_done(h, event) && (forall|
            n: Seq<char>,
        |
            n != event ==> #[trigger] member(h, n) == member(hooks, n)),
        event_done(hooks, event) ==> with_event(hooks, event, use_matcher) == Ok::<
            _,
            SettingsErrorV,
        >(hooks),
{
    let g = own_group(use_matcher);
    lemma_own_group(use_matcher);
    match member(hooks, event) {
        None => {
            let v = JsonV::Array(seq![g]);
            lemma_put(hooks, event, v);
            assert(group_is_own(seq![g][0]));
        },
        Some(JsonV::Array(groups)) => {
            if !any_group_own(groups) {
                let v = JsonV::Array(groups.push(g));
                lemma_put(hooks, event, v);
                assert(group_is_own(groups.push(g)[groups.len() as int]));
            }
        },
        Some(_) => {},
    }
}

proof fn lemma_with_events_other(
    hooks: Members,
    events: Seq<(Seq<char>, bool)>,
    name: Seq<char>,
)
    requires
        forall|i: int| 0 <= i < events.len() ==> (#[trigger] events[i]).0 != name,
    ensures
        with_events(hooks, events) matches Ok(h) ==> member(h, name) == member(hooks, name),
    decreases events.len(),
{
    if events.len() > 0 {
        let t = events.drop_last();
        assert forall|i: int| 0 <= i < t.len() implies (#[trigger] t[i]).0 != name by {
            assert(events[i].0 != name);
        }
        lemma_with_events_other(hooks, t, name);
        assert(events[events.len() - 1].0 != name);
        match with_events(hooks, t) {
            Ok(h) => {
                lemma_with_event(h, events.last().0, events.last().1);
            },
            Err(_) => {},
        }
    }
}

proof fn lemma_with_events_done(hooks: Members, events: Seq<(Seq<char>, bool)>)
    ensures
        with_events(hooks, events) matches Ok(h) ==> all_done(h, events),
        all_done(hooks, events) ==> with_events(hooks, events) == Ok::<_, SettingsErrorV>(hooks),
    decreases events.len(),
{
    if events.len() > 0 {
        let t = events.drop_last();
        lemma_with_events_done(hooks, t);
        let e = events.last();
        if all_done(hooks, events) {
            assert forall|i: int| 0 <= i < t.len() implies event_done(
                hooks,
                (#[trigger] t[i]).0,
            ) by {
                assert(event_done(hooks, events[i].0));
            }
            assert(event_done(hooks, events[events.len() - 1].0));
            lemma_with_event(hooks, e.0, e.1);
        }
        match with_events(hooks, t) {
            Ok(h) => {
                lemma_with_event(h, e.0, e.1);
                match with_event(h, e.0, e.1) {
                    Ok(h2) => {
                        assert forall|i: int| 0 <= i < events.len() implies event_done(
                            h2,
                            (#[trigger] events[i]).0,
                        ) by {
                            if i < t.len() {
                                assert(event_done(h, t[i].0));
                                if t[i].0 != e.0 {
                                    assert(member(h2, t[i].0) == member(h, t[i].0));
                                }
                            }
                        }
                    },
                    Err(_) => {},
                }
            },
            Err(_) => {},
        }
    }
}

/// Adds our hooks to settings, and tells whether any was missing. Settings that
/// are refused stay as they are.
pub fn install_entries(root: &mut Vec<(String, Json)>) -> (r: Result<bool, SettingsError>)
    ensures
        match r {
            Ok(changed) => installed(members_view(old(root)@)) == Ok::<_, SettingsErrorV>(
                members_view(final(root)@),
            ) && changed == !is_installed(members_view(old(root)@)),
            Err(e) => installed(members_view(old(root)@)) == Err::<Members, _>(e@) && members_view(
                final(root)@,
            ) == members_view(old(root)@),
        },
{
    broadcast use lemma_json_view;

    let ghost rv = members_view(root@);
    let k: usize = crate::json::find_member(root, "hooks");
    let current: Json = if k < root.len() {
        root[k].1.clone()
    } else {
        Json::Object(Vec::new())
    };
    let mut hooks: Vec<(String, Json)> = match current {
        Json::Object(m) => m,
        _ => {
            return Err(SettingsError::HooksNotObject);
        },
    };
    let ghost h0 = members_view(hooks@);
    proof {
        if member(rv, "hooks"@) is None {
            assert(h0 =~= Seq::<(Seq<char>, JsonV)>::empty());
        }
    }
    let events = managed_events();
    let mut changed = false;
    proof {
        assert(managed().take(0) =~= Seq::<(Seq<char>, bool)>::empty());
    }
    for i in 0..events.len()
        invariant
            events@.len() == managed().len(),
            forall|j: int|
                0 <= j < events@.len() ==> (#[trigger] events@[j]).0@ == managed()[j].0
                    && events@[j].1 == managed()[j].1,
            rv == members_view(root@),
            root@ == old(root)@,
            settings_hooks(rv) == Ok::<_, SettingsErrorV>(h0),
            with_events(h0, managed().take(i as int)) == Ok::<_, SettingsErrorV>(
                members_view(hooks@),
            ),
            changed == !all_done(h0, managed().take(i as int)),
    {
        let ghost before = managed().take(i as int);
        let ghost after = managed().take(i + 1);
        let ghost hv = members_view(hooks@);
        proof {
            assert(after.drop_last() =~= before);
            assert(after.last() == managed()[i as int]);
            assert forall|j: int| 0 <= j < before.len() implies (#[trigger] before[j]).0
                != managed()[i as int].0 by {
                lemma_managed_distinct(j, i as int);
            }
            lemma_with_events_other(h0, before, managed()[i as int].0);
        }
        let event = events[i].0;
        let use_matcher = events[i].1;
        match add_event(&mut hooks, event, use_matcher) {
            Ok(c) => {
                proof {
                    assert(c == !event_done(h0, managed()[i as int].0));
                    if all_done(h0, after) {
                        assert forall|j: int| 0 <= j < before.len() implies event_done(
                            h0,
                            (#[trigger] before[j]).0,
                        ) by {
                            assert(event_done(h0, after[j].0));
                        }
                        assert(event_done(h0, after[i as int].0));
                    } else if all_done(h0, before) && !c {
                        assert forall|j: int| 0 <= j < after.len() implies event_done(
                            h0,
                            (#[trigger] after[j]).0,
                        ) by {
                            if j < before.len() {
                                assert(event_done(h0, before[j].0));
                            }
                        }
                    }
                }
                if c {
                    changed = true;
                }
            },
            Err(e) => {
                proof {
                    lemma_with_events_fails(h0, managed(), i + 1);
                }
                return Err(e);
            },
        }
    }
    proof {
        assert(managed().take(managed().len() as int) =~= managed());
    }
    put_member(root, "hooks", Json::Object(hooks));
    Ok(changed)
}

proof fn lemma_with_events_fails(hooks: Members, events: Seq<(Seq<char>, bool)>, k: int)
    requires
        0 <= k <= events.len(),
        with_events(hooks, events.take(k)) is Err,
    ensures
        with_events(hooks, events) == with_events(hooks, events.take(k)),
    decreases events.len(),
{
    if k < events.len() {
        assert(events.drop_last().take(k) =~= events.take(k));
        lemma_with_events_fails(hooks, events.drop_last(), k);
    } else {
        assert(events.take(k) =~= events);
    }
}

// ---------------------------------------------------------------------------
// Removing
// ---------------------------------------------------------------------------

/// The hooks that are not ours.
pub open spec fn foreign_hooks(hooks: Seq<JsonV>) -> Seq<JsonV>
    decreases hooks.len(),
{
    if hooks.len() == 0 {
        hooks
    } else if is_own(hooks.last()) {
        foreign_hooks(hooks.drop_last())
    } else {
        foreign_hooks(hooks.drop_last()).push(hooks.last())
    }
}

/// What is left of a group: nothing, where all its hooks were ours.
pub open spec fn group_left(group: JsonV) -> Option<JsonV> {
    if !group_is_own(group) {
        Some(group)
    } else {
        let left = foreign_hooks(hooks_of(group)->0);
        if left.len() == 0 {
            None
        } else {
            Some(JsonV::Object(put(group->Object_0, "hooks"@, JsonV::Array(left))))
        }
    }
}

/// What is left of groups.
pub open spec fn groups_left(groups: Seq<JsonV>) -> Seq<JsonV>
    decreases groups.len(),
{
    if groups.len() == 0 {
        groups
    } else {
        let before = groups_left(groups.drop_last());
        match group_left(groups.last()) {
            Some(g) => before.push(g),
            None => before,
        }
    }
}

/// Whether the value of an event holds a hook of ours.
pub open spec fn event_is_own(v: JsonV) -> bool {
    match v {
        JsonV::Array(groups) => any_group_own(groups),
        _ => false,
    }
}

/// What is left of an event: nothing, where all its groups were ours.
pub open spec fn event_left(v: JsonV) -> Option<JsonV> {
    if !event_is_own(v) {
        Some(v)
    } else {
        let left = groups_left(v->Array_0);
        if left.len() == 0 {
            None
        } else {
            Some(JsonV::Array(left))
        }
    }
}

/// What is left of the hooks.
pub open spec fn events_left(hooks: Members) -> Members
    decreases hooks.len(),
{
    if hooks.len() == 0 {
        hooks
    } else {
        let before = events_left(hooks.drop_last());
        match event_left(hooks.last().1) {
            Some(v) => before.push((hooks.last().0, v)),
            None => before,
        }
    }
}

/// Whether any event holds a hook of ours.
pub open spec fn any_event_own(hooks: Members) -> bool {
    exists|i: int| 0 <= i < hooks.len() && event_is_own((#[trigger] hooks[i]).1)
}

/// The settings without our hooks; none where they have none.
pub open spec fn removed(root: Members) -> Option<Members> {
    match member(root, "hooks"@) {
        Some(JsonV::Object(hooks)) => if any_event_own(hooks) {
            let left = events_left(hooks);
            if left.len() == 0 {
                Some(without_member(root, "hooks"@))
            } else {
                Some(put(root, "hooks"@, JsonV::Object(left)))
            }
        } else {
            None
        },
        _ => None,
    }
}

fn strip_hooks(hooks: &Vec<Json>) -> (out: Vec<Json>)
    ensures
        crate::json::items_view(out@) == foreign_hooks(crate::json::items_view(hooks@)),
{
    let ghost hv = crate::json::items_view(hooks@);
    let mut out: Vec<Json> = Vec::new();
    proof {
        assert(crate::json::items_view(out@) =~= foreign_hooks(hv.take(0)));
    }
    for i in 0..hooks.len()
        invariant
            hv == crate::json::items_view(hooks@),
            crate::json::items_view(out@) == foreign_hooks(hv.take(i as int)),
    {
        proof {
            assert(hv.take(i + 1).drop_last() =~= hv.take(i as int));
            assert(hv.take(i + 1).last() == hooks@[i as int]@);
        }
        let ghost o0 = crate::json::items_view(out@);
        if !hook_is_own(&hooks[i]) {
            out.push(hooks[i].clone());
            proof {
                assert(crate::json::items_view(out@) =~= o0.push(hv[i as int]));
            }
        }
    }
    proof {
        assert(hv.take(hv.len() as int) =~= hv);
    }
    out
}

fn strip_group(group: &Json) -> (r: Option<Json>)
    ensures
        match r {
            Some(g) => group_left(group@) == Some(g@),
            None => group_left(group@) is None,
        },
{
    broadcast use lemma_json_view;

    if !group_contains_own_command(group) {
        return Some(group.clone());
    }
    let left = match group.get("hooks") {
        Some(Json::Array(hooks)) => strip_hooks(hooks),
        _ => Vec::new(),
    };
    proof {
        assert(crate::json::items_view(left@).len() == left@.len());
    }
    if left.len() == 0 {
        return None;
    }
    match group.clone() {
        Json::Object(mut m) => {
            put_member(&mut m, "hooks", Json::Array(left));
            Some(Json::Object(m))
        },
        other => Some(other),
    }
}

fn strip_groups(groups: &Vec<Json>) -> (out: Vec<Json>)
    ensures
        crate::json::items_view(out@) == groups_left(crate::json::items_view(groups@)),
{
    let ghost gv = crate::json::items_view(groups@);
    let mut out: Vec<Json> = Vec::new();
    proof {
        assert(crate::json::items_view(out@) =~= groups_left(gv.take(0)));
    }
    for i in 0..groups.len()
        invariant
            gv == crate::json::items_view(groups@),
            crate::json::items_view(out@) == groups_left(gv.take(i as int)),
    {
        proof {
            assert(gv.take(i + 1).drop_last() =~= gv.take(i as int));
            assert(gv.take(i + 1).last() == groups@[i as int]@);
        }
        let ghost o0 = crate::json::items_view(out@);
        match strip_group(&groups[i]) {
            Some(g) => {
                let ghost x = g@;
                out.push(g);
                proof {
                    assert(crate::json::items_view(out@) =~= o0.push(x));
                }
            },
            None => {},
        }
    }
    proof {
        assert(gv.take(gv.len() as int) =~= gv);
    }
    out
}

fn event_has_own(v: &Json) -> (r: bool)
    ensures
        r == event_is_own(v@),
{
    broadcast use lemma_json_view;

    match v {
        Json::Array(groups) => any_group_has_own(groups),
        _ => false,
    }
}

fn strip_event(v: &Json) -> (r: Option<Json>)
    ensures
        match r {
            Some(x) => event_left(v@) == Some(x@),
            None => event_left(v@) is None,
        },
{
    broadcast use lemma_json_view;

    if !event_has_own(v) {
        return Some(v.clone());
    }
    let left = match v {
        Json::Array(groups) => strip_groups(groups),
        _ => Vec::new(),
    };
    proof {
        assert(crate::json::items_view(left@).len() == left@.len());
    }
    if left.len() == 0 {
        None
    } else {
        Some(Json::Array(left))
    }
}

fn strip_events(hooks: &Vec<(String, Json)>) -> (out: Vec<(String, Json)>)
    ensures
        members_view(out@) == events_left(members_view(hooks@)),
{
    let ghost hv = members_view(hooks@);
    let mut out: Vec<(String, Json)> = Vec::new();
    proof {
        assert(members_view(out@) =~= events_left(hv.take(0)));
    }
    for i in 0..hooks.len()
        invariant
            hv == members_view(hooks@),
            members_view(out@) == events_left(hv.take(i as int)),
    {
        proof {
            assert(hv.take(i + 1).drop_last() =~= hv.take(i as int));
            assert(hv.take(i + 1).last() == (hooks@[i as int].0@, hooks@[i as int].1@));
        }
        let ghost o0 = members_view(out@);
        match strip_event(&hooks[i].1) {
            Some(v) => {
                let ghost x = (hooks@[i as int].0@, v@);
                out.push((hooks[i].0.clone(), v));
                proof {
                    assert(members_view(out@) =~= o0.push(x));
                }
            },
            None => {},
        }
    }
    proof {
        assert(hv.take(hv.len() as int) =~= hv);
    }
    out
}

fn hooks_have_own(hooks: &Vec<(String, Json)>) -> (r: bool)
    ensures
        r == any_event_own(members_view(hooks@)),
{
    let ghost hv = members_view(hooks@);
    for i in 0..hooks.len()
        invariant
            hv == members_view(hooks@),
            forall|k: int| 0 <= k < i ==> !event_is_own((#[trigger] hv[k]).1),
    {
        proof {
            assert(hv[i as int].1 == hooks@[i as int].1@);
        }
        if event_has_own(&hooks[i].1) {
            return true;
        }
    }
    false
}

/// Takes our hooks out of settings, with the groups and events that are then
/// empty, and tells whether there was any.
pub fn remove_entries(root: &mut Vec<(String, Json)>) -> (changed: bool)
    ensures
        match removed(members_view(old(root)@)) {
            Some(m) => changed && members_view(final(root)@) == m,
            None => !changed && members_view(final(root)@) == members_view(old(root)@),
        },
{
    broadcast use lemma_json_view;

    let k: usize = crate::json::find_member(root, "hooks");
    if k >= root.len() {
        return false;
    }
    let left = match &root[k].1 {
        Json::Object(hooks) => {
            if !hooks_have_own(hooks) {
                return false;
            }
            strip_events(hooks)
        },
        _ => {
            return false;
        },
    };
    proof {
        assert(members_view(left@).len() == left@.len());
    }
    if left.len() == 0 {
        crate::json::remove_member(root, "hooks");
    } else {
        put_member(root, "hooks", Json::Object(left));
    }
    true
}

// ---------------------------------------------------------------------------
// The plan
// ---------------------------------------------------------------------------

/// What is to be done with a settings file.
#[derive(Debug, Clone, PartialEq, Eq)]
pub struct InitPlan {
    /// What happens to the hooks.
    pub outcome: InitOutcome,
    /// The new text of the file, where it changes. The old one is kept as a
    /// backup.
    pub text: Option<String>,
}

/// The contents of an [`InitPlan`].
pub ghost struct InitPlanV {
    pub outcome: InitOutcome,
    pub text: Option<Seq<char>>,
}

impl View for InitPlan {
    type V = InitPlanV;

    open spec fn view(&self) -> InitPlanV {
        InitPlanV { outcome: self.outcome, text: opt_view(self.text) }
    }
}

/// The members of a file that may not be there.
pub open spec fn or_empty(m: Option<Members>) -> Members {
    match m {
        Some(m) => m,
        None => Seq::<(Seq<char>, JsonV)>::empty(),
    }
}

/// What is to be done with a settings file, of which the text is given where
/// there is one.
pub open spec fn init_plan(raw: Option<Seq<char>>, remove: bool) -> Result<
    InitPlanV,
    SettingsErrorV,
> {
    match loaded(raw) {
        Err(e) => Err(e),
        Ok(found) => if remove {
            match removed(or_empty(found)) {
                Some(m) => Ok(
                    InitPlanV { outcome: InitOutcome::Removed, text: Some(settings_text(m)) },
                ),
                None => Ok(InitPlanV { outcome: InitOutcome::NothingToRemove, text: None }),
            }
        } else {
            match installed(or_empty(found)) {
                Err(e) => Err(e),
                Ok(m) => if is_installed(or_empty(found)) {
                    Ok(InitPlanV { outcome: InitOutcome::AlreadyInstalled, text: None })
                } else {
                    Ok(InitPlanV { outcome: InitOutcome::Installed, text: Some(settings_text(m)) })
                },
            }
        },
    }
}

/// What a settings file holds after the plan.
pub open spec fn planned_members(raw: Option<Seq<char>>, remove: bool) -> Members {
    let found = or_empty(loaded(raw)->Ok_0);
    if remove {
        removed(found)->0
    } else {
        installed(found)->Ok_0
    }
}

/// Plans what is to be done with a settings file, of which the text is given
/// where there is one.
///
/// A file that was written so is done with: to plan for it again asks for no
/// change, where it holds no number but integers and is not nested too deep.
pub fn plan_init(raw: Option<&str>, remove: bool) -> (r: Result<InitPlan, SettingsError>)
    ensures
        match r {
            Ok(p) => init_plan(opt_str(raw), remove) == Ok::<_, SettingsErrorV>(p@),
            Err(e) => init_plan(opt_str(raw), remove) == Err::<InitPlanV, _>(e@),
        },
        r matches Ok(p) ==> p.text matches Some(t) ==> is_simple(
            JsonV::Object(planned_members(opt_str(raw), remove)),
            127,
        ) ==> init_plan(Some(t@), remove) == Ok::<_, SettingsErrorV>(
            InitPlanV {
                outcome: if remove {
                    InitOutcome::NothingToRemove
                } else {
                    InitOutcome::AlreadyInstalled
                },
                text: None,
            },
        ),
{
    let found = match load_settings(raw) {
        Ok(found) => found,
        Err(e) => {
            return Err(e);
        },
    };
    let mut root: Vec<(String, Json)> = match found {
        Some(m) => m,
        None => Vec::new(),
    };
    proof {
        assert(members_view(root@) =~= or_empty(loaded(opt_str(raw))->Ok_0));
    }
    let ghost before = members_view(root@);
    if remove {
        if !remove_entries(&mut root) {
            return Ok(InitPlan { outcome: InitOutcome::NothingToRemove, text: None });
        }
        proof {
            lemma_removed_tidy(before);
            removing_leaves_none_of_ours(before);
        }
        let text = write_settings(root);
        Ok(InitPlan { outcome: InitOutcome::Removed, text: Some(text) })
    } else {
        match install_entries(&mut root) {
            Err(e) => Err(e),
            Ok(false) => Ok(InitPlan { outcome: InitOutcome::AlreadyInstalled, text: None }),
            Ok(true) => {
                proof {
                    lemma_installed_tidy(before);
                    installing_twice_changes_nothing(before);
                }
                let text = write_settings(root);
                Ok(InitPlan { outcome: InitOutcome::Installed, text: Some(text) })
            },
        }
    }
}

proof fn lemma_member_tidy(m: Members, name: Seq<char>)
    requires
        tidy_members(m),
    ensures
        member(m, name) matches Some(v) ==> tidy(v),
{
    lemma_place(m, name);
    let k = place_of(m, name);
    if k < m.len() {
        assert(tidy(m[k].1));
    }
}

proof fn lemma_with_events_tidy(hooks: Members, events: Seq<(Seq<char>, bool)>)
    requires
        tidy_members(hooks),
    ensures
        with_events(hooks, events) matches Ok(h) ==> tidy_members(h),
    decreases events.len(),
{
    if events.len() > 0 {
        lemma_with_events_tidy(hooks, events.drop_last());
        match with_events(hooks, events.drop_last()) {
            Ok(h) => {
                let e = events.last();
                let g = own_group(e.1);
                lemma_own_group(e.1);
                lemma_member_tidy(h, e.0);
                match member(h, e.0) {
                    None => {
                        assert(tidy(JsonV::Array(seq![g])));
                        lemma_put_tidy(h, e.0, JsonV::Array(seq![g]));
                    },
                    Some(JsonV::Array(groups)) => {
                        let v = JsonV::Array(groups.push(g));
                        assert forall|i: int| 0 <= i < groups.push(g).len() implies tidy(
                            #[trigger] groups.push(g)[i],
                        ) by {
                            if i < groups.len() {
                                assert(tidy(groups[i]));
                            }
                        }
                        assert(tidy(v));
                        lemma_put_tidy(h, e.0, v);
                    },
                    Some(_) => {},
                }
            },
            Err(_) => {},
        }
    }
}

proof fn lemma_installed_tidy(root: Members)
    requires
        tidy_members(root),
    ensures
        installed(root) matches Ok(r) ==> tidy_members(r),
{
    match settings_hooks(root) {
        Ok(hooks) => {
            lemma_member_tidy(root, "hooks"@);
            assert(tidy_members(hooks)) by {
                if member(root, "hooks"@) is Some {
                    assert(tidy(JsonV::Object(hooks)));
                }
            }
            lemma_with_events_tidy(hooks, managed());
            match with_events(hooks, managed()) {
                Ok(h) => {
                    assert(tidy(JsonV::Object(h)));
                    lemma_put_tidy(root, "hooks"@, JsonV::Object(h));
                },
                Err(_) => {},
            }
        },
        Err(_) => {},
    }
}

proof fn lemma_foreign_tidy(hooks: Seq<JsonV>)
    requires
        forall|i: int| 0 <= i < hooks.len() ==> tidy(#[trigger] hooks[i]),
    ensures
        forall|i: int| 0 <= i < foreign_hooks(hooks).len() ==> tidy(#[trigger] foreign_hooks(hooks)[i]),
    decreases hooks.len(),
{
    if hooks.len() > 0 {
        let t = hooks.drop_last();
        assert forall|i: int| 0 <= i < t.len() implies tidy(#[trigger] t[i]) by {
            assert(tidy(hooks[i]));
        }
        lemma_foreign_tidy(t);
        assert(tidy(hooks[hooks.len() - 1]));
        let out = foreign_hooks(hooks);
        let b = foreign_hooks(t);
        assert forall|i: int| 0 <= i < out.len() implies tidy(#[trigger] out[i]) by {
            if i < b.len() {
                assert(tidy(b[i]));
            }
        }
    }
}

proof fn lemma_group_left_tidy(group: JsonV)
    requires
        tidy(group),
    ensures
        group_left(group) matches Some(g) ==> tidy(g),
{
    if group_is_own(group) {
        let m = group->Object_0;
        assert(tidy_members(m));
        lemma_member_tidy(m, "hooks"@);
        let hooks = hooks_of(group)->0;
        assert(tidy(JsonV::Array(hooks)));
        lemma_foreign_tidy(hooks);
        let left = foreign_hooks(hooks);
        assert(tidy(JsonV::Array(left)));
        lemma_put_tidy(m, "hooks"@, JsonV::Array(left));
        assert(tidy(JsonV::Object(put(m, "hooks"@, JsonV::Array(left)))));
    }
}

proof fn lemma_groups_left_tidy(groups: Seq<JsonV>)
    requires
        forall|i: int| 0 <= i < groups.len() ==> tidy(#[trigger] groups[i]),
    ensures
        forall|i: int| 0 <= i < groups_left(groups).len() ==> tidy(#[trigger] groups_left(groups)[i]),
    decreases groups.len(),
{
    if groups.len() > 0 {
        let t = groups.drop_last();
        assert forall|i: int| 0 <= i < t.len() implies tidy(#[trigger] t[i]) by {
            assert(tidy(groups[i]));
        }
        lemma_groups_left_tidy(t);
        assert(tidy(groups[groups.len() - 1]));
        lemma_group_left_tidy(groups.last());
        let out = groups_left(groups);
        let b = groups_left(t);
        assert forall|i: int| 0 <= i < out.len() implies tidy(#[trigger] out[i]) by {
            if i < b.len() {
                assert(tidy(b[i]));
            }
        }
    }
}

proof fn lemma_events_left_tidy(hooks: Members)
    requires
        tidy_members(hooks),
    ensures
        tidy_members(events_left(hooks)),
        forall|i: int|
            0 <= i < events_left(hooks).len() ==> exists|j: int|
                0 <= j < hooks.len() && (#[trigger] hooks[j]).0 == (
                #[trigger] events_left(hooks)[i]).0,
    decreases hooks.len(),
{
    let out = events_left(hooks);
    if hooks.len() > 0 {
        let t = hooks.drop_last();
        assert(tidy_members(t)) by {
            assert forall|i: int, j: int| 0 <= i < j < t.len() implies crate::order::text_lt(
                (#[trigger] t[i]).0,
                (#[trigger] t[j]).0,
            ) by {
                assert(crate::order::text_lt(hooks[i].0, hooks[j].0));
            }
            assert forall|i: int| 0 <= i < t.len() implies tidy((#[trigger] t[i]).1) by {
                assert(tidy(hooks[i].1));
            }
        }
        lemma_events_left_tidy(t);
        let b = events_left(t);
        let last = hooks[hooks.len() - 1];
        assert(tidy(last.1));
        if event_is_own(last.1) {
            let groups = last.1->Array_0;
            lemma_groups_left_tidy(groups);
            assert(tidy(JsonV::Array(groups_left(groups))));
        }
        assert forall|i: int| 0 <= i < out.len() implies exists|j: int|
            0 <= j < hooks.len() && (#[trigger] hooks[j]).0 == (#[trigger] out[i]).0 by {
            if i < b.len() {
                let j = choose|j: int| 0 <= j < t.len() && (#[trigger] t[j]).0 == b[i].0;
                assert(hooks[j].0 == out[i].0);
            } else {
                assert(last.0 == out[i].0);
            }
        }
        assert forall|i: int, j: int| 0 <= i < j < out.len() implies crate::order::text_lt(
            (#[trigger] out[i]).0,
            (#[trigger] out[j]).0,
        ) by {
            if j < b.len() {
                assert(crate::order::text_lt(b[i].0, b[j].0));
            } else {
                assert(out[i] == b[i]);
                let k = choose|k: int| 0 <= k < t.len() && (#[trigger] t[k]).0 == b[i].0;
                assert(crate::order::text_lt(hooks[k].0, hooks[hooks.len() - 1].0));
            }
        }
        assert forall|i: int| 0 <= i < out.len() implies tidy((#[trigger] out[i]).1) by {
            if i < b.len() {
                assert(tidy(b[i].1));
            }
        }
    }
}

proof fn lemma_removed_tidy(root: Members)
    requires
        tidy_members(root),
    ensures
        removed(root) matches Some(r) ==> tidy_members(r),
{
    match member(root, "hooks"@) {
        Some(JsonV::Object(hooks)) => {
            if any_event_own(hooks) {
                lemma_member_tidy(root, "hooks"@);
                assert(tidy_members(hooks));
                lemma_events_left_tidy(hooks);
                let left = events_left(hooks);
                if left.len() == 0 {
                    lemma_without_tidy(root, "hooks"@);
                } else {
                    assert(tidy(JsonV::Object(left)));
                    lemma_put_tidy(root, "hooks"@, JsonV::Object(left));
                }
            }
        },
        _ => {},
    }
}

// ---------------------------------------------------------------------------
// Laws
// ---------------------------------------------------------------------------

/// To install a second time changes nothing.
pub proof fn installing_twice_changes_nothing(root: Members)
    ensures
        installed(root) matches Ok(r) ==> is_installed(r) && installed(r) == Ok::<
            _,
            SettingsErrorV,
        >(r),
        is_installed(root) ==> installed(root) == Ok::<_, SettingsErrorV>(root),
{
    match settings_hooks(root) {
        Ok(hooks) => {
            lemma_with_events_done(hooks, managed());
            match with_events(hooks, managed()) {
                Ok(h) => {
                    let r = put(root, "hooks"@, JsonV::Object(h));
                    lemma_put(root, "hooks"@, JsonV::Object(h));
                    lemma_with_events_done(h, managed());
                    lemma_put_same(r, "hooks"@, JsonV::Object(h));
                },
                Err(_) => {},
            }
            if is_installed(root) {
                assert(event_done(hooks, managed()[0].0));
                assert(member(root, "hooks"@) is Some) by {
                    if member(root, "hooks"@) is None {
                        assert(hooks.len() == 0);
                        assert(member(hooks, managed()[0].0) is None);
                    }
                }
                lemma_put_same(root, "hooks"@, JsonV::Object(hooks));
            }
        },
        Err(_) => {},
    }
}

/// Whether the groups of an event, where it has any, are still there, ahead of
/// all others.
pub open spec fn groups_kept(before: Option<JsonV>, after: Option<JsonV>) -> bool {
    match (before, after) {
        (Some(JsonV::Array(groups)), Some(JsonV::Array(now))) => groups.len() <= now.len()
            && now.take(groups.len() as int) == groups,
        (Some(JsonV::Array(_)), _) => false,
        _ => true,
    }
}

/// To install keeps what is there: every other field of the settings, every event
/// that is not recorded, and of the recorded ones every group, ahead of ours.
pub proof fn installing_keeps_what_is_there(root: Members)
    requires
        installed(root) is Ok,
    ensures
        forall|n: Seq<char>|
            n != "hooks"@ ==> #[trigger] member(installed(root)->Ok_0, n) == member(root, n),
        ({
            let before = settings_hooks(root)->Ok_0;
            let after = settings_hooks(installed(root)->Ok_0)->Ok_0;
            &&& forall|n: Seq<char>|
                (forall|i: int| 0 <= i < managed().len() ==> (#[trigger] managed()[i]).0 != n)
                    ==> #[trigger] member(after, n) == member(before, n)
            &&& forall|n: Seq<char>|
                groups_kept(member(before, n), #[trigger] member(after, n))
        }),
{
    let before = settings_hooks(root)->Ok_0;
    let h = with_events(before, managed())->Ok_0;
    lemma_put(root, "hooks"@, JsonV::Object(h));
    let after = settings_hooks(installed(root)->Ok_0)->Ok_0;
    assert(after == h);
    assert forall|n: Seq<char>|
        (forall|i: int| 0 <= i < managed().len() ==> (#[trigger] managed()[i]).0 != n)
            implies #[trigger] member(after, n) == member(before, n) by {
        lemma_with_events_other(before, managed(), n);
    }
    assert forall|n: Seq<char>| groups_kept(member(before, n), #[trigger] member(after, n)) by {
        if member(before, n) is Some && member(before, n)->0 is Array {
            lemma_groups_stay(before, managed(), n);
        }
    }
}

proof fn lemma_groups_stay(hooks: Members, events: Seq<(Seq<char>, bool)>, name: Seq<char>)
    requires
        with_events(hooks, events) is Ok,
        member(hooks, name) is Some,
        member(hooks, name)->0 is Array,
    ensures
        groups_kept(member(hooks, name), member(with_events(hooks, events)->Ok_0, name)),
    decreases events.len(),
{
    let groups = member(hooks, name)->0->Array_0;
    if events.len() > 0 {
        lemma_groups_stay(hooks, events.drop_last(), name);
        let h = with_events(hooks, events.drop_last())->Ok_0;
        let e = events.last();
        lemma_with_event(h, e.0, e.1);
        if e.0 == name {
            let now = member(h, name)->0->Array_0;
            if !any_group_own(now) {
                lemma_put(h, name, JsonV::Array(now.push(own_group(e.1))));
                assert(now.push(own_group(e.1)).take(groups.len() as int) =~= groups);
            }
        }
    } else {
        assert(groups.take(groups.len() as int) =~= groups);
    }
}

proof fn lemma_foreign(hooks: Seq<JsonV>)
    ensures
        !any_own(foreign_hooks(hooks)),
        forall|h: JsonV|
            #[trigger] foreign_hooks(hooks).contains(h) <==> hooks.contains(h) && !is_own(h),
    decreases hooks.len(),
{
    if hooks.len() > 0 {
        let t = hooks.drop_last();
        lemma_foreign(t);
        let a = foreign_hooks(hooks);
        let b = foreign_hooks(t);
        assert forall|i: int| 0 <= i < a.len() implies !is_own(#[trigger] a[i]) by {
            if i < b.len() {
                assert(!is_own(b[i]));
            }
        }
        assert forall|h: JsonV| #[trigger] a.contains(h) <==> hooks.contains(h) && !is_own(h) by {
            if hooks.contains(h) && !is_own(h) {
                let i = choose|i: int| 0 <= i < hooks.len() && hooks[i] == h;
                if i < t.len() {
                    assert(t[i] == h);
                    assert(b.contains(h));
                    let k = choose|k: int| 0 <= k < b.len() && b[k] == h;
                    assert(a[k] == h);
                } else {
                    assert(a.last() == h);
                }
            }
            if a.contains(h) {
                let k = choose|k: int| 0 <= k < a.len() && a[k] == h;
                if k < b.len() {
                    assert(b[k] == h);
                    assert(b.contains(h));
                    assert(t.contains(h));
                    let i = choose|i: int| 0 <= i < t.len() && t[i] == h;
                    assert(hooks[i] == h);
                } else {
                    assert(hooks[hooks.len() - 1] == h);
                }
            }
        }
    }
}

/// Of a group, to remove keeps exactly the hooks that are not ours, and all its
/// other fields; a group without a hook of ours stays as it is.
pub proof fn removing_keeps_foreign_hooks(group: JsonV)
    ensures
        !group_is_own(group) ==> group_left(group) == Some(group),
        group_is_own(group) ==> forall|h: JsonV|
            #[trigger] foreign_hooks(hooks_of(group)->0).contains(h) <==> hooks_of(
                group,
            )->0.contains(h) && !is_own(h),
        group_is_own(group) ==> (group_left(group) matches Some(g) ==> hooks_of(g) == Some(
            foreign_hooks(hooks_of(group)->0),
        ) && forall|n: Seq<char>| n != "hooks"@ ==> #[trigger] g.get(n) == group.get(n)),
{
    if group_is_own(group) {
        let hooks = hooks_of(group)->0;
        lemma_foreign(hooks);
        lemma_put(group->Object_0, "hooks"@, JsonV::Array(foreign_hooks(hooks)));
    }
}

proof fn lemma_groups_left_foreign(groups: Seq<JsonV>)
    ensures
        !any_group_own(groups_left(groups)),
    decreases groups.len(),
{
    if groups.len() > 0 {
        let t = groups.drop_last();
        lemma_groups_left_foreign(t);
        let g = groups.last();
        removing_keeps_foreign_hooks(g);
        if group_is_own(g) {
            lemma_foreign(hooks_of(g)->0);
        }
        let a = groups_left(groups);
        let b = groups_left(t);
        assert forall|i: int| 0 <= i < a.len() implies !group_is_own(#[trigger] a[i]) by {
            if i < b.len() {
                assert(!group_is_own(b[i]));
            }
        }
    }
}

proof fn lemma_events_left_foreign(hooks: Members)
    ensures
        !any_event_own(events_left(hooks)),
    decreases hooks.len(),
{
    if hooks.len() > 0 {
        let t = hooks.drop_last();
        lemma_events_left_foreign(t);
        let v = hooks.last().1;
        if event_is_own(v) {
            lemma_groups_left_foreign(v->Array_0);
        }
        let a = events_left(hooks);
        let b = events_left(t);
        assert forall|i: int| 0 <= i < a.len() implies !event_is_own((#[trigger] a[i]).1) by {
            if i < b.len() {
                assert(!event_is_own(b[i].1));
            }
        }
    }
}

/// After a removal nothing is left to remove, and every other field of the
/// settings is as it was.
pub proof fn removing_leaves_none_of_ours(root: Members)
    requires
        tidy_members(root),
    ensures
        removed(root) matches Some(r) ==> removed(r) is None && (forall|n: Seq<char>|
            n != "hooks"@ ==> #[trigger] member(r, n) == member(root, n)),
{
    match member(root, "hooks"@) {
        Some(JsonV::Object(hooks)) => {
            if any_event_own(hooks) {
                let left = events_left(hooks);
                lemma_events_left_foreign(hooks);
                if left.len() == 0 {
                    lemma_without_tidy(root, "hooks"@);
                } else {
                    lemma_put(root, "hooks"@, JsonV::Object(left));
                }
            }
        },
        _ => {},
    }
}

/// Whether installing adds only what removing takes out again: no hook is ours
/// yet, and there is no empty list of hooks of a recorded event, and no empty
/// object of hooks, which a removal would take for emptied ones.
pub open spec fn leaves_no_trace(root: Members) -> bool {
    match member(root, "hooks"@) {
        None => true,
        Some(JsonV::Object(hooks)) => hooks.len() > 0 && !any_event_own(hooks) && no_empty_events(
            hooks,
        ),
        Some(_) => false,
    }
}

/// Whether no recorded event has an empty list.
pub open spec fn no_empty_events(hooks: Members) -> bool {
    forall|i: int|
        0 <= i < managed().len() ==> !(member(hooks, (#[trigger] managed()[i]).0) matches Some(
            JsonV::Array(groups),
        ) && groups.len() == 0)
}

proof fn lemma_groups_left_same(groups: Seq<JsonV>)
    requires
        !any_group_own(groups),
    ensures
        groups_left(groups) == groups,
    decreases groups.len(),
{
    if groups.len() > 0 {
        let t = groups.drop_last();
        assert forall|i: int| 0 <= i < t.len() implies !group_is_own(#[trigger] t[i]) by {
            assert(!group_is_own(groups[i]));
        }
        lemma_groups_left_same(t);
        assert(!group_is_own(groups[groups.len() - 1]));
        assert(t.push(groups.last()) =~= groups);
    }
}

proof fn lemma_own_group_goes(use_matcher: bool)
    ensures
        group_left(own_group(use_matcher)) is None,
{
    lemma_own_group(use_matcher);
    reveal_strlit("hooks");
    reveal_strlit("matcher");
    let g = own_group(use_matcher);
    let gm = g->Object_0;
    assert(gm[0].0 == "hooks"@);
    assert(member(gm, "hooks"@) == Some(JsonV::Array(seq![own_hook()])));
    let hooks = hooks_of(g)->0;
    assert(hooks =~= seq![own_hook()]);
    assert(any_own(hooks));
    let i = choose|i: int| 0 <= i < hooks.len() && is_own(#[trigger] hooks[i]);
    assert(is_own(hooks.last()));
    assert(hooks.drop_last() =~= Seq::<JsonV>::empty());
    assert(foreign_hooks(hooks.drop_last()).len() == 0);
}

proof fn lemma_events_left_split(a: Members, b: Members)
    ensures
        events_left(a + b) == events_left(a) + events_left(b),
    decreases b.len(),
{
    if b.len() == 0 {
        assert(a + b =~= a);
        assert(events_left(a) + events_left(b) =~= events_left(a));
    } else {
        lemma_events_left_split(a, b.drop_last());
        assert((a + b).drop_last() =~= a + b.drop_last());
        assert((a + b).last() == b.last());
        assert(events_left(a + b) =~= events_left(a) + events_left(b));
    }
}

proof fn lemma_events_left_one(name: Seq<char>, v: JsonV)
    ensures
        events_left(seq![(name, v)]) == (match event_left(v) {
            Some(x) => seq![(name, x)],
            None => Seq::<(Seq<char>, JsonV)>::empty(),
        }),
{
    let m = seq![(name, v)];
    assert(m.drop_last() =~= Seq::<(Seq<char>, JsonV)>::empty());
    assert(events_left(m.drop_last()).len() == 0);
    match event_left(v) {
        Some(x) => {
            assert(events_left(m) =~= seq![(name, x)]);
        },
        None => {
            assert(events_left(m) =~= Seq::<(Seq<char>, JsonV)>::empty());
        },
    }
}

proof fn lemma_event_traceless(hooks: Members, event: Seq<char>, use_matcher: bool)
    requires
        with_event(hooks, event, use_matcher) is Ok,
        !(member(hooks, event) matches Some(JsonV::Array(groups)) && groups.len() == 0),
    ensures
        events_left(with_event(hooks, event, use_matcher)->Ok_0) == events_left(hooks),
{
    let g = own_group(use_matcher);
    lemma_own_group(use_matcher);
    lemma_own_group_goes(use_matcher);
    lemma_place(hooks, event);
    match member(hooks, event) {
        None => {
            crate::json::lemma_rank(hooks, event);
            let k = crate::json::rank_of(hooks, event);
            let v = JsonV::Array(seq![g]);
            assert(seq![g].drop_last() =~= Seq::<JsonV>::empty());
            assert(groups_left(seq![g]).len() == 0) by {
                assert(groups_left(seq![g].drop_last()).len() == 0);
            }
            assert(group_is_own(seq![g][0]));
            assert(event_left(v) is None);
            let a = hooks.take(k);
            let b = hooks.skip(k);
            assert(hooks =~= a + b);
            assert(put(hooks, event, v) =~= a + seq![(event, v)] + b);
            lemma_events_left_split(a, b);
            lemma_events_left_split(a + seq![(event, v)], b);
            lemma_events_left_split(a, seq![(event, v)]);
            lemma_events_left_one(event, v);
            assert(events_left(a) + Seq::<(Seq<char>, JsonV)>::empty() =~= events_left(a));
        },
        Some(JsonV::Array(groups)) => {
            if !any_group_own(groups) {
                let k = place_of(hooks, event);
                let old_v = JsonV::Array(groups);
                let v = JsonV::Array(groups.push(g));
                let pushed = groups.push(g);
                assert(pushed.drop_last() =~= groups);
                lemma_groups_left_same(groups);
                assert(groups_left(pushed) == groups);
                assert(group_is_own(pushed[groups.len() as int]));
                assert(event_is_own(v));
                assert(event_left(v) == Some(old_v));
                assert(event_left(old_v) == Some(old_v));
                let a = hooks.take(k);
                let b = hooks.skip(k + 1);
                assert(hooks =~= a + seq![(event, old_v)] + b);
                assert(put(hooks, event, v) =~= a + seq![(event, v)] + b);
                lemma_events_left_split(a + seq![(event, old_v)], b);
                lemma_events_left_split(a, seq![(event, old_v)]);
                lemma_events_left_split(a + seq![(event, v)], b);
                lemma_events_left_split(a, seq![(event, v)]);
                lemma_events_left_one(event, v);
                lemma_events_left_one(event, old_v);
            }
        },
        Some(_) => {},
    }
}

proof fn lemma_events_traceless(hooks: Members, k: int)
    requires
        0 <= k <= managed().len(),
        no_empty_events(hooks),
        with_events(hooks, managed().take(k)) is Ok,
    ensures
        events_left(with_events(hooks, managed().take(k))->Ok_0) == events_left(hooks),
    decreases k,
{
    if k > 0 {
        let events = managed().take(k);
        assert(events.drop_last() =~= managed().take(k - 1));
        assert(events.last() == managed()[k - 1]);
        lemma_events_traceless(hooks, k - 1);
        let h = with_events(hooks, managed().take(k - 1))->Ok_0;
        let name = managed()[k - 1].0;
        assert forall|j: int| 0 <= j < managed().take(k - 1).len() implies (
        #[trigger] managed().take(k - 1)[j]).0 != name by {
            lemma_managed_distinct(j, k - 1);
        }
        lemma_with_events_other(hooks, managed().take(k - 1), name);
        lemma_event_traceless(h, name, managed()[k - 1].1);
    } else {
        assert(managed().take(0) =~= Seq::<(Seq<char>, bool)>::empty());
    }
}

proof fn lemma_events_left_same(hooks: Members)
    requires
        !any_event_own(hooks),
    ensures
        events_left(hooks) == hooks,
    decreases hooks.len(),
{
    if hooks.len() > 0 {
        let t = hooks.drop_last();
        assert forall|i: int| 0 <= i < t.len() implies !event_is_own((#[trigger] t[i]).1) by {
            assert(!event_is_own(hooks[i].1));
        }
        lemma_events_left_same(t);
        assert(!event_is_own(hooks[hooks.len() - 1].1));
        assert(t.push(hooks.last()) =~= hooks);
    }
}

/// To remove what was installed gives back the settings as they were. The
/// exceptions are settings that had a hook of ours before, or an empty list of
/// hooks for a recorded event, or an empty object of hooks.
pub proof fn removing_undoes_installing(root: Members)
    requires
        leaves_no_trace(root),
        installed(root) is Ok,
    ensures
        removed(installed(root)->Ok_0) == Some(root),
{
    let hooks = settings_hooks(root)->Ok_0;
    let h = with_events(hooks, managed())->Ok_0;
    let r = installed(root)->Ok_0;
    lemma_put(root, "hooks"@, JsonV::Object(h));
    assert(managed().take(managed().len() as int) =~= managed());
    if member(root, "hooks"@) is None {
        assert forall|i: int| 0 <= i < managed().len() implies !(member(
            hooks,
            (#[trigger] managed()[i]).0,
        ) matches Some(JsonV::Array(groups)) && groups.len() == 0) by {
            assert(member(hooks, managed()[i].0) is None);
        }
    }
    lemma_events_traceless(hooks, managed().len() as int);
    lemma_events_left_same(hooks);
    assert(events_left(h) == hooks);
    lemma_with_events_done(hooks, managed());
    assert(event_done(h, managed()[0].0));
    lemma_place(h, managed()[0].0);
    let k = place_of(h, managed()[0].0);
    assert(event_is_own(h[k].1));
    if member(root, "hooks"@) is None {
        assert(events_left(h).len() == 0);
        lemma_remove_put(root, "hooks"@, JsonV::Object(h));
    } else {
        lemma_put_put(root, "hooks"@, JsonV::Object(h), JsonV::Object(hooks));
        lemma_put_same(root, "hooks"@, JsonV::Object(hooks));
    }
}

/// Whether a group is one with our hook alone, for all tools where it has a matcher.
pub open spec fn is_plain_group(group: JsonV, use_matcher: bool) -> bool {
    &&& group.get("hooks"@) matches Some(JsonV::Array(hooks)) && hooks.len() == 1
        && hooks[0].text_at("command"@) == Some("agent-witness emit"@) && hooks[0].text_at("type"@)
        == Some("command"@)
    &&& use_matcher ==> group.text_at("matcher"@) == Some("*"@)
    &&& !use_matcher ==> group.get("matcher"@) is None
}

proof fn lemma_plain_group(use_matcher: bool)
    ensures
        is_plain_group(own_group(use_matcher), use_matcher),
{
    reveal_strlit("hooks");
    reveal_strlit("matcher");
    reveal_strlit("command");
    reveal_strlit("type");
    assert("hooks"@.len() == 5 && "matcher"@.len() == 7);
    assert("command"@.len() == 7 && "type"@.len() == 4);
    let g = own_group(use_matcher)->Object_0;
    let h = own_hook()->Object_0;
    members_are_found_by_name(g, "hooks"@);
    members_are_found_by_name(g, "matcher"@);
    members_are_found_by_name(h, "command"@);
    members_are_found_by_name(h, "type"@);
    assert(g[0].0 == "hooks"@);
    assert(member(g, "hooks"@) == Some(g[0].1));
    assert(h[0].0 == "command"@ && h[1].0 == "type"@);
    assert(member(h, "command"@) == Some(h[0].1));
    assert(member(h, "type"@) == Some(h[1].1));
    if use_matcher {
        assert(g[1].0 == "matcher"@);
        assert(member(g, "matcher"@) == Some(g[1].1));
    }
}

/// What becomes of the groups of an event: ours is put behind the others unless one of
/// them holds it.
pub open spec fn is_hooked(before: Option<JsonV>, after: Option<JsonV>, use_matcher: bool) -> bool {
    match before {
        None => after matches Some(JsonV::Array(now)) && now.len() == 1 && is_plain_group(
            now[0],
            use_matcher,
        ),
        Some(JsonV::Array(groups)) => if any_group_own(groups) {
            after == before
        } else {
            after matches Some(JsonV::Array(now)) && now.len() == groups.len() + 1
                && now.drop_last() == groups && is_plain_group(now[now.len() - 1], use_matcher)
        },
        Some(_) => false,
    }
}

proof fn lemma_event_hooked(hooks: Members, event: Seq<char>, use_matcher: bool)
    requires
        with_event(hooks, event, use_matcher) is Ok,
    ensures
        is_hooked(
            member(hooks, event),
            member(with_event(hooks, event, use_matcher)->Ok_0, event),
            use_matcher,
        ),
{
    let g = own_group(use_matcher);
    lemma_plain_group(use_matcher);
    match member(hooks, event) {
        None => {
            lemma_put(hooks, event, JsonV::Array(seq![g]));
        },
        Some(JsonV::Array(groups)) => {
            if !any_group_own(groups) {
                lemma_put(hooks, event, JsonV::Array(groups.push(g)));
                assert(groups.push(g).drop_last() =~= groups);
            }
        },
        Some(_) => {},
    }
}

proof fn lemma_events_hooked(hooks: Members, events: Seq<(Seq<char>, bool)>, k: int)
    requires
        0 <= k < events.len(),
        with_events(hooks, events) is Ok,
        forall|i: int, j: int|
            0 <= i < j < events.len() ==> (#[trigger] events[i]).0 != (#[trigger] events[j]).0,
    ensures
        is_hooked(
            member(hooks, events[k].0),
            member(with_events(hooks, events)->Ok_0, events[k].0),
            events[k].1,
        ),
    decreases events.len(),
{
    let t = events.drop_last();
    let n = events.len() - 1;
    let h = with_events(hooks, t)->Ok_0;
    assert forall|i: int, j: int| 0 <= i < j < t.len() implies (#[trigger] t[i]).0 != (
    #[trigger] t[j]).0 by {
        assert(events[i].0 != events[j].0);
    }
    if k < n {
        lemma_events_hooked(hooks, t, k);
        assert(events[k].0 != events[n].0);
        lemma_with_event(h, events[n].0, events[n].1);
        assert(t[k] == events[k]);
    } else {
        assert forall|i: int| 0 <= i < t.len() implies (#[trigger] t[i]).0 != events[n].0 by {
            assert(events[i].0 != events[n].0);
        }
        lemma_with_events_other(hooks, t, events[n].0);
        lemma_event_hooked(h, events[n].0, events[n].1);
    }
}

proof fn lemma_managed_names()
    ensures
        forall|i: int, j: int|
            0 <= i < j < managed().len() ==> (#[trigger] managed()[i]).0 != (
            #[trigger] managed()[j]).0,
{
    reveal_strlit("SessionStart");
    reveal_strlit("UserPromptSubmit");
    reveal_strlit("PreToolUse");
    reveal_strlit("PostToolUse");
    reveal_strlit("Stop");
    reveal_strlit("SessionEnd");
    assert("SessionStart"@.len() == 12 && "UserPromptSubmit"@.len() == 16 && "PreToolUse"@.len()
        == 10 && "PostToolUse"@.len() == 11 && "Stop"@.len() == 4 && "SessionEnd"@.len() == 10);
    assert("PreToolUse"@[0] == 'P' && "SessionEnd"@[0] == 'S');
}

/// To install hooks every recorded event: a start and an end of a session, a prompt, a stop,
/// and the two sides of a tool call, the last two for all tools.
pub proof fn every_event_is_hooked(root: Members)
    requires
        installed(root) is Ok,
    ensures
        ({
            let before = settings_hooks(root)->Ok_0;
            let after = settings_hooks(installed(root)->Ok_0)->Ok_0;
            &&& settings_hooks(installed(root)->Ok_0) is Ok
            &&& is_hooked(member(before, "SessionStart"@), member(after, "SessionStart"@), false)
            &&& is_hooked(
                member(before, "UserPromptSubmit"@),
                member(after, "UserPromptSubmit"@),
                false,
            )
            &&& is_hooked(member(before, "PreToolUse"@), member(after, "PreToolUse"@), true)
            &&& is_hooked(member(before, "PostToolUse"@), member(after, "PostToolUse"@), true)
            &&& is_hooked(member(before, "Stop"@), member(after, "Stop"@), false)
            &&& is_hooked(member(before, "SessionEnd"@), member(after, "SessionEnd"@), false)
        }),
{
    let hooks = settings_hooks(root)->Ok_0;
    let h = with_events(hooks, managed())->Ok_0;
    lemma_put(root, "hooks"@, JsonV::Object(h));
    lemma_managed_names();
    let m = managed();
    assert(m[0] == ("SessionStart"@, false) && m[1] == ("UserPromptSubmit"@, false) && m[2] == (
        "PreToolUse"@,
        true,
    ) && m[3] == ("PostToolUse"@, true) && m[4] == ("Stop"@, false) && m[5] == (
        "SessionEnd"@,
        false,
    ));
    lemma_events_hooked(hooks, m, 0);
    lemma_events_hooked(hooks, m, 1);
    lemma_events_hooked(hooks, m, 2);
    lemma_events_hooked(hooks, m, 3);
    lemma_events_hooked(hooks, m, 4);
    lemma_events_hooked(hooks, m, 5);
}

/// A hook is ours exactly if our command stands in its own, wherever it does.
pub proof fn our_hooks_are_known_by_their_command(
    hook: JsonV,
    a: Seq<char>,
    b: Seq<char>,
    command: Seq<char>,
)
    ensures
        hook.text_at("command"@) == Some(a + "agent-witness emit"@ + b) ==> is_own(hook),
        hook.text_at("command"@) is None ==> !is_own(hook),
        hook.text_at("command"@) == Some(command) && !has_text(command, "agent-witness emit"@)
            ==> !is_own(hook),
{
    lemma_text_inside(a, "agent-witness emit"@, b);
}

/// To remove takes out our hooks and no others, in order; a group of which nothing is left
/// goes, and so does an event of which no group is left.
pub proof fn removing_takes_out_ours_alone(
    hooks: Seq<JsonV>,
    groups: Seq<JsonV>,
    group: JsonV,
    events: Members,
    event: (Seq<char>, JsonV),
)
    ensures
        foreign_hooks(hooks) == hooks.filter(|h: JsonV| !is_own(h)),
        groups_left(groups.push(group)) == (match group_left(group) {
            Some(g) => groups_left(groups).push(g),
            None => groups_left(groups),
        }),
        group_left(group) is None <==> hooks_of(group) is Some && hooks_of(group)->0.len() > 0 && (
        forall|i: int| 0 <= i < hooks_of(group)->0.len() ==> is_own(#[trigger] hooks_of(group)->0[i])),
        events_left(events.push(event)) == (match event.1 {
            JsonV::Array(gs) => if any_group_own(gs) && groups_left(gs).len() == 0 {
                events_left(events)
            } else if any_group_own(gs) {
                events_left(events).push((event.0, JsonV::Array(groups_left(gs))))
            } else {
                events_left(events).push(event)
            },
            _ => events_left(events).push(event),
        }),
{
    lemma_foreign_is_filter(hooks);
    assert(groups.push(group).drop_last() =~= groups);
    assert(events.push(event).drop_last() =~= events);
    if hooks_of(group) is Some {
        let hs = hooks_of(group)->0;
        lemma_foreign_is_filter(hs);
        let p = |h: JsonV| !is_own(h);
        lemma_how_many_some(hs, p);
        if group_left(group) is None {
            assert(how_many(hs, p) == 0);
            assert forall|i: int| 0 <= i < hs.len() implies is_own(#[trigger] hs[i]) by {
                if !is_own(hs[i]) {
                    assert(p(hs[i]));
                }
            }
        }
        if hs.len() > 0 && forall|i: int| 0 <= i < hs.len() ==> is_own(#[trigger] hs[i]) {
            assert(is_own(hs[0]));
            assert(any_own(hs));
            if how_many(hs, p) > 0 {
                let i = choose|i: int| 0 <= i < hs.len() && p(#[trigger] hs[i]);
                assert(is_own(hs[i]));
            }
        }
    }
}

proof fn lemma_foreign_is_filter(hooks: Seq<JsonV>)
    ensures
        foreign_hooks(hooks) == hooks.filter(|h: JsonV| !is_own(h)),
    decreases hooks.len(),
{
    reveal(Seq::filter);
    if hooks.len() > 0 {
        lemma_foreign_is_filter(hooks.drop_last());
    } else {
        assert(hooks =~= hooks.filter(|h: JsonV| !is_own(h)));
    }
}

/// A settings file is read for the object that it holds; one that is missing or blank holds
/// nothing, and one that is no JSON or no object is refused for that.
pub proof fn settings_are_read_or_refused(text: Seq<char>, m: Members)
    ensures
        loaded(None) == Ok::<Option<Members>, SettingsErrorV>(None),
        is_blank(text) ==> loaded(Some(text)) == Ok::<Option<Members>, SettingsErrorV>(
            Some(Seq::empty()),
        ),
        !is_blank(text) && parsed(text) == Some(JsonV::Object(m)) ==> loaded(Some(text)) == Ok::<
            Option<Members>,
            SettingsErrorV,
        >(Some(m)),
        !is_blank(text) && parsed(text) is None ==> loaded(Some(text)) == Err::<
            Option<Members>,
            SettingsErrorV,
        >(SettingsErrorV::NotJson(parse_failure(text))),
        !is_blank(text) && parsed(text) is Some && parsed(text)->0 !is Object ==> loaded(Some(text))
            == Err::<Option<Members>, SettingsErrorV>(SettingsErrorV::NotObject),
{
}

/// Whether some hook of the settings is ours.
pub open spec fn has_own_hook(root: Members) -> bool {
    member(root, "hooks"@) matches Some(JsonV::Object(events)) && exists|i: int, j: int, k: int|
        #![trigger events[i].1->Array_0[j], hooks_of(events[i].1->Array_0[j])->0[k]]
        0 <= i < events.len() && events[i].1 is Array && 0 <= j < events[i].1->Array_0.len()
            && hooks_of(events[i].1->Array_0[j]) is Some && 0 <= k < hooks_of(
            events[i].1->Array_0[j],
        )->0.len() && is_own(hooks_of(events[i].1->Array_0[j])->0[k])
}

proof fn lemma_removed_iff(root: Members)
    ensures
        removed(root) is Some <==> has_own_hook(root),
{
    match member(root, "hooks"@) {
        Some(JsonV::Object(events)) => {
            if any_event_own(events) {
                let i = choose|i: int| 0 <= i < events.len() && event_is_own((#[trigger] events[i]).1);
                let groups = events[i].1->Array_0;
                let j = choose|j: int| 0 <= j < groups.len() && group_is_own(#[trigger] groups[j]);
                let hooks = hooks_of(groups[j])->0;
                let k = choose|k: int| 0 <= k < hooks.len() && is_own(#[trigger] hooks[k]);
                assert(is_own(hooks_of(events[i].1->Array_0[j])->0[k]));
            }
            if has_own_hook(root) {
                let (i, j, k) = choose|i: int, j: int, k: int|
                    #![trigger events[i].1->Array_0[j], hooks_of(events[i].1->Array_0[j])->0[k]]
                    0 <= i < events.len() && events[i].1 is Array && 0 <= j
                        < events[i].1->Array_0.len() && hooks_of(events[i].1->Array_0[j]) is Some
                        && 0 <= k < hooks_of(events[i].1->Array_0[j])->0.len() && is_own(
                        hooks_of(events[i].1->Array_0[j])->0[k],
                    );
                let hooks = hooks_of(events[i].1->Array_0[j])->0;
                assert(is_own(hooks[k]));
                assert(any_own(hooks));
                assert(group_is_own(events[i].1->Array_0[j]));
                assert(any_group_own(events[i].1->Array_0));
                assert(event_is_own(events[i].1));
            }
        },
        _ => {},
    }
}

/// A file is written exactly where something changes: to install, unless all our hooks are
/// there; to remove, if any is.
pub proof fn files_are_written_where_something_changes(raw: Option<Seq<char>>)
    requires
        loaded(raw) is Ok,
    ensures
        has_own_hook(or_empty(loaded(raw)->Ok_0)) ==> (init_plan(raw, true) matches Ok(p)
            && p.outcome is Removed && p.text is Some),
        !has_own_hook(or_empty(loaded(raw)->Ok_0)) ==> (init_plan(raw, true) matches Ok(p)
            && p.outcome is NothingToRemove && p.text is None),
        init_plan(raw, false) matches Ok(p) ==> (p.outcome is AlreadyInstalled <==> is_installed(
            or_empty(loaded(raw)->Ok_0),
        )) && (p.text is None <==> p.outcome is AlreadyInstalled) && (p.outcome is AlreadyInstalled
            || p.outcome is Installed),
{
    lemma_removed_iff(or_empty(loaded(raw)->Ok_0));
}

} // verus!
