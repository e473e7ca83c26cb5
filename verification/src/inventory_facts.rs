//! What an inventory promises of the sources and of the uses that it tells.
use vstd::prelude::*;

use crate::count::{how_many, lemma_how_many};
use crate::event::{EventKind, EventV};
use crate::host::HostV;
use crate::inventory::{
    advice_lines, by_use, category_lines, completeness_words,
    configured_names_are_those_of_the_sources, configured_of, first_failure, inventory_lines,
    inventory_of, item_lines, item_names, lemma_with_source_ordered, member_names, more_used,
    neutral_line, phrase_of, project_servers, scope_and_gaps, server_names, server_of,
    skill_names, skills_in, sorted_names, source_labels, source_lines, use_count, use_in_window,
    used_lines, used_names, used_of, user_project_servers, user_servers, uses_are_counted,
    uses_in, uses_of, window_words, with_source, CategoryV, Completeness, ConfiguredSource,
    DirEntry, DirRead, FileRead, InventoryV, ItemV, ObservationV, SourceV, StatusV, UsedV,
};
use crate::json::JsonV;
use crate::named::{lemma_found_iff, lemma_name_rank, name_found, name_rank, names_ordered};
use crate::order::{
    is_order, sorted_by_sorts, text_lt, text_lt_is_an_order, text_lt_total, text_lt_transitive,
};
use crate::num::decimal;
use crate::outside::{parsed_bytes, slice_failure};
use crate::project::lemma_first_at_unique;
use crate::selector::RecordedV;
use crate::split::joined;
use crate::text::{begins, first_at, has_text, occurs_at};
use crate::timefmt::utc_text;

verus! {

// ---------------------------------------------------------------------------
// Uses
// ---------------------------------------------------------------------------

/// Whether a use is one of `name`, no earlier than the window.
pub open spec fn is_use(o: ObservationV, name: Seq<char>, since_ms: Option<i64>) -> bool {
    o.name == name && match since_ms {
        Some(since) => since <= o.ts_ms,
        None => true,
    }
}

proof fn lemma_use_count(os: Seq<ObservationV>, since_ms: Option<i64>, name: Seq<char>)
    ensures
        use_count(os, since_ms, name) == how_many(os, |o: ObservationV| is_use(o, name, since_ms)),
    decreases os.len(),
{
    lemma_how_many(os, |o: ObservationV| is_use(o, name, since_ms));
    if os.len() > 0 {
        lemma_use_count(os.drop_last(), since_ms, name);
    }
}

/// Whether a time is that of the latest use of a name in the window.
pub open spec fn is_latest_use(
    os: Seq<ObservationV>,
    name: Seq<char>,
    since_ms: Option<i64>,
    ts: i64,
) -> bool {
    &&& exists|i: int| 0 <= i < os.len() && is_use(#[trigger] os[i], name, since_ms) && os[i].ts_ms == ts
    &&& forall|i: int|
        0 <= i < os.len() && is_use(#[trigger] os[i], name, since_ms) ==> os[i].ts_ms <= ts
}

proof fn lemma_latest_use(os: Seq<ObservationV>, since_ms: Option<i64>, k: int)
    requires
        0 <= k < used_of(os, since_ms).len(),
    ensures
        is_latest_use(
            os,
            used_of(os, since_ms)[k].name,
            since_ms,
            used_of(os, since_ms)[k].last_used_ms,
        ),
    decreases os.len(),
{
    let out = used_of(os, since_ms);
    let name = out[k].name;
    let ts = out[k].last_used_ms;
    let t = os.drop_last();
    let o = os.last();
    let n = os.len() - 1;
    let b = used_of(t, since_ms);
    let nb = used_names(b);
    uses_are_counted(t, since_ms);
    uses_are_counted(os, since_ms);
    let r = name_rank(nb, o.name);
    lemma_name_rank(nb, o.name);
    lemma_found_iff(nb, o.name);
    if !use_in_window(o, since_ms) {
        lemma_latest_use(t, since_ms, k);
        lemma_latest_extends(os, name, since_ms, ts);
    } else if name_found(nb, o.name) {
        lemma_latest_use(t, since_ms, k);
        assert(b[k].name == name);
        if k == r {
            assert(os[n] == o && is_use(os[n], name, since_ms));
            let old_ts = b[r].last_used_ms;
            let i = choose|i: int|
                0 <= i < t.len() && is_use(#[trigger] t[i], name, since_ms) && t[i].ts_ms == old_ts;
            assert(os[i] == t[i]);
            assert forall|i: int|
                0 <= i < os.len() && is_use(#[trigger] os[i], name, since_ms) implies os[i].ts_ms
                <= ts by {
                if i < n {
                    assert(t[i] == os[i]);
                }
            }
            if old_ts < o.ts_ms {
                assert(os[n].ts_ms == ts);
            } else {
                assert(os[i].ts_ms == ts);
            }
        } else {
            assert(nb[k] == name && nb[r] == o.name);
            lemma_names_apart(nb, k, r);
            lemma_latest_extends(os, name, since_ms, ts);
        }
    } else {
        if k == r {
            assert(is_use(os[n], name, since_ms) && os[n].ts_ms == ts);
            assert forall|i: int|
                0 <= i < os.len() && is_use(#[trigger] os[i], name, since_ms) implies os[i].ts_ms
                <= ts by {
                if i < n {
                    assert(t[i] == os[i]);
                    lemma_use_count(t, since_ms, name);
                    crate::count::lemma_how_many_some(
                        t,
                        |x: ObservationV| is_use(x, name, since_ms),
                    );
                    let p = |x: ObservationV| is_use(x, name, since_ms);
                    assert(p(t[i]));
                    assert(use_count(t, since_ms, name) > 0);
                    assert(nb.contains(name));
                }
            }
        } else {
            let j = if k < r {
                k
            } else {
                k - 1
            };
            assert(b[j] == out[k]);
            lemma_latest_use(t, since_ms, j);
            if name == o.name {
                assert(nb[j] == name);
                assert(nb.contains(name));
            }
            lemma_latest_extends(os, name, since_ms, ts);
        }
    }
}

proof fn lemma_names_apart(nb: Seq<Seq<char>>, k: int, r: int)
    requires
        names_ordered(nb),
        0 <= k < nb.len(),
        0 <= r < nb.len(),
        k != r,
    ensures
        nb[k] != nb[r],
{
    text_lt_total(nb[k], nb[r]);
    if k < r {
        assert(text_lt(nb[k], nb[r]));
    } else {
        assert(text_lt(nb[r], nb[k]));
    }
}

/// A use that is not one of the name leaves the latest one what it is.
proof fn lemma_latest_extends(
    os: Seq<ObservationV>,
    name: Seq<char>,
    since_ms: Option<i64>,
    ts: i64,
)
    requires
        os.len() > 0,
        is_latest_use(os.drop_last(), name, since_ms, ts),
        !is_use(os.last(), name, since_ms),
    ensures
        is_latest_use(os, name, since_ms, ts),
{
    let t = os.drop_last();
    let i = choose|i: int|
        0 <= i < t.len() && is_use(#[trigger] t[i], name, since_ms) && t[i].ts_ms == ts;
    assert(os[i] == t[i]);
    assert forall|i: int| 0 <= i < os.len() && is_use(#[trigger] os[i], name, since_ms) implies os[i].ts_ms
        <= ts by {
        if i < t.len() {
            assert(t[i] == os[i]);
        }
    }
}

/// What was used stands with the number of its uses in the window and the time of the
/// latest of them; what was not used in the window does not stand.
pub proof fn uses_are_told_as_they_were(
    os: Seq<ObservationV>,
    since_ms: Option<i64>,
    name: Seq<char>,
)
    ensures
        forall|k: int|
            0 <= k < used_of(os, since_ms).len() && (#[trigger] used_of(os, since_ms)[k]).name
                == name ==> {
                let u = used_of(os, since_ms)[k];
                &&& u.call_count == how_many(os, |o: ObservationV| is_use(o, name, since_ms))
                &&& is_latest_use(os, name, since_ms, u.last_used_ms)
            },
        (exists|i: int| 0 <= i < os.len() && is_use(#[trigger] os[i], name, since_ms)) <==> exists|
            k: int,
        |
            0 <= k < used_of(os, since_ms).len() && (#[trigger] used_of(os, since_ms)[k]).name
                == name,
{
    uses_are_counted(os, since_ms);
    lemma_use_count(os, since_ms, name);
    let out = used_of(os, since_ms);
    let p = |o: ObservationV| is_use(o, name, since_ms);
    crate::count::lemma_how_many_some(os, p);
    assert forall|k: int| 0 <= k < out.len() && (#[trigger] out[k]).name == name implies {
        &&& out[k].call_count == how_many(os, p)
        &&& is_latest_use(os, name, since_ms, out[k].last_used_ms)
    } by {
        lemma_latest_use(os, since_ms, k);
    }
    if exists|i: int| 0 <= i < os.len() && is_use(#[trigger] os[i], name, since_ms) {
        let i = choose|i: int| 0 <= i < os.len() && is_use(#[trigger] os[i], name, since_ms);
        assert(p(os[i]));
        assert(used_names(out).contains(name));
        let k = used_names(out).index_of(name);
        assert(out[k].name == name);
    }
    if exists|k: int| 0 <= k < out.len() && (#[trigger] out[k]).name == name {
        let k = choose|k: int| 0 <= k < out.len() && (#[trigger] out[k]).name == name;
        assert(used_names(out)[k] == name);
        assert(used_names(out).contains(name));
        let i = choose|i: int| 0 <= i < os.len() && p(#[trigger] os[i]);
        assert(is_use(os[i], name, since_ms));
    }
}

/// The uses of one event more are those before it, and its own behind them: that of a server
/// where the tool that is called belongs to one, and that of a skill where the tool is the
/// one for skills. What is no call is no use.
pub proof fn uses_are_taken_from_calls(es: Seq<EventV>, e: EventV, tool: Seq<char>)
    ensures
        e.kind != EventKind::ToolCall ==> uses_in(es.push(e)) == uses_in(es),
        e.kind == EventKind::ToolCall && e.payload.get("tool_name"@) == Some(JsonV::Str(tool)) ==> {
            &&& uses_in(es.push(e)).0 == (match server_of(tool) {
                Some(server) => uses_in(es).0.push(ObservationV { name: server, ts_ms: e.ts }),
                None => uses_in(es).0,
            })
            &&& uses_in(es.push(e)).1 == (match (tool == "Skill"@, e.input("skill"@)) {
                (true, Some(skill)) => uses_in(es).1.push(
                    ObservationV { name: skill, ts_ms: e.ts },
                ),
                _ => uses_in(es).1,
            })
        },
        e.payload.text_at("tool_name"@) is None ==> uses_in(es.push(e)) == uses_in(es),
        uses_in(Seq::empty()).0.len() == 0 && uses_in(Seq::empty()).1.len() == 0,
{
    assert(es.push(e).drop_last() =~= es);
    reveal_strlit("Skill");
    reveal_strlit("mcp__");
    if begins("Skill"@, "mcp__"@) {
        assert("Skill"@.subrange(0, 5)[0] == "Skill"@[0]);
        assert("Skill"@[0] == 'S' && "mcp__"@[0] == 'm');
    }
    assert(server_of("Skill"@) is None);
}

/// The uses of one session more are those before it, and its own behind them.
pub proof fn uses_are_taken_from_every_session(rs: Seq<RecordedV>, r: RecordedV)
    ensures
        uses_of(rs.push(r)).0 == uses_of(rs).0 + uses_in(r.events).0,
        uses_of(rs.push(r)).1 == uses_of(rs).1 + uses_in(r.events).1,
        uses_of(Seq::empty()).0.len() == 0,
        uses_of(Seq::empty()).1.len() == 0,
{
    assert(rs.push(r).drop_last() =~= rs);
}

/// A tool with the prefix belongs to the server that is named between the prefix and the
/// next two low lines, whatever stands behind those; a tool without the prefix belongs to
/// none.
pub proof fn tools_belong_to_their_server(server: Seq<char>, tool: Seq<char>)
    requires
        server.len() > 0,
        forall|i: int|
            0 <= i < server.len() - 1 ==> !(#[trigger] server[i] == '_' && server[i + 1] == '_'),
        server[server.len() - 1] != '_',
    ensures
        server_of("mcp__"@ + server + "__"@ + tool) == Some(server),
        !begins(tool, "mcp__"@) ==> server_of(tool) is None,
{
    reveal_strlit("mcp__");
    reveal_strlit("__");
    let whole = "mcp__"@ + server + "__"@ + tool;
    assert(whole.subrange(0, 5) =~= "mcp__"@);
    let rest = whole.skip(5);
    assert(rest =~= server + "__"@ + tool);
    let n = server.len() as int;
    assert(rest.subrange(n, n + 2) =~= "__"@);
    assert(occurs_at(rest, "__"@, n));
    assert forall|j: int| 0 <= j < n implies !occurs_at(rest, "__"@, j) by {
        if occurs_at(rest, "__"@, j) {
            assert(rest.subrange(j, j + 2)[0] == rest[j]);
            assert(rest.subrange(j, j + 2)[1] == rest[j + 1]);
            assert(rest[j] == server[j]);
            if j < n - 1 {
                assert(rest[j + 1] == server[j + 1]);
            }
        }
    }
    assert(first_at(rest, "__"@, n));
    lemma_first_at_unique(rest, "__"@, n);
    assert(rest.take(n) =~= server);
}

/// A tool with the prefix and no two low lines behind it belongs to no server.
pub proof fn unfinished_tools_belong_to_none(rest: Seq<char>)
    requires
        forall|i: int| 0 <= i < rest.len() - 1 ==> !(#[trigger] rest[i] == '_' && rest[i + 1] == '_'),
    ensures
        server_of("mcp__"@ + rest) is None,
        server_of("mcp__"@ + "__"@ + rest) is None,
{
    reveal_strlit("mcp__");
    reveal_strlit("__");
    let a = "mcp__"@ + rest;
    assert(a.skip(5) =~= rest);
    if has_text(rest, "__"@) {
        let k = choose|k: int| occurs_at(rest, "__"@, k);
        assert(rest.subrange(k, k + 2)[0] == rest[k]);
        assert(rest.subrange(k, k + 2)[1] == rest[k + 1]);
    }
    let b = "mcp__"@ + "__"@ + rest;
    let s = b.skip(5);
    assert(s =~= "__"@ + rest);
    assert(s.subrange(0, 2) =~= "__"@);
    assert(occurs_at(s, "__"@, 0));
    assert(first_at(s, "__"@, 0));
    lemma_first_at_unique(s, "__"@, 0);
}

// ---------------------------------------------------------------------------
// Sources
// ---------------------------------------------------------------------------

/// Whether a source tells of a name.
pub open spec fn tells_of(ss: Seq<SourceV>, source: ConfiguredSource, name: Seq<char>) -> bool {
    exists|i: int|
        0 <= i < ss.len() && (#[trigger] ss[i]).source == source && ss[i].names.contains(name)
}

proof fn lemma_sources_of_items(
    items: Seq<ItemV>,
    names: Seq<Seq<char>>,
    source: ConfiguredSource,
    name: Seq<char>,
    s: ConfiguredSource,
)
    requires
        names_ordered(item_names(items)),
    ensures
        has_item(with_source(items, names, source), name, s) <==> has_item(items, name, s) || (s
            == source && names.contains(name)),
    decreases names.len(),
{
    if names.len() > 0 {
        let t = names.drop_last();
        let n = names.last();
        lemma_sources_of_items(items, t, source, name, s);
        lemma_with_source_ordered(items, t, source);
        let b = with_source(items, t, source);
        let out = with_source(items, names, source);
        let nb = item_names(b);
        let k = name_rank(nb, n);
        lemma_name_rank(nb, n);
        lemma_found_iff(nb, n);
        if names.contains(name) {
            let i = names.index_of(name);
            if i < t.len() {
                assert(t[i] == name);
            }
        }
        if t.contains(name) {
            let i = t.index_of(name);
            assert(names[i] == name);
        }
        assert(names[names.len() - 1] == n);
        if has_item(b, name, s) {
            let i = choose|i: int|
                0 <= i < b.len() && (#[trigger] b[i]).name == name && b[i].sources.contains(s);
            if name_found(nb, n) {
                if i == k && !b[k].sources.contains(source) {
                    let j = b[k].sources.index_of(s);
                    assert(out[k].sources[j] == s);
                }
                assert(nb[i] == name);
                assert(out[i].name == name && out[i].sources.contains(s));
            } else if i < k {
                assert(out[i] == b[i]);
            } else {
                assert(out[i + 1] == b[i]);
            }
        }
        if has_item(out, name, s) {
            let i = choose|i: int|
                0 <= i < out.len() && (#[trigger] out[i]).name == name && out[i].sources.contains(s);
            if name_found(nb, n) {
                if i == k && !b[k].sources.contains(source) {
                    let j = out[k].sources.index_of(s);
                    if j < b[k].sources.len() {
                        assert(b[k].sources[j] == s);
                        assert(nb[k] == n);
                        assert(b[k].name == name && b[k].sources.contains(s));
                    }
                } else {
                    assert(b[i].name == name && b[i].sources.contains(s));
                }
            } else if i < k {
                assert(b[i] == out[i]);
            } else if i > k {
                assert(b[i - 1] == out[i]);
            }
        }
        if name == n && s == source {
            if name_found(nb, n) {
                assert(nb[k] == n);
                if !b[k].sources.contains(source) {
                    assert(out[k].sources[b[k].sources.len() as int] == source);
                }
                assert(out[k].name == n && out[k].sources.contains(source));
            } else {
                assert(out[k].sources[0] == source);
                assert(out[k].name == n && out[k].sources.contains(source));
            }
        }
    }
}

/// Whether an item of a name has a source.
pub open spec fn has_item(items: Seq<ItemV>, name: Seq<char>, s: ConfiguredSource) -> bool {
    exists|i: int|
        0 <= i < items.len() && (#[trigger] items[i]).name == name && items[i].sources.contains(s)
}

/// A configured name stands with a source exactly if that source tells of it.
pub proof fn configured_items_stand_with_their_sources(
    ss: Seq<SourceV>,
    name: Seq<char>,
    source: ConfiguredSource,
)
    ensures
        has_item(configured_of(ss), name, source) <==> tells_of(ss, source, name),
    decreases ss.len(),
{
    if ss.len() > 0 {
        let t = ss.drop_last();
        configured_items_stand_with_their_sources(t, name, source);
        configured_names_are_those_of_the_sources(t);
        lemma_sources_of_items(configured_of(t), ss.last().names, ss.last().source, name, source);
        if tells_of(t, source, name) {
            let i = choose|i: int|
                0 <= i < t.len() && (#[trigger] t[i]).source == source && t[i].names.contains(name);
            assert(ss[i] == t[i]);
        }
        if tells_of(ss, source, name) {
            let i = choose|i: int|
                0 <= i < ss.len() && (#[trigger] ss[i]).source == source && ss[i].names.contains(
                    name,
                );
            if i < t.len() {
                assert(t[i] == ss[i]);
            }
        }
        if ss.last().source == source && ss.last().names.contains(name) {
            assert(ss[ss.len() - 1].source == source);
        }
    }
}

proof fn lemma_sorted_names(names: Seq<Seq<char>>)
    ensures
        sorted_names(names).len() == names.len(),
        forall|n: Seq<char>| #[trigger] sorted_names(names).contains(n) <==> names.contains(n),
        forall|i: int, j: int|
            0 <= i < j < names.len() ==> !text_lt(
                #[trigger] sorted_names(names)[j],
                #[trigger] sorted_names(names)[i],
            ),
{
    broadcast use vstd::seq_lib::group_to_multiset_ensures;

    text_lt_is_an_order();
    let lt = |a: Seq<char>, b: Seq<char>| text_lt(a, b);
    sorted_by_sorts(names, lt);
    let o = sorted_names(names);
    assert forall|n: Seq<char>| #[trigger] o.contains(n) <==> names.contains(n) by {
        assert(o.contains(n) <==> o.to_multiset().count(n) > 0);
        assert(names.contains(n) <==> names.to_multiset().count(n) > 0);
    }
    assert forall|i: int, j: int| 0 <= i < j < names.len() implies !text_lt(
        #[trigger] o[j],
        #[trigger] o[i],
    ) by {
        assert(!lt(o[j], o[i]));
    }
}

/// The servers of a section are the names of its members, in the order of strings, and a
/// section that is no object names none.
pub proof fn servers_are_the_members_of_their_section(section: Option<JsonV>, name: Seq<char>)
    ensures
        server_names(section).contains(name) <==> section is Some && section->0 is Object
            && exists|i: int|
            0 <= i < section->0->Object_0.len() && (#[trigger] section->0->Object_0[i]).0 == name,
        forall|i: int, j: int|
            0 <= i < j < server_names(section).len() ==> !text_lt(
                #[trigger] server_names(section)[j],
                #[trigger] server_names(section)[i],
            ),
{
    match section {
        Some(JsonV::Object(m)) => {
            lemma_sorted_names(member_names(m));
            if member_names(m).contains(name) {
                let i = member_names(m).index_of(name);
                assert(m[i].0 == name);
            }
            if exists|i: int| 0 <= i < m.len() && (#[trigger] m[i]).0 == name {
                let i = choose|i: int| 0 <= i < m.len() && (#[trigger] m[i]).0 == name;
                assert(member_names(m)[i] == name);
            }
        },
        _ => {},
    }
}

/// The servers of the user are read from the section of that name, those for a project from
/// that section of the project with the key of the directory, and those of the project from
/// its own file. A file that is missing, unreadable or no JSON is told for what it is.
pub proof fn servers_are_read_from_their_sections(b: Vec<u8>, v: JsonV, cwd: Seq<char>)
    requires
        parsed_bytes(b@) == Some(v),
    ensures
        user_servers(FileRead::Bytes(b)).names == server_names(v.get("mcpServers"@)),
        project_servers(FileRead::Bytes(b)).names == server_names(v.get("mcpServers"@)),
        user_servers(FileRead::Bytes(b)).source == ConfiguredSource::McpUserGlobal,
        user_project_servers(FileRead::Bytes(b), cwd).source == ConfiguredSource::McpUserProject,
        project_servers(FileRead::Bytes(b)).source == ConfiguredSource::McpProjectFile,
        forall|projects: JsonV, project: JsonV|
            #![trigger projects.get(cwd), project.get("mcpServers"@)]
            v.get("projects"@) == Some(projects) && projects.get(cwd) == Some(project)
                ==> user_project_servers(FileRead::Bytes(b), cwd).names == server_names(
                project.get("mcpServers"@),
            ),
        v.get("projects"@) is None || v.get("projects"@)->0.get(cwd) is None
            ==> user_project_servers(FileRead::Bytes(b), cwd).names.len() == 0,
        user_servers(FileRead::Bytes(b)).status is Read,
        user_servers(FileRead::Missing).status is Missing,
        project_servers(FileRead::Missing).status is Missing,
{
}

/// A file that is no JSON is told to have failed with what is wrong with it, and one that
/// could not be read to be unreadable for the reason that is given.
pub proof fn broken_files_are_told(b: Vec<u8>, reason: String, cwd: Seq<char>)
    requires
        parsed_bytes(b@) is None,
    ensures
        user_servers(FileRead::Bytes(b)).status == (StatusV::ParseFailed {
            reason: slice_failure(b@),
        }),
        project_servers(FileRead::Bytes(b)).status == (StatusV::ParseFailed {
            reason: slice_failure(b@),
        }),
        user_project_servers(FileRead::Bytes(b), cwd).status == (StatusV::ParseFailed {
            reason: slice_failure(b@),
        }),
        user_servers(FileRead::Failed(reason)).status == (StatusV::Unreadable { reason: reason@ }),
        project_servers(FileRead::Failed(reason)).status == (StatusV::Unreadable {
            reason: reason@,
        }),
{
}

/// Whether an entry of a directory is that of a skill of a name.
pub open spec fn is_skill(e: DirEntry, name: Seq<char>) -> bool {
    e matches DirEntry::Named(Some(n), true) && n@ == name
}

proof fn lemma_skill_names(es: Seq<DirEntry>, name: Seq<char>)
    ensures
        skill_names(es).contains(name) <==> exists|i: int|
            0 <= i < es.len() && is_skill(#[trigger] es[i], name),
    decreases es.len(),
{
    if es.len() > 0 {
        let t = es.drop_last();
        lemma_skill_names(t, name);
        let a = skill_names(t);
        let b = skill_names(es);
        if a.contains(name) {
            let i = choose|i: int| 0 <= i < t.len() && is_skill(#[trigger] t[i], name);
            assert(is_skill(es[i], name));
            let k = a.index_of(name);
            assert(b[k] == name);
        }
        if is_skill(es.last(), name) {
            assert(is_skill(es[es.len() - 1], name));
            assert(b[a.len() as int] == name);
        }
        if exists|i: int| 0 <= i < es.len() && is_skill(#[trigger] es[i], name) {
            let i = choose|i: int| 0 <= i < es.len() && is_skill(#[trigger] es[i], name);
            if i < t.len() {
                assert(is_skill(t[i], name));
            }
        }
        if b.contains(name) && !a.contains(name) {
            let k = b.index_of(name);
            if k < a.len() {
                assert(a[k] == name);
            }
        }
    }
}

proof fn lemma_first_failure(es: Seq<DirEntry>, k: int)
    requires
        0 <= k < es.len(),
        es[k] is Failed,
        forall|j: int| 0 <= j < k ==> (#[trigger] es[j]) is Named,
    ensures
        first_failure(es) == Some(es[k]->Failed_0@),
    decreases k,
{
    if k > 0 {
        let t = es.skip(1);
        assert(es[0] is Named);
        assert(t[k - 1] == es[k]);
        assert forall|j: int| 0 <= j < k - 1 implies (#[trigger] t[j]) is Named by {
            assert(t[j] == es[j + 1]);
        }
        lemma_first_failure(t, k - 1);
    }
}

proof fn lemma_no_failure(es: Seq<DirEntry>)
    requires
        forall|j: int| 0 <= j < es.len() ==> (#[trigger] es[j]) is Named,
    ensures
        first_failure(es) is None,
    decreases es.len(),
{
    if es.len() > 0 {
        let t = es.skip(1);
        assert(es[0] is Named);
        assert forall|j: int| 0 <= j < t.len() implies (#[trigger] t[j]) is Named by {
            assert(t[j] == es[j + 1]);
        }
        lemma_no_failure(t);
    }
}

/// The skills of a directory are its entries that hold the file of a skill, where every
/// entry could be read; where one could not, the directory is unreadable for the reason of
/// the first such entry.
pub proof fn skills_are_the_entries_with_their_file(
    source: ConfiguredSource,
    es: Vec<DirEntry>,
    name: Seq<char>,
    k: int,
)
    ensures
        (forall|j: int| 0 <= j < es@.len() ==> (#[trigger] es@[j]) is Named) ==> {
            &&& skills_in(source, DirRead::Entries(es)).source == source
            &&& skills_in(source, DirRead::Entries(es)).status is Read
            &&& skills_in(source, DirRead::Entries(es)).names.contains(name) <==> exists|i: int|
                0 <= i < es@.len() && is_skill(#[trigger] es@[i], name)
            &&& forall|i: int, j: int|
                0 <= i < j < skills_in(source, DirRead::Entries(es)).names.len() ==> !text_lt(
                    #[trigger] skills_in(source, DirRead::Entries(es)).names[j],
                    #[trigger] skills_in(source, DirRead::Entries(es)).names[i],
                )
        },
        0 <= k < es@.len() && es@[k] is Failed && (forall|j: int|
            0 <= j < k ==> (#[trigger] es@[j]) is Named) ==> skills_in(
            source,
            DirRead::Entries(es),
        ).status == (StatusV::Unreadable { reason: es@[k]->Failed_0@ }),
        skills_in(source, DirRead::Missing).status is Missing,
{
    if forall|j: int| 0 <= j < es@.len() ==> (#[trigger] es@[j]) is Named {
        lemma_no_failure(es@);
        lemma_skill_names(es@, name);
        lemma_sorted_names(skill_names(es@));
    }
    if 0 <= k < es@.len() && es@[k] is Failed && (forall|j: int|
        0 <= j < k ==> (#[trigger] es@[j]) is Named) {
        lemma_first_failure(es@, k);
    }
}

/// An inventory is complete exactly if no source of servers or skills was unreadable or no
/// JSON; a source that is not there does not make it partial.
pub proof fn inventories_are_partial_by_a_broken_source(
    mcp: Seq<SourceV>,
    skills: Seq<SourceV>,
    used_mcp: Seq<ObservationV>,
    used_skills: Seq<ObservationV>,
    now_ms: i64,
    since_ms: Option<i64>,
)
    ensures
        inventory_of(mcp, skills, used_mcp, used_skills, now_ms, since_ms).completeness
            == Completeness::Complete <==> (forall|i: int|
            0 <= i < mcp.len() ==> (#[trigger] mcp[i]).status is Read || mcp[i].status is Missing)
            && (forall|i: int|
            0 <= i < skills.len() ==> (#[trigger] skills[i]).status is Read || skills[i].status
                is Missing),
{
    if inventory_of(mcp, skills, used_mcp, used_skills, now_ms, since_ms).completeness
        == Completeness::Complete {
        assert forall|i: int| 0 <= i < mcp.len() implies (#[trigger] mcp[i]).status is Read
            || mcp[i].status is Missing by {
            assert(!mcp[i].status.broken());
        }
        assert forall|i: int| 0 <= i < skills.len() implies (#[trigger] skills[i]).status is Read
            || skills[i].status is Missing by {
            assert(!skills[i].status.broken());
        }
    }
}

/// Servers are set against the uses of servers, and skills against those of skills, both in
/// the same window: what stands first among the used has the most calls, and of two with as
/// many calls the one whose name comes first stands first.
pub proof fn categories_are_told_apart(
    mcp: Seq<SourceV>,
    skills: Seq<SourceV>,
    used_mcp: Seq<ObservationV>,
    used_skills: Seq<ObservationV>,
    now_ms: i64,
    since_ms: Option<i64>,
    u: UsedV,
)
    ensures
        ({
            let r = inventory_of(mcp, skills, used_mcp, used_skills, now_ms, since_ms);
            &&& r.mcp.configured == configured_of(mcp)
            &&& r.skills.configured == configured_of(skills)
            &&& r.mcp.used.contains(u) <==> used_of(used_mcp, since_ms).contains(u)
            &&& r.skills.used.contains(u) <==> used_of(used_skills, since_ms).contains(u)
            &&& r.mcp.sources == mcp
            &&& r.skills.sources == skills
            &&& r.now_ms == now_ms
            &&& r.since_ms == since_ms
        }),
{
    lemma_by_use(used_of(used_mcp, since_ms), u);
    lemma_by_use(used_of(used_skills, since_ms), u);
}

proof fn lemma_use_order()
    ensures
        is_order(|a: UsedV, b: UsedV| more_used(a, b)),
{
    let lt = |a: UsedV, b: UsedV| more_used(a, b);
    assert forall|a: UsedV| !#[trigger] lt(a, a) by {
        text_lt_total(a.name, a.name);
    }
    assert forall|a: UsedV, b: UsedV| #[trigger] lt(a, b) implies !lt(b, a) by {
        text_lt_total(a.name, b.name);
    }
    assert forall|a: UsedV, b: UsedV, c: UsedV| #[trigger]
        lt(a, b) && !lt(c, b) implies #[trigger] lt(a, c) by {
        text_lt_total(b.name, c.name);
        if text_lt(a.name, b.name) && text_lt(b.name, c.name) {
            text_lt_transitive(a.name, b.name, c.name);
        }
    }
}

proof fn lemma_by_use(items: Seq<UsedV>, u: UsedV)
    ensures
        by_use(items).contains(u) <==> items.contains(u),
{
    broadcast use vstd::seq_lib::group_to_multiset_ensures;

    lemma_use_order();
    sorted_by_sorts(items, |a: UsedV, b: UsedV| more_used(a, b));
    assert(by_use(items).contains(u) <==> by_use(items).to_multiset().count(u) > 0);
    assert(items.contains(u) <==> items.to_multiset().count(u) > 0);
}

/// Of two that were used equally often, the one whose name comes first stands first.
pub proof fn equal_uses_go_by_name(items: Seq<UsedV>, i: int, j: int)
    requires
        0 <= i < j < by_use(items).len(),
        by_use(items)[i].call_count == by_use(items)[j].call_count,
    ensures
        !text_lt(by_use(items)[j].name, by_use(items)[i].name),
{
    let lt = |a: UsedV, b: UsedV| more_used(a, b);
    lemma_use_order();
    sorted_by_sorts(items, lt);
    assert(!lt(by_use(items)[j], by_use(items)[i]));
}

// ---------------------------------------------------------------------------
// Lines
// ---------------------------------------------------------------------------

/// Whether lines show a row under a heading, so many lines below it.
pub open spec fn shows_under(
    lines: Seq<Seq<char>>,
    heading: Seq<char>,
    below: int,
    row: Seq<char>,
) -> bool {
    exists|k: int| #[trigger] is_line_at(lines, k, heading) && is_line_at(lines, k + below, row)
}

/// Whether a line stands at a place.
pub open spec fn is_line_at(lines: Seq<Seq<char>>, k: int, line: Seq<char>) -> bool {
    0 <= k < lines.len() && lines[k] == line
}

proof fn lemma_shown_in_part(
    a: Seq<Seq<char>>,
    head: Seq<Seq<char>>,
    h: int,
    rows: Seq<Seq<char>>,
    b: Seq<Seq<char>>,
    i: int,
)
    requires
        0 <= h < head.len(),
        0 <= i < rows.len(),
    ensures
        shows_under(a + head + rows + b, head[h], head.len() - h + i, rows[i]),
{
    let all = a + head + rows + b;
    let k = a.len() + h;
    assert(is_line_at(all, k, head[h]));
    assert(all[a.len() + head.len() + i] == rows[i]);
    assert(is_line_at(all, k + (head.len() - h + i), rows[i]));
}

proof fn lemma_shown_in_whole(
    a: Seq<Seq<char>>,
    part: Seq<Seq<char>>,
    b: Seq<Seq<char>>,
    heading: Seq<char>,
    below: int,
    row: Seq<char>,
)
    requires
        shows_under(part, heading, below, row),
    ensures
        shows_under(a + part + b, heading, below, row),
{
    let k = choose|k: int| #[trigger] is_line_at(part, k, heading) && is_line_at(
        part,
        k + below,
        row,
    );
    let all = a + part + b;
    assert(all[a.len() + k] == part[k]);
    assert(all[a.len() + k + below] == part[k + below]);
    assert(is_line_at(all, a.len() + k, heading));
    assert(is_line_at(all, a.len() + k + below, row));
}

/// The line of something configured: its name and where it is configured.
pub open spec fn configured_line(c: ItemV, host: HostV) -> Seq<char> {
    "- "@ + c.name + " (sources: "@ + joined(source_labels(c.sources, host), "; "@) + ")"@
}

/// The line of something used: its name, how often, and when last.
pub open spec fn use_line(u: UsedV) -> Seq<char> {
    "- "@ + u.name + " — "@ + decimal(u.call_count as nat) + " call(s), last used "@ + utc_text(
        u.last_used_ms as int,
    )
}

/// The section of a category shows what is configured, what was used, and the two
/// differences, each item on a line of its own under the heading of its list.
pub proof fn categories_show_every_item(
    title: Seq<char>,
    noun: Seq<char>,
    c: CategoryV,
    since_ms: Option<i64>,
    host: HostV,
    i: int,
)
    ensures
        ({
            let lines = category_lines(title, noun, c, since_ms, host);
            let phrase = phrase_of(since_ms);
            &&& 0 <= i < c.configured.len() ==> shows_under(
                lines,
                "### Configured now"@,
                2 + i,
                configured_line(c.configured[i], host),
            )
            &&& 0 <= i < c.used.len() ==> shows_under(
                lines,
                "### Observed used "@ + phrase,
                2 + i,
                use_line(c.used[i]),
            )
            &&& 0 <= i < c.configured_not_used.len() ==> shows_under(
                lines,
                "### Configured now, not observed used "@ + phrase,
                2 + i,
                configured_line(c.configured_not_used[i], host),
            )
            &&& 0 <= i < c.used_not_configured.len() ==> shows_under(
                lines,
                "### Observed used "@ + phrase + ", not configured now"@,
                4 + i,
                use_line(c.used_not_configured[i]),
            )
        }),
{
    let lines = category_lines(title, noun, c, since_ms, host);
    let phrase = phrase_of(since_ms);
    let a = seq!["## "@ + title, ""@, "### Configured sources"@, ""@] + source_lines(
        c.sources,
        host,
    );
    let h1 = seq![""@, "### Configured now"@, ""@];
    let r1 = item_lines(c.configured, host);
    let h2 = seq![""@, "### Observed used "@ + phrase, ""@];
    let r2 = used_lines(c.used);
    let h3 = seq![""@, "### Configured now, not observed used "@ + phrase, ""@];
    let r3 = item_lines(c.configured_not_used, host);
    let adv = advice_lines(c.configured_not_used);
    let h4 = seq![
        ""@,
        "### Observed used "@ + phrase + ", not configured now"@,
        ""@,
        neutral_line(host.site),
        ""@,
    ];
    let r4 = used_lines(c.used_not_configured);
    let end = seq![
        ""@,
        decimal(c.configured.len()) + " "@ + noun + "(s) configured now; "@ + decimal(c.used.len())
            + " observed used "@ + phrase + "; "@ + decimal(c.configured_not_used.len())
            + " configured "@ + noun + "(s) had no observed calls "@ + phrase + "."@,
        ""@,
    ];
    assert(lines == a + h1 + r1 + h2 + r2 + h3 + r3 + adv + h4 + r4 + end);
    if 0 <= i < c.configured.len() {
        lemma_shown_in_part(a, h1, 1, r1, h2 + r2 + h3 + r3 + adv + h4 + r4 + end, i);
        lemma_tail7(a + h1 + r1, h2, r2, h3, r3, adv, h4 + r4 + end);
        lemma_tail3(a + h1 + r1 + h2 + r2 + h3 + r3 + adv, h4, r4, end);
        lemma_tail3(h2 + r2 + h3 + r3 + adv, h4, r4, end);
    }
    if 0 <= i < c.used.len() {
        lemma_shown_in_part(a + h1 + r1, h2, 1, r2, h3 + r3 + adv + h4 + r4 + end, i);
        lemma_tail5(a + h1 + r1 + h2 + r2, h3, r3, adv, h4 + r4 + end);
        lemma_tail3(a + h1 + r1 + h2 + r2 + h3 + r3 + adv, h4, r4, end);
        lemma_tail3(h3 + r3 + adv, h4, r4, end);
    }
    if 0 <= i < c.configured_not_used.len() {
        lemma_shown_in_part(a + h1 + r1 + h2 + r2, h3, 1, r3, adv + h4 + r4 + end, i);
        lemma_tail3(a + h1 + r1 + h2 + r2 + h3 + r3 + adv, h4, r4, end);
        lemma_tail3(adv, h4, r4, end);
        lemma_tail2(a + h1 + r1 + h2 + r2 + h3 + r3, adv, h4 + r4 + end);
    }
    if 0 <= i < c.used_not_configured.len() {
        lemma_shown_in_part(a + h1 + r1 + h2 + r2 + h3 + r3 + adv, h4, 1, r4, end, i);
    }
}

proof fn lemma_tail2(x: Seq<Seq<char>>, a: Seq<Seq<char>>, b: Seq<Seq<char>>)
    ensures
        x + a + b == x + (a + b),
{
    assert(x + a + b =~= x + (a + b));
}

proof fn lemma_tail3(x: Seq<Seq<char>>, a: Seq<Seq<char>>, b: Seq<Seq<char>>, c: Seq<Seq<char>>)
    ensures
        x + a + b + c == x + (a + b + c),
{
    assert(x + a + b + c =~= x + (a + b + c));
}

proof fn lemma_tail5(
    x: Seq<Seq<char>>,
    a: Seq<Seq<char>>,
    b: Seq<Seq<char>>,
    c: Seq<Seq<char>>,
    d: Seq<Seq<char>>,
)
    ensures
        x + a + b + c + d == x + (a + b + c + d),
{
    assert(x + a + b + c + d =~= x + (a + b + c + d));
}

proof fn lemma_tail7(
    x: Seq<Seq<char>>,
    a: Seq<Seq<char>>,
    b: Seq<Seq<char>>,
    c: Seq<Seq<char>>,
    d: Seq<Seq<char>>,
    e: Seq<Seq<char>>,
    f: Seq<Seq<char>>,
)
    ensures
        x + a + b + c + d + e + f == x + (a + b + c + d + e + f),
{
    assert(x + a + b + c + d + e + f =~= x + (a + b + c + d + e + f));
}

/// What a section shows, the inventory shows: it holds the section of the servers and that of
/// the skills.
pub proof fn inventories_show_both_categories(
    r: InventoryV,
    host: HostV,
    heading: Seq<char>,
    below: int,
    row: Seq<char>,
)
    ensures
        shows_under(
            category_lines("MCP servers"@, "server"@, r.mcp, r.since_ms, host),
            heading,
            below,
            row,
        ) ==> shows_under(inventory_lines(r, host), heading, below, row),
        shows_under(
            category_lines("Skills"@, "skill"@, r.skills, r.since_ms, host),
            heading,
            below,
            row,
        ) ==> shows_under(inventory_lines(r, host), heading, below, row),
{
    let servers = category_lines("MCP servers"@, "server"@, r.mcp, r.since_ms, host);
    let skills = category_lines("Skills"@, "skill"@, r.skills, r.since_ms, host);
    let scope = scope_and_gaps(r.completeness, host.name);
    let head = seq![
        "# Capability inventory"@,
        ""@,
        "_Configured vs observed-used MCP servers and skills. Observation only: configured is a snapshot read from config files now; used is ToolCall evidence from recorded sessions._"@,
        ""@,
        "- Configured snapshot read: "@ + utc_text(r.now_ms as int),
        "- Observed-use window: "@ + window_words(r.now_ms, r.since_ms),
        "- Completeness: "@ + completeness_words(r.completeness),
        ""@,
    ];
    assert(inventory_lines(r, host) == head + servers + skills + scope);
    if shows_under(servers, heading, below, row) {
        lemma_shown_in_whole(head, servers, skills + scope, heading, below, row);
        lemma_tail2(head + servers, skills, scope);
    }
    if shows_under(skills, heading, below, row) {
        lemma_shown_in_whole(head + servers, skills, scope, heading, below, row);
    }
}

} // verus!
