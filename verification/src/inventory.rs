//! What is configured, against what was used: MCP servers and skills.
//!
//! What is configured is a snapshot that was read now, and no recorded event.
//! What was used is what tool calls show. The two are told side by side, with
//! their differences, as facts. Of a configuration only the names are kept, never
//! the values.
use vstd::prelude::*;

use crate::doc::{add_lines, line, lines_text, no_lines, own_line, render_lines};
use crate::event::{event_views, AgentEvent, EventKind, EventV};
use crate::host::{Host, HostV};
use crate::json::{Json, JsonV};
use crate::named::{
    find_name, lemma_found_iff, lemma_insert_ordered, lemma_name_rank, name_found, name_rank,
    names_in, names_ordered, Named,
};
use crate::num::{decimal, decimal_usize};
use crate::order::{
    lemma_sorted_map, own_order, sort, sorted_by, sorted_by_sorts, text_less, text_lt,
    text_lt_total, text_lt_transitive, Ordered,
};
use crate::outside::{error_text, parse_bytes, parsed_bytes, slice_failure};
use crate::project::lemma_first_at_unique;
use crate::selector::{recorded_views, RecordedSession, RecordedV};
use crate::split::{join, joined};
use crate::store::sort_names;
use crate::text::{
    begins, chars_of, find, first_at, has_text, list_has, same, strip_prefix, substring, views,
};
use crate::timefmt::{format_utc, utc_text};

verus! {

/// Where something is configured.
#[derive(Debug, Clone, Copy, PartialEq, Eq, Structural)]
pub enum ConfiguredSource {
    /// The servers of the user.
    McpUserGlobal,
    /// The servers of the user for this project.
    McpUserProject,
    /// The servers of the project file.
    McpProjectFile,
    /// The skills of the user.
    SkillsUser,
    /// The skills of the project.
    SkillsProject,
}

impl ConfiguredSource {
    /// The source in words.
    pub open spec fn spec_label(self, host: HostV) -> Seq<char> {
        match self {
            ConfiguredSource::McpUserGlobal => "~/"@ + host.servers_file()
                + " .mcpServers (user-global)"@,
            ConfiguredSource::McpUserProject => "~/"@ + host.servers_file()
                + " .projects[cwd].mcpServers (user, this project)"@,
            ConfiguredSource::McpProjectFile => "./.mcp.json .mcpServers (project file)"@,
            ConfiguredSource::SkillsUser => "~/"@ + host.dir + "/skills/*/ (user)"@,
            ConfiguredSource::SkillsProject => "./"@ + host.dir + "/skills/*/ (project)"@,
        }
    }

    /// The source in words.
    pub fn label(self, host: &Host) -> (r: String)
        ensures
            r@ == self.spec_label(host@),
    {
        match self {
            ConfiguredSource::McpUserGlobal => "~/".to_owned().concat(
                host.servers_file().as_str(),
            ).concat(" .mcpServers (user-global)"),
            ConfiguredSource::McpUserProject => "~/".to_owned().concat(
                host.servers_file().as_str(),
            ).concat(" .projects[cwd].mcpServers (user, this project)"),
            ConfiguredSource::McpProjectFile =>
                "./.mcp.json .mcpServers (project file)".to_owned(),
            ConfiguredSource::SkillsUser => "~/".to_owned().concat(host.dir.as_str()).concat(
                "/skills/*/ (user)",
            ),
            ConfiguredSource::SkillsProject => "./".to_owned().concat(host.dir.as_str()).concat(
                "/skills/*/ (project)",
            ),
        }
    }
}

/// How the reading of a source went.
#[derive(Debug, Clone, PartialEq, Eq)]
pub enum SourceStatus {
    /// It was read.
    Read {
        /// The number of names.
        count: usize,
    },
    /// It is not there, which is no error.
    Missing,
    /// It could not be read.
    Unreadable {
        /// Why.
        reason: String,
    },
    /// It is no JSON.
    ParseFailed {
        /// Why.
        reason: String,
    },
}

/// The contents of a [`SourceStatus`].
pub ghost enum StatusV {
    Read { count: int },
    Missing,
    Unreadable { reason: Seq<char> },
    ParseFailed { reason: Seq<char> },
}

impl View for SourceStatus {
    type V = StatusV;

    open spec fn view(&self) -> StatusV {
        match *self {
            SourceStatus::Read { count } => StatusV::Read { count: count as int },
            SourceStatus::Missing => StatusV::Missing,
            SourceStatus::Unreadable { reason } => StatusV::Unreadable { reason: reason@ },
            SourceStatus::ParseFailed { reason } => StatusV::ParseFailed { reason: reason@ },
        }
    }
}

impl StatusV {
    /// Whether the source is there but could not be taken up.
    pub open spec fn broken(self) -> bool {
        self is Unreadable || self is ParseFailed
    }
}

impl SourceStatus {
    /// Tells whether the source is there but could not be taken up.
    pub fn is_broken(&self) -> (r: bool)
        ensures
            r == self@.broken(),
    {
        match self {
            SourceStatus::Unreadable { .. } => true,
            SourceStatus::ParseFailed { .. } => true,
            _ => false,
        }
    }

    fn copy(&self) -> (r: SourceStatus)
        ensures
            r@ == self@,
    {
        match self {
            SourceStatus::Read { count } => SourceStatus::Read { count: *count },
            SourceStatus::Missing => SourceStatus::Missing,
            SourceStatus::Unreadable { reason } => SourceStatus::Unreadable {
                reason: reason.clone(),
            },
            SourceStatus::ParseFailed { reason } => SourceStatus::ParseFailed {
                reason: reason.clone(),
            },
        }
    }
}

/// What one source holds: names, and nothing else.
#[derive(Debug, Clone, PartialEq, Eq)]
pub struct SourceRead {
    /// The source.
    pub source: ConfiguredSource,
    /// How the reading went.
    pub status: SourceStatus,
    /// The names, in order; none unless the source was read.
    pub names: Vec<String>,
}

/// The contents of a [`SourceRead`].
pub ghost struct SourceV {
    pub source: ConfiguredSource,
    pub status: StatusV,
    pub names: Seq<Seq<char>>,
}

impl View for SourceRead {
    type V = SourceV;

    open spec fn view(&self) -> SourceV {
        SourceV { source: self.source, status: self.status@, names: views(self.names@) }
    }
}

/// The contents of a list of sources.
pub open spec fn source_views(v: Seq<SourceRead>) -> Seq<SourceV> {
    Seq::new(v.len(), |i: int| v[i]@)
}

// ---------------------------------------------------------------------------
// Reading what is configured
// ---------------------------------------------------------------------------

/// What came of reading a file.
#[derive(Debug)]
pub enum FileRead {
    /// Its bytes.
    Bytes(Vec<u8>),
    /// There is no such file.
    Missing,
    /// It could not be read, for a reason.
    Failed(String),
}

/// One entry of a directory.
#[derive(Debug)]
pub enum DirEntry {
    /// An entry, by its name where that is text, and whether it holds the file of a
    /// skill.
    Named(Option<String>, bool),
    /// The entry could not be read, for a reason.
    Failed(String),
}

/// What came of listing a directory.
#[derive(Debug)]
pub enum DirRead {
    /// Its entries.
    Entries(Vec<DirEntry>),
    /// There is no such directory.
    Missing,
    /// It could not be read, for a reason.
    Failed(String),
}

/// A source that was not read.
pub open spec fn unread(source: ConfiguredSource, status: StatusV) -> SourceV {
    SourceV { source, status, names: Seq::<Seq<char>>::empty() }
}

/// A source that was read.
pub open spec fn read_with(source: ConfiguredSource, names: Seq<Seq<char>>) -> SourceV {
    SourceV { source, status: StatusV::Read { count: names.len() as int }, names }
}

/// The names of members.
pub open spec fn member_names(m: Seq<(Seq<char>, JsonV)>) -> Seq<Seq<char>> {
    Seq::new(m.len(), |i: int| m[i].0)
}

/// Names in the order of strings.
pub open spec fn sorted_names(names: Seq<Seq<char>>) -> Seq<Seq<char>> {
    sorted_by(names, |a: Seq<char>, b: Seq<char>| text_lt(a, b))
}

/// The names of the servers of a section; none where it is no object.
pub open spec fn server_names(section: Option<JsonV>) -> Seq<Seq<char>> {
    match section {
        Some(JsonV::Object(m)) => sorted_names(member_names(m)),
        _ => Seq::<Seq<char>>::empty(),
    }
}

/// The section of the project `cwd` in the configuration of the user.
pub open spec fn project_section(v: JsonV, cwd: Seq<char>) -> Option<JsonV> {
    match v.get("projects"@) {
        Some(projects) => match projects.get(cwd) {
            Some(project) => project.get("mcpServers"@),
            None => None,
        },
        None => None,
    }
}

/// Why a file gives no JSON, if it gives none.
pub open spec fn file_status(f: FileRead) -> Option<StatusV> {
    match f {
        FileRead::Missing => Some(StatusV::Missing),
        FileRead::Failed(reason) => Some(StatusV::Unreadable { reason: reason@ }),
        FileRead::Bytes(b) => if parsed_bytes(b@) is None {
            Some(StatusV::ParseFailed { reason: slice_failure(b@) })
        } else {
            None
        },
    }
}

/// The JSON of a file.
pub open spec fn file_json(f: FileRead) -> JsonV {
    parsed_bytes(f->Bytes_0@)->0
}

/// The servers of the user.
pub open spec fn user_servers(f: FileRead) -> SourceV {
    match file_status(f) {
        Some(status) => unread(ConfiguredSource::McpUserGlobal, status),
        None => read_with(
            ConfiguredSource::McpUserGlobal,
            server_names(file_json(f).get("mcpServers"@)),
        ),
    }
}

/// The servers of the user for a project.
pub open spec fn user_project_servers(f: FileRead, cwd: Seq<char>) -> SourceV {
    match file_status(f) {
        Some(status) => unread(ConfiguredSource::McpUserProject, status),
        None => read_with(
            ConfiguredSource::McpUserProject,
            server_names(project_section(file_json(f), cwd)),
        ),
    }
}

/// The servers of the project file.
pub open spec fn project_servers(f: FileRead) -> SourceV {
    match file_status(f) {
        Some(status) => unread(ConfiguredSource::McpProjectFile, status),
        None => read_with(
            ConfiguredSource::McpProjectFile,
            server_names(file_json(f).get("mcpServers"@)),
        ),
    }
}

/// Why the first entry that could not be read could not, if there is one.
pub open spec fn first_failure(es: Seq<DirEntry>) -> Option<Seq<char>>
    decreases es.len(),
{
    if es.len() == 0 {
        None
    } else {
        match es[0] {
            DirEntry::Failed(reason) => Some(reason@),
            DirEntry::Named(_, _) => first_failure(es.skip(1)),
        }
    }
}

/// The names of the entries that hold the file of a skill.
pub open spec fn skill_names(es: Seq<DirEntry>) -> Seq<Seq<char>>
    decreases es.len(),
{
    if es.len() == 0 {
        Seq::<Seq<char>>::empty()
    } else {
        let before = skill_names(es.drop_last());
        match es.last() {
            DirEntry::Named(Some(name), true) => before.push(name@),
            _ => before,
        }
    }
}

/// The skills of a directory. One entry that cannot be read makes the whole
/// unreadable: nothing is told short.
pub open spec fn skills_in(source: ConfiguredSource, d: DirRead) -> SourceV {
    match d {
        DirRead::Missing => unread(source, StatusV::Missing),
        DirRead::Failed(reason) => unread(source, StatusV::Unreadable { reason: reason@ }),
        DirRead::Entries(es) => match first_failure(es@) {
            Some(reason) => unread(source, StatusV::Unreadable { reason }),
            None => read_with(source, sorted_names(skill_names(es@))),
        },
    }
}

fn status_only(source: ConfiguredSource, status: SourceStatus) -> (r: SourceRead)
    ensures
        r@ == unread(source, status@),
{
    let r = SourceRead { source, status, names: Vec::new() };
    proof {
        assert(r@.names =~= Seq::<Seq<char>>::empty());
    }
    r
}

fn read_source(source: ConfiguredSource, names: Vec<String>) -> (r: SourceRead)
    ensures
        r@ == read_with(source, views(names@)),
{
    SourceRead { source, status: SourceStatus::Read { count: names.len() }, names }
}

fn mcp_server_keys(section: Option<&Json>) -> (out: Vec<String>)
    ensures
        views(out@) == server_names(crate::json::opt_json(section)),
{
    broadcast use crate::json::lemma_json_view;

    match section {
        Some(Json::Object(m)) => {
            let mut names: Vec<String> = Vec::new();
            for i in 0..m.len()
                invariant
                    names@.len() == i,
                    forall|k: int| 0 <= k < i ==> (#[trigger] names@[k])@ == m@[k].0@,
            {
                names.push(m[i].0.clone());
            }
            proof {
                assert(views(names@) =~= member_names(crate::json::members_view(m@)));
            }
            sort_names(names)
        },
        _ => {
            let out: Vec<String> = Vec::new();
            proof {
                assert(views(out@) =~= Seq::<Seq<char>>::empty());
            }
            out
        },
    }
}

fn read_json(f: &FileRead) -> (r: Result<Json, SourceStatus>)
    ensures
        match r {
            Ok(j) => file_status(*f) is None && file_json(*f) == j@,
            Err(s) => file_status(*f) == Some(s@),
        },
{
    match f {
        FileRead::Missing => Err(SourceStatus::Missing),
        FileRead::Failed(reason) => Err(SourceStatus::Unreadable { reason: reason.clone() }),
        FileRead::Bytes(b) => match parse_bytes(b.as_slice()) {
            Ok(j) => Ok(j),
            Err(e) => Err(SourceStatus::ParseFailed { reason: error_text(&e) }),
        },
    }
}

/// Takes the servers of the user, and those for the project `cwd_key`, from one
/// file. Where that gives no JSON, neither source was read.
pub fn read_claude_json_mcp(f: &FileRead, cwd_key: &str) -> (r: (SourceRead, SourceRead))
    ensures
        r.0@ == user_servers(*f),
        r.1@ == user_project_servers(*f, cwd_key@),
{
    let v = match read_json(f) {
        Ok(v) => v,
        Err(status) => {
            let again = status.copy();
            return (
                status_only(ConfiguredSource::McpUserGlobal, status),
                status_only(ConfiguredSource::McpUserProject, again),
            );
        },
    };
    let section = match v.get("projects") {
        Some(projects) => match projects.get(cwd_key) {
            Some(project) => project.get("mcpServers"),
            None => None,
        },
        None => None,
    };
    (
        read_source(ConfiguredSource::McpUserGlobal, mcp_server_keys(v.get("mcpServers"))),
        read_source(ConfiguredSource::McpUserProject, mcp_server_keys(section)),
    )
}

/// Takes the servers of the project file.
pub fn read_mcp_json(f: &FileRead) -> (r: SourceRead)
    ensures
        r@ == project_servers(*f),
{
    match read_json(f) {
        Ok(v) => read_source(
            ConfiguredSource::McpProjectFile,
            mcp_server_keys(v.get("mcpServers")),
        ),
        Err(status) => status_only(ConfiguredSource::McpProjectFile, status),
    }
}

/// Takes the skills of a directory.
pub fn read_skills_source(source: ConfiguredSource, d: &DirRead) -> (r: SourceRead)
    ensures
        r@ == skills_in(source, *d),
{
    let es = match d {
        DirRead::Missing => {
            return status_only(source, SourceStatus::Missing);
        },
        DirRead::Failed(reason) => {
            return status_only(source, SourceStatus::Unreadable { reason: reason.clone() });
        },
        DirRead::Entries(es) => es,
    };
    let mut names: Vec<String> = Vec::new();
    proof {
        assert(views(names@) =~= skill_names(es@.take(0)));
        assert(es@.skip(0) =~= es@);
    }
    for i in 0..es.len()
        invariant
            *d == DirRead::Entries(*es),
            views(names@) == skill_names(es@.take(i as int)),
            first_failure(es@) == first_failure(es@.skip(i as int)),
    {
        proof {
            assert(es@.take(i + 1).drop_last() =~= es@.take(i as int));
            assert(es@.skip(i as int).skip(1) =~= es@.skip(i + 1));
            assert(es@.skip(i as int)[0] == es@[i as int]);
        }
        let ghost n0 = views(names@);
        match &es[i] {
            DirEntry::Failed(reason) => {
                return status_only(source, SourceStatus::Unreadable { reason: reason.clone() });
            },
            DirEntry::Named(Some(name), true) => {
                names.push(name.clone());
                proof {
                    assert(views(names@) =~= n0.push(name@));
                }
            },
            DirEntry::Named(_, _) => {},
        }
    }
    proof {
        assert(es@.take(es@.len() as int) =~= es@);
    }
    read_source(source, sort_names(names))
}

/// Takes the three sources of servers.
pub fn read_configured_mcp(claude_json: &FileRead, mcp_json: &FileRead, cwd: &str) -> (out: Vec<
    SourceRead,
>)
    ensures
        source_views(out@) == seq![
            user_servers(*claude_json),
            user_project_servers(*claude_json, cwd@),
            project_servers(*mcp_json),
        ],
{
    let (global, project): (SourceRead, SourceRead) = read_claude_json_mcp(claude_json, cwd);
    let out: Vec<SourceRead> = vec![global, project, read_mcp_json(mcp_json)];
    proof {
        assert(source_views(out@) =~= seq![
            user_servers(*claude_json),
            user_project_servers(*claude_json, cwd@),
            project_servers(*mcp_json),
        ]);
    }
    out
}

/// Takes the two sources of skills.
pub fn read_configured_skills(user: &DirRead, project: &DirRead) -> (out: Vec<SourceRead>)
    ensures
        source_views(out@) == seq![
            skills_in(ConfiguredSource::SkillsUser, *user),
            skills_in(ConfiguredSource::SkillsProject, *project),
        ],
{
    let out: Vec<SourceRead> = vec![
        read_skills_source(ConfiguredSource::SkillsUser, user),
        read_skills_source(ConfiguredSource::SkillsProject, project),
    ];
    proof {
        assert(source_views(out@) =~= seq![
            skills_in(ConfiguredSource::SkillsUser, *user),
            skills_in(ConfiguredSource::SkillsProject, *project),
        ]);
    }
    out
}

// ---------------------------------------------------------------------------
// Collecting what was used
// ---------------------------------------------------------------------------

/// One use of a server or a skill.
#[derive(Debug, Clone, PartialEq, Eq)]
pub struct UsedObservation {
    /// The name.
    pub name: String,
    /// The time.
    pub ts_ms: i64,
}

/// The contents of a [`UsedObservation`].
pub ghost struct ObservationV {
    pub name: Seq<char>,
    pub ts_ms: i64,
}

impl View for UsedObservation {
    type V = ObservationV;

    open spec fn view(&self) -> ObservationV {
        ObservationV { name: self.name@, ts_ms: self.ts_ms }
    }
}

/// The contents of a list of uses.
pub open spec fn observation_views(v: Seq<UsedObservation>) -> Seq<ObservationV> {
    Seq::new(v.len(), |i: int| v[i]@)
}

/// What stands in `s` ahead of the first `sep`.
pub open spec fn ahead_of(s: Seq<char>, sep: Seq<char>) -> Option<Seq<char>> {
    if has_text(s, sep) {
        Some(s.take(choose|k: int| first_at(s, sep, k)))
    } else {
        None
    }
}

/// The server that a tool belongs to: what stands between the prefix and the
/// first double low line behind it, if that is anything.
pub open spec fn server_of(tool: Seq<char>) -> Option<Seq<char>> {
    if begins(tool, "mcp__"@) {
        match ahead_of(tool.skip("mcp__"@.len() as int), "__"@) {
            Some(server) => if server.len() > 0 {
                Some(server)
            } else {
                None
            },
            None => None,
        }
    } else {
        None
    }
}

/// Tells the server that a tool belongs to.
pub fn mcp_server_from_tool(tool_name: &str) -> (r: Option<String>)
    ensures
        crate::text::opt_view(r) == server_of(tool_name@),
{
    let rest = match strip_prefix(tool_name, "mcp__") {
        Some(rest) => rest,
        None => {
            return None;
        },
    };
    let v = chars_of(rest.as_str());
    let sep = chars_of("__");
    match find(&v, &sep) {
        Some(k) => {
            proof {
                lemma_first_at_unique(rest@, "__"@, k as int);
            }
            let server = substring(&v, 0, k);
            proof {
                assert(server@ =~= rest@.take(k as int));
            }
            if k > 0 {
                Some(server)
            } else {
                None
            }
        },
        None => None,
    }
}

/// The server that an event uses.
pub open spec fn server_used(e: EventV) -> Option<Seq<char>> {
    match e.text("tool_name"@) {
        Some(tool) => if e.kind == EventKind::ToolCall {
            server_of(tool)
        } else {
            None
        },
        None => None,
    }
}

/// The skill that an event uses.
pub open spec fn skill_used(e: EventV) -> Option<Seq<char>> {
    if e.kind == EventKind::ToolCall && e.text("tool_name"@) == Some("Skill"@) && server_used(
        e,
    ) is None {
        e.input("skill"@)
    } else {
        None
    }
}

/// The uses with that of one more event, if it is one.
pub open spec fn with_observation(
    uses: Seq<ObservationV>,
    name: Option<Seq<char>>,
    ts_ms: i64,
) -> Seq<ObservationV> {
    match name {
        Some(name) => uses.push(ObservationV { name, ts_ms }),
        None => uses,
    }
}

/// The uses of servers and of skills in events.
pub open spec fn uses_in(es: Seq<EventV>) -> (Seq<ObservationV>, Seq<ObservationV>)
    decreases es.len(),
{
    if es.len() == 0 {
        (Seq::<ObservationV>::empty(), Seq::<ObservationV>::empty())
    } else {
        let (servers, skills) = uses_in(es.drop_last());
        let e = es.last();
        (
            with_observation(servers, server_used(e), e.ts),
            with_observation(skills, skill_used(e), e.ts),
        )
    }
}

/// The uses of servers and of skills in recorded sessions.
pub open spec fn uses_of(rs: Seq<RecordedV>) -> (Seq<ObservationV>, Seq<ObservationV>)
    decreases rs.len(),
{
    if rs.len() == 0 {
        (Seq::<ObservationV>::empty(), Seq::<ObservationV>::empty())
    } else {
        let before = uses_of(rs.drop_last());
        let last = uses_in(rs.last().events);
        (before.0 + last.0, before.1 + last.1)
    }
}

fn add_observation(uses: &mut Vec<UsedObservation>, name: &str, ts_ms: i64)
    ensures
        observation_views(final(uses)@) == observation_views(old(uses)@).push(
            ObservationV { name: name@, ts_ms },
        ),
{
    let ghost u0 = observation_views(uses@);
    uses.push(UsedObservation { name: name.to_owned(), ts_ms });
    proof {
        assert(observation_views(uses@) =~= u0.push(ObservationV { name: name@, ts_ms }));
    }
}

fn collect_from(
    events: &Vec<AgentEvent>,
    servers: &mut Vec<UsedObservation>,
    skills: &mut Vec<UsedObservation>,
)
    ensures
        observation_views(final(servers)@) == observation_views(old(servers)@) + uses_in(
            event_views(events@),
        ).0,
        observation_views(final(skills)@) == observation_views(old(skills)@) + uses_in(
            event_views(events@),
        ).1,
{
    let ghost ev = event_views(events@);
    let ghost a0 = observation_views(servers@);
    let ghost b0 = observation_views(skills@);
    proof {
        assert(a0 + uses_in(ev.take(0)).0 =~= a0);
        assert(b0 + uses_in(ev.take(0)).1 =~= b0);
    }
    for i in 0..events.len()
        invariant
            ev == event_views(events@),
            observation_views(servers@) == a0 + uses_in(ev.take(i as int)).0,
            observation_views(skills@) == b0 + uses_in(ev.take(i as int)).1,
    {
        proof {
            assert(ev.take(i + 1).drop_last() =~= ev.take(i as int));
            assert(ev.take(i + 1).last() == events@[i as int]@);
        }
        let e = &events[i];
        let ghost before = uses_in(ev.take(i as int));
        match (e.kind, e.str_field("tool_name")) {
            (EventKind::ToolCall, Some(tool)) => {
                match mcp_server_from_tool(tool) {
                    Some(server) => {
                        add_observation(servers, server.as_str(), e.ts);
                    },
                    None => {
                        if same(tool, "Skill") {
                            match e.tool_input_str("skill") {
                                Some(skill) => {
                                    add_observation(skills, skill, e.ts);
                                },
                                None => {},
                            }
                        }
                    },
                }
            },
            _ => {},
        }
        proof {
            assert(observation_views(servers@) =~= a0 + uses_in(ev.take(i + 1)).0);
            assert(observation_views(skills@) =~= b0 + uses_in(ev.take(i + 1)).1);
        }
    }
    proof {
        assert(ev.take(ev.len() as int) =~= ev);
    }
}

/// Collects the uses of servers and of skills in recorded sessions.
pub fn collect_used(sessions: &[RecordedSession]) -> (r: (
    Vec<UsedObservation>,
    Vec<UsedObservation>,
))
    ensures
        observation_views(r.0@) == uses_of(recorded_views(sessions@)).0,
        observation_views(r.1@) == uses_of(recorded_views(sessions@)).1,
{
    let ghost rv = recorded_views(sessions@);
    let mut servers: Vec<UsedObservation> = Vec::new();
    let mut skills: Vec<UsedObservation> = Vec::new();
    proof {
        assert(observation_views(servers@) =~= uses_of(rv.take(0)).0);
        assert(observation_views(skills@) =~= uses_of(rv.take(0)).1);
    }
    for i in 0..sessions.len()
        invariant
            rv == recorded_views(sessions@),
            observation_views(servers@) == uses_of(rv.take(i as int)).0,
            observation_views(skills@) == uses_of(rv.take(i as int)).1,
    {
        proof {
            assert(rv.take(i + 1).drop_last() =~= rv.take(i as int));
            assert(rv.take(i + 1).last() == sessions@[i as int]@);
        }
        collect_from(&sessions[i].events, &mut servers, &mut skills);
    }
    proof {
        assert(rv.take(rv.len() as int) =~= rv);
    }
    (servers, skills)
}

// ---------------------------------------------------------------------------
// The report
// ---------------------------------------------------------------------------

/// Something configured, and where.
#[derive(Debug, Clone, PartialEq, Eq)]
pub struct ConfiguredItem {
    /// The name.
    pub name: String,
    /// The sources, in the order in which they were read.
    pub sources: Vec<ConfiguredSource>,
}

/// The contents of a [`ConfiguredItem`].
pub ghost struct ItemV {
    pub name: Seq<char>,
    pub sources: Seq<ConfiguredSource>,
}

impl View for ConfiguredItem {
    type V = ItemV;

    open spec fn view(&self) -> ItemV {
        ItemV { name: self.name@, sources: self.sources@ }
    }
}

impl Named for ConfiguredItem {
    open spec fn key(self) -> Seq<char> {
        self.name@
    }

    fn key_text(&self) -> (r: &str) {
        self.name.as_str()
    }
}

/// The contents of a list of configured items.
pub open spec fn item_views(v: Seq<ConfiguredItem>) -> Seq<ItemV> {
    Seq::new(v.len(), |i: int| v[i]@)
}

/// The names of configured items.
pub open spec fn item_names(v: Seq<ItemV>) -> Seq<Seq<char>> {
    Seq::new(v.len(), |i: int| v[i].name)
}

/// Something used, with its calls.
#[derive(Debug, Clone, PartialEq, Eq)]
pub struct UsedItem {
    /// The name.
    pub name: String,
    /// The number of calls.
    pub call_count: usize,
    /// The time of the latest call.
    pub last_used_ms: i64,
}

/// The contents of a [`UsedItem`].
pub ghost struct UsedV {
    pub name: Seq<char>,
    pub call_count: int,
    pub last_used_ms: i64,
}

impl View for UsedItem {
    type V = UsedV;

    open spec fn view(&self) -> UsedV {
        UsedV {
            name: self.name@,
            call_count: self.call_count as int,
            last_used_ms: self.last_used_ms,
        }
    }
}

impl Named for UsedItem {
    open spec fn key(self) -> Seq<char> {
        self.name@
    }

    fn key_text(&self) -> (r: &str) {
        self.name.as_str()
    }
}

/// The contents of a list of used items.
pub open spec fn used_views(v: Seq<UsedItem>) -> Seq<UsedV> {
    Seq::new(v.len(), |i: int| v[i]@)
}

/// The names of used items.
pub open spec fn used_names(v: Seq<UsedV>) -> Seq<Seq<char>> {
    Seq::new(v.len(), |i: int| v[i].name)
}

/// The configured items with one more name of a source.
pub open spec fn with_configured(
    items: Seq<ItemV>,
    name: Seq<char>,
    source: ConfiguredSource,
) -> Seq<ItemV> {
    let k = name_rank(item_names(items), name);
    if !name_found(item_names(items), name) {
        items.insert(k, ItemV { name, sources: seq![source] })
    } else if items[k].sources.contains(source) {
        items
    } else {
        items.update(k, ItemV { name, sources: items[k].sources.push(source) })
    }
}

/// The configured items with the names of a source.
pub open spec fn with_source(
    items: Seq<ItemV>,
    names: Seq<Seq<char>>,
    source: ConfiguredSource,
) -> Seq<ItemV>
    decreases names.len(),
{
    if names.len() == 0 {
        items
    } else {
        with_configured(with_source(items, names.drop_last(), source), names.last(), source)
    }
}

/// The items that sources configure, in the order of their names.
pub open spec fn configured_of(ss: Seq<SourceV>) -> Seq<ItemV>
    decreases ss.len(),
{
    if ss.len() == 0 {
        Seq::<ItemV>::empty()
    } else {
        with_source(configured_of(ss.drop_last()), ss.last().names, ss.last().source)
    }
}

/// The used items with one more use.
pub open spec fn with_use(items: Seq<UsedV>, o: ObservationV) -> Seq<UsedV> {
    let k = name_rank(used_names(items), o.name);
    if name_found(used_names(items), o.name) {
        items.update(
            k,
            UsedV {
                name: o.name,
                call_count: items[k].call_count + 1,
                last_used_ms: if items[k].last_used_ms < o.ts_ms {
                    o.ts_ms
                } else {
                    items[k].last_used_ms
                },
            },
        )
    } else {
        items.insert(k, UsedV { name: o.name, call_count: 1, last_used_ms: o.ts_ms })
    }
}

/// Whether a use is in the window.
pub open spec fn use_in_window(o: ObservationV, since_ms: Option<i64>) -> bool {
    match since_ms {
        Some(since) => o.ts_ms >= since,
        None => true,
    }
}

/// The items used in the window, in the order of their names.
pub open spec fn used_of(os: Seq<ObservationV>, since_ms: Option<i64>) -> Seq<UsedV>
    decreases os.len(),
{
    if os.len() == 0 {
        Seq::<UsedV>::empty()
    } else {
        let before = used_of(os.drop_last(), since_ms);
        if use_in_window(os.last(), since_ms) {
            with_use(before, os.last())
        } else {
            before
        }
    }
}

/// Whether `a` stands before `b`: the one with more calls first, then by name.
pub open spec fn more_used(a: UsedV, b: UsedV) -> bool {
    a.call_count > b.call_count || (a.call_count == b.call_count && text_lt(a.name, b.name))
}

/// The used items, the most used first.
pub open spec fn by_use(items: Seq<UsedV>) -> Seq<UsedV> {
    sorted_by(items, |a: UsedV, b: UsedV| more_used(a, b))
}

/// The configured items whose names are none of `names`.
pub open spec fn items_without(items: Seq<ItemV>, names: Seq<Seq<char>>) -> Seq<ItemV>
    decreases items.len(),
{
    if items.len() == 0 {
        items
    } else if names.contains(items.last().name) {
        items_without(items.drop_last(), names)
    } else {
        items_without(items.drop_last(), names).push(items.last())
    }
}

/// The used items whose names are none of `names`.
pub open spec fn used_without(items: Seq<UsedV>, names: Seq<Seq<char>>) -> Seq<UsedV>
    decreases items.len(),
{
    if items.len() == 0 {
        items
    } else if names.contains(items.last().name) {
        used_without(items.drop_last(), names)
    } else {
        used_without(items.drop_last(), names).push(items.last())
    }
}

/// What is configured and what was used, of one category.
#[derive(Debug, PartialEq, Eq)]
pub struct CategoryReport {
    /// How each source was read.
    pub sources: Vec<SourceRead>,
    /// What is configured, in the order of the names.
    pub configured: Vec<ConfiguredItem>,
    /// What was used in the window, the most used first.
    pub used: Vec<UsedItem>,
    /// What is configured and was not used.
    pub configured_not_used: Vec<ConfiguredItem>,
    /// What was used and is not configured.
    pub used_not_configured: Vec<UsedItem>,
}

/// The contents of a [`CategoryReport`].
pub ghost struct CategoryV {
    pub sources: Seq<SourceV>,
    pub configured: Seq<ItemV>,
    pub used: Seq<UsedV>,
    pub configured_not_used: Seq<ItemV>,
    pub used_not_configured: Seq<UsedV>,
}

impl View for CategoryReport {
    type V = CategoryV;

    open spec fn view(&self) -> CategoryV {
        CategoryV {
            sources: source_views(self.sources@),
            configured: item_views(self.configured@),
            used: used_views(self.used@),
            configured_not_used: item_views(self.configured_not_used@),
            used_not_configured: used_views(self.used_not_configured@),
        }
    }
}

/// The report of a category.
pub open spec fn category_of(
    ss: Seq<SourceV>,
    os: Seq<ObservationV>,
    since_ms: Option<i64>,
) -> CategoryV {
    let configured = configured_of(ss);
    let used = by_use(used_of(os, since_ms));
    CategoryV {
        sources: ss,
        configured,
        used,
        configured_not_used: items_without(configured, used_names(used)),
        used_not_configured: used_without(used, item_names(configured)),
    }
}

/// Whether every source was taken up.
#[derive(Debug, Clone, Copy, PartialEq, Eq, Structural)]
pub enum Completeness {
    /// Every source was read, or is not there.
    Complete,
    /// A source could not be read or is no JSON, so something may be missing.
    Partial,
}

/// The report.
#[derive(Debug, PartialEq, Eq)]
pub struct InventoryReport {
    /// When the configuration was read.
    pub now_ms: i64,
    /// The lower bound of the window, or none for all history.
    pub since_ms: Option<i64>,
    /// Whether every source was taken up.
    pub completeness: Completeness,
    /// The servers.
    pub mcp: CategoryReport,
    /// The skills.
    pub skills: CategoryReport,
}

/// The contents of an [`InventoryReport`].
pub ghost struct InventoryV {
    pub now_ms: i64,
    pub since_ms: Option<i64>,
    pub completeness: Completeness,
    pub mcp: CategoryV,
    pub skills: CategoryV,
}

impl View for InventoryReport {
    type V = InventoryV;

    open spec fn view(&self) -> InventoryV {
        InventoryV {
            now_ms: self.now_ms,
            since_ms: self.since_ms,
            completeness: self.completeness,
            mcp: self.mcp@,
            skills: self.skills@,
        }
    }
}

/// Whether no source is broken.
pub open spec fn all_taken_up(ss: Seq<SourceV>) -> bool {
    forall|i: int| 0 <= i < ss.len() ==> !(#[trigger] ss[i]).status.broken()
}

/// The inventory of what was read.
pub open spec fn inventory_of(
    mcp: Seq<SourceV>,
    skills: Seq<SourceV>,
    used_mcp: Seq<ObservationV>,
    used_skills: Seq<ObservationV>,
    now_ms: i64,
    since_ms: Option<i64>,
) -> InventoryV {
    InventoryV {
        now_ms,
        since_ms,
        completeness: if all_taken_up(mcp) && all_taken_up(skills) {
            Completeness::Complete
        } else {
            Completeness::Partial
        },
        mcp: category_of(mcp, used_mcp, since_ms),
        skills: category_of(skills, used_skills, since_ms),
    }
}

fn has_source(v: &Vec<ConfiguredSource>, s: ConfiguredSource) -> (r: bool)
    ensures
        r == v@.contains(s),
{
    for i in 0..v.len()
        invariant
            forall|k: int| 0 <= k < i ==> (#[trigger] v@[k]) != s,
    {
        if v[i] == s {
            return true;
        }
    }
    false
}

fn copy_sources(v: &Vec<ConfiguredSource>) -> (out: Vec<ConfiguredSource>)
    ensures
        out@ == v@,
{
    let mut out: Vec<ConfiguredSource> = Vec::new();
    for i in 0..v.len()
        invariant
            out@ == v@.take(i as int),
    {
        out.push(v[i]);
        proof {
            assert(out@ =~= v@.take(i + 1));
        }
    }
    proof {
        assert(v@.take(v@.len() as int) =~= v@);
    }
    out
}

fn add_configured(items: &mut Vec<ConfiguredItem>, name: &str, source: ConfiguredSource)
    ensures
        item_views(final(items)@) == with_configured(item_views(old(items)@), name@, source),
{
    let ghost all = item_views(items@);
    proof {
        assert(names_in(items@) =~= item_names(all));
        lemma_name_rank(item_names(all), name@);
    }
    let (k, found): (usize, bool) = find_name(items, name);
    if !found {
        let sources: Vec<ConfiguredSource> = vec![source];
        let item = ConfiguredItem { name: name.to_owned(), sources };
        let ghost iv = item@;
        items.insert(k, item);
        proof {
            assert(iv.sources =~= seq![source]);
            assert(item_views(items@) =~= all.insert(k as int, iv));
        }
    } else if !has_source(&items[k].sources, source) {
        let mut sources = copy_sources(&items[k].sources);
        sources.push(source);
        let item = ConfiguredItem { name: name.to_owned(), sources };
        let ghost iv = item@;
        items.set(k, item);
        proof {
            assert(item_views(items@) =~= all.update(k as int, iv));
        }
    }
}

fn union_configured(ss: &Vec<SourceRead>) -> (out: Vec<ConfiguredItem>)
    ensures
        item_views(out@) == configured_of(source_views(ss@)),
{
    let ghost sv = source_views(ss@);
    let mut out: Vec<ConfiguredItem> = Vec::new();
    proof {
        assert(item_views(out@) =~= configured_of(sv.take(0)));
    }
    for i in 0..ss.len()
        invariant
            sv == source_views(ss@),
            item_views(out@) == configured_of(sv.take(i as int)),
    {
        proof {
            assert(sv.take(i + 1).drop_last() =~= sv.take(i as int));
            assert(sv.take(i + 1).last() == ss@[i as int]@);
        }
        let s = &ss[i];
        let ghost nv = views(s.names@);
        let ghost before = item_views(out@);
        for j in 0..s.names.len()
            invariant
                nv == views(s.names@),
                item_views(out@) == with_source(before, nv.take(j as int), s.source),
        {
            proof {
                assert(nv.take(j + 1).drop_last() =~= nv.take(j as int));
                assert(nv.take(j + 1).last() == s.names@[j as int]@);
            }
            add_configured(&mut out, s.names[j].as_str(), s.source);
        }
        proof {
            assert(nv.take(nv.len() as int) =~= nv);
        }
    }
    proof {
        assert(sv.take(sv.len() as int) =~= sv);
    }
    out
}

impl Ordered for UsedItem {
    open spec fn before(a: Self, b: Self) -> bool {
        more_used(a@, b@)
    }

    fn comes_before(&self, other: &Self) -> (r: bool) {
        self.call_count > other.call_count || (self.call_count == other.call_count && text_less(
            self.name.as_str(),
            other.name.as_str(),
        ))
    }
}

fn add_use(items: &mut Vec<UsedItem>, o: &UsedObservation)
    requires
        forall|i: int|
            0 <= i < old(items)@.len() ==> (#[trigger] old(items)@[i]).call_count < usize::MAX,
    ensures
        used_views(final(items)@) == with_use(used_views(old(items)@), o@),
{
    let ghost all = used_views(items@);
    proof {
        assert(names_in(items@) =~= used_names(all));
        lemma_name_rank(used_names(all), o.name@);
    }
    let (k, found): (usize, bool) = find_name(items, o.name.as_str());
    if found {
        let last: i64 = if items[k].last_used_ms < o.ts_ms {
            o.ts_ms
        } else {
            items[k].last_used_ms
        };
        proof {
            assert(items@[k as int].call_count < usize::MAX);
        }
        let item = UsedItem {
            name: o.name.clone(),
            call_count: items[k].call_count + 1,
            last_used_ms: last,
        };
        let ghost iv = item@;
        items.set(k, item);
        proof {
            assert(used_views(items@) =~= all.update(k as int, iv));
        }
    } else {
        let item = UsedItem { name: o.name.clone(), call_count: 1, last_used_ms: o.ts_ms };
        let ghost iv = item@;
        items.insert(k, item);
        proof {
            assert(used_views(items@) =~= all.insert(k as int, iv));
        }
    }
}

proof fn lemma_use_counts(os: Seq<ObservationV>, since_ms: Option<i64>, i: int)
    requires
        0 <= i < used_of(os, since_ms).len(),
    ensures
        1 <= used_of(os, since_ms)[i].call_count <= os.len(),
    decreases os.len(),
{
    if os.len() > 0 {
        let t = os.drop_last();
        let b = used_of(t, since_ms);
        let o = os.last();
        let k = name_rank(used_names(b), o.name);
        lemma_name_rank(used_names(b), o.name);
        if use_in_window(o, since_ms) {
            if name_found(used_names(b), o.name) {
                lemma_use_counts(t, since_ms, i);
            } else if i < k {
                lemma_use_counts(t, since_ms, i);
            } else if i > k {
                lemma_use_counts(t, since_ms, i - 1);
            }
        } else {
            lemma_use_counts(t, since_ms, i);
        }
    }
}

fn aggregate_used(os: &Vec<UsedObservation>, since_ms: Option<i64>) -> (out: Vec<UsedItem>)
    ensures
        used_views(out@) == by_use(used_of(observation_views(os@), since_ms)),
{
    let ghost ov = observation_views(os@);
    let n: usize = os.len();
    let mut items: Vec<UsedItem> = Vec::new();
    proof {
        assert(used_views(items@) =~= used_of(ov.take(0), since_ms));
    }
    for i in 0..n
        invariant
            n == os@.len(),
            ov == observation_views(os@),
            used_views(items@) == used_of(ov.take(i as int), since_ms),
    {
        proof {
            assert(ov.take(i + 1).drop_last() =~= ov.take(i as int));
            assert(ov.take(i + 1).last() == os@[i as int]@);
            assert forall|k: int| 0 <= k < items@.len() implies (
            #[trigger] items@[k]).call_count < usize::MAX by {
                assert(used_views(items@)[k] == items@[k]@);
                lemma_use_counts(ov.take(i as int), since_ms, k);
            }
        }
        let keep = match since_ms {
            Some(since) => os[i].ts_ms >= since,
            None => true,
        };
        if keep {
            add_use(&mut items, &os[i]);
        }
    }
    proof {
        assert(ov.take(ov.len() as int) =~= ov);
        let f = |x: UsedItem| x@;
        let lt2 = |a: UsedV, b: UsedV| more_used(a, b);
        assert(items@.map_values(f) =~= used_views(items@));
        lemma_sorted_map(items@, f, own_order::<UsedItem>(), lt2);
        let sorted = sorted_by(items@, own_order::<UsedItem>());
        assert(used_views(sorted) =~= sorted.map_values(f));
    }
    sort(items)
}

fn names_of_items(items: &Vec<ConfiguredItem>) -> (out: Vec<String>)
    ensures
        views(out@) == item_names(item_views(items@)),
{
    let mut out: Vec<String> = Vec::new();
    for i in 0..items.len()
        invariant
            out@.len() == i,
            forall|k: int| 0 <= k < i ==> (#[trigger] out@[k])@ == items@[k].name@,
    {
        out.push(items[i].name.clone());
    }
    proof {
        assert(views(out@) =~= item_names(item_views(items@)));
    }
    out
}

fn names_of_used(items: &Vec<UsedItem>) -> (out: Vec<String>)
    ensures
        views(out@) == used_names(used_views(items@)),
{
    let mut out: Vec<String> = Vec::new();
    for i in 0..items.len()
        invariant
            out@.len() == i,
            forall|k: int| 0 <= k < i ==> (#[trigger] out@[k])@ == items@[k].name@,
    {
        out.push(items[i].name.clone());
    }
    proof {
        assert(views(out@) =~= used_names(used_views(items@)));
    }
    out
}

fn not_used(items: &Vec<ConfiguredItem>, names: &Vec<String>) -> (out: Vec<ConfiguredItem>)
    ensures
        item_views(out@) == items_without(item_views(items@), views(names@)),
{
    let ghost iv = item_views(items@);
    let mut out: Vec<ConfiguredItem> = Vec::new();
    proof {
        assert(item_views(out@) =~= items_without(iv.take(0), views(names@)));
    }
    for i in 0..items.len()
        invariant
            iv == item_views(items@),
            item_views(out@) == items_without(iv.take(i as int), views(names@)),
    {
        proof {
            assert(iv.take(i + 1).drop_last() =~= iv.take(i as int));
            assert(iv.take(i + 1).last() == items@[i as int]@);
        }
        let item = &items[i];
        let ghost o0 = item_views(out@);
        if !list_has(names, item.name.as_str()) {
            out.push(
                ConfiguredItem { name: item.name.clone(), sources: copy_sources(&item.sources) },
            );
            proof {
                assert(item_views(out@) =~= o0.push(item@));
            }
        }
    }
    proof {
        assert(iv.take(iv.len() as int) =~= iv);
    }
    out
}

fn not_configured(items: &Vec<UsedItem>, names: &Vec<String>) -> (out: Vec<UsedItem>)
    ensures
        used_views(out@) == used_without(used_views(items@), views(names@)),
{
    let ghost iv = used_views(items@);
    let mut out: Vec<UsedItem> = Vec::new();
    proof {
        assert(used_views(out@) =~= used_without(iv.take(0), views(names@)));
    }
    for i in 0..items.len()
        invariant
            iv == used_views(items@),
            used_views(out@) == used_without(iv.take(i as int), views(names@)),
    {
        proof {
            assert(iv.take(i + 1).drop_last() =~= iv.take(i as int));
            assert(iv.take(i + 1).last() == items@[i as int]@);
        }
        let item = &items[i];
        let ghost o0 = used_views(out@);
        if !list_has(names, item.name.as_str()) {
            out.push(
                UsedItem {
                    name: item.name.clone(),
                    call_count: item.call_count,
                    last_used_ms: item.last_used_ms,
                },
            );
            proof {
                assert(used_views(out@) =~= o0.push(item@));
            }
        }
    }
    proof {
        assert(iv.take(iv.len() as int) =~= iv);
    }
    out
}

fn build_category(
    sources: Vec<SourceRead>,
    used_obs: Vec<UsedObservation>,
    since_ms: Option<i64>,
) -> (r: CategoryReport)
    ensures
        r@ == category_of(source_views(sources@), observation_views(used_obs@), since_ms),
{
    let configured = union_configured(&sources);
    let used = aggregate_used(&used_obs, since_ms);
    let configured_not_used = not_used(&configured, &names_of_used(&used));
    let used_not_configured = not_configured(&used, &names_of_items(&configured));
    CategoryReport { sources, configured, used, configured_not_used, used_not_configured }
}

fn category_complete(sources: &Vec<SourceRead>) -> (r: bool)
    ensures
        r == all_taken_up(source_views(sources@)),
{
    let ghost sv = source_views(sources@);
    for i in 0..sources.len()
        invariant
            sv == source_views(sources@),
            forall|k: int| 0 <= k < i ==> !(#[trigger] sv[k]).status.broken(),
    {
        proof {
            assert(sv[i as int] == sources@[i as int]@);
        }
        if sources[i].status.is_broken() {
            return false;
        }
    }
    true
}

/// Makes the inventory of what was read. The window is one of uses only: what is
/// configured is always the whole snapshot.
pub fn build_inventory(
    configured_mcp: Vec<SourceRead>,
    configured_skills: Vec<SourceRead>,
    used_mcp: Vec<UsedObservation>,
    used_skills: Vec<UsedObservation>,
    now_ms: i64,
    since_ms: Option<i64>,
) -> (r: InventoryReport)
    ensures
        r@ == inventory_of(
            source_views(configured_mcp@),
            source_views(configured_skills@),
            observation_views(used_mcp@),
            observation_views(used_skills@),
            now_ms,
            since_ms,
        ),
{
    let completeness = if category_complete(&configured_mcp) && category_complete(
        &configured_skills,
    ) {
        Completeness::Complete
    } else {
        Completeness::Partial
    };
    let mcp = build_category(configured_mcp, used_mcp, since_ms);
    let skills = build_category(configured_skills, used_skills, since_ms);
    InventoryReport { now_ms, since_ms, completeness, mcp, skills }
}

// ---------------------------------------------------------------------------
// Markdown
// ---------------------------------------------------------------------------

/// The window in words.
pub open spec fn window_words(now_ms: i64, since_ms: Option<i64>) -> Seq<char> {
    match since_ms {
        Some(since) => "observed ToolCall events in ["@ + utc_text(since as int) + ", "@
            + utc_text(now_ms as int) + "]"@,
        None => "all recorded history (through "@ + utc_text(now_ms as int) + ")"@,
    }
}

/// The window in short.
pub open spec fn phrase_of(since_ms: Option<i64>) -> Seq<char> {
    match since_ms {
        Some(since) => "since "@ + utc_text(since as int),
        None => "in all recorded history"@,
    }
}

/// Whether every source was taken up, in words.
pub open spec fn completeness_words(c: Completeness) -> Seq<char> {
    match c {
        Completeness::Complete => "complete (every configured source read cleanly)"@,
        Completeness::Partial =>
            "partial (a configured source was unreadable or failed to parse; the diff may be incomplete)"@,
    }
}

/// How the reading of a source went, in words.
pub open spec fn status_words(s: StatusV) -> Seq<char> {
    match s {
        StatusV::Read { count } => "read ("@ + decimal(count as nat) + ")"@,
        StatusV::Missing => "missing (optional; absent)"@,
        StatusV::Unreadable { reason } => "unreadable: "@ + reason,
        StatusV::ParseFailed { reason } => "parse failed: "@ + reason,
    }
}

/// The lines of sources.
pub open spec fn source_lines(ss: Seq<SourceV>, host: HostV) -> Seq<Seq<char>> {
    Seq::new(
        ss.len(),
        |i: int| "- "@ + ss[i].source.spec_label(host) + ": "@ + status_words(ss[i].status),
    )
}

/// The sources in words.
pub open spec fn source_labels(ss: Seq<ConfiguredSource>, host: HostV) -> Seq<Seq<char>> {
    Seq::new(ss.len(), |i: int| ss[i].spec_label(host))
}

/// The line of a configured item.
pub open spec fn item_line(c: ItemV, host: HostV) -> Seq<char> {
    "- "@ + c.name + " (sources: "@ + joined(source_labels(c.sources, host), "; "@) + ")"@
}

/// The lines of configured items.
pub open spec fn item_lines(cs: Seq<ItemV>, host: HostV) -> Seq<Seq<char>> {
    if cs.len() == 0 {
        seq!["_None._"@]
    } else {
        Seq::new(cs.len(), |i: int| item_line(cs[i], host))
    }
}

/// The line of a used item.
pub open spec fn used_line(u: UsedV) -> Seq<char> {
    "- "@ + u.name + " — "@ + decimal(u.call_count as nat) + " call(s), last used "@ + utc_text(
        u.last_used_ms as int,
    )
}

/// The lines of used items.
pub open spec fn used_lines(us: Seq<UsedV>) -> Seq<Seq<char>> {
    if us.len() == 0 {
        seq!["_None._"@]
    } else {
        Seq::new(us.len(), |i: int| used_line(us[i]))
    }
}

/// The advice on what was not used, where there is any.
pub open spec fn advice_lines(cs: Seq<ItemV>) -> Seq<Seq<char>> {
    if cs.len() == 0 {
        Seq::<Seq<char>>::empty()
    } else {
        seq![""@, "Review for pruning: "@ + joined(item_names(cs), ", "@)]
    }
}

/// The line on what is used and not configured.
pub open spec fn neutral_line(site: Seq<char>) -> Seq<char> {
    "_Neutral facts — dynamic/UUID-named or "@ + site
        + "-connected servers, or since-removed config. Not misconfigurations._"@
}

/// The section of a category.
pub open spec fn category_lines(
    title: Seq<char>,
    noun: Seq<char>,
    c: CategoryV,
    since_ms: Option<i64>,
    host: HostV,
) -> Seq<Seq<char>> {
    let phrase = phrase_of(since_ms);
    seq!["## "@ + title, ""@, "### Configured sources"@, ""@] + source_lines(c.sources, host) + seq![
        ""@,
        "### Configured now"@,
        ""@,
    ] + item_lines(c.configured, host) + seq![""@, "### Observed used "@ + phrase, ""@] + used_lines(
        c.used,
    ) + seq![""@, "### Configured now, not observed used "@ + phrase, ""@] + item_lines(
        c.configured_not_used,
        host,
    ) + advice_lines(c.configured_not_used) + seq![
        ""@,
        "### Observed used "@ + phrase + ", not configured now"@,
        ""@,
        neutral_line(host.site),
        ""@,
    ] + used_lines(c.used_not_configured) + seq![
        ""@,
        decimal(c.configured.len()) + " "@ + noun + "(s) configured now; "@ + decimal(c.used.len())
            + " observed used "@ + phrase + "; "@ + decimal(c.configured_not_used.len())
            + " configured "@ + noun + "(s) had no observed calls "@ + phrase + "."@,
        ""@,
    ]
}

/// The section on what the inventory covers.
pub open spec fn scope_and_gaps(c: Completeness, host_name: Seq<char>) -> Seq<Seq<char>> {
    let always = seq![
        "## Scope & gaps"@,
        ""@,
        "- Configured is read from config files at invocation time — it is not a recorded session event and is never attributed as an agent action."@,
        "- Observed use is direct-attribution evidence ("@ + host_name + " hook tool calls)."@,
        "- MCP server config values (env vars, tokens) are never read — only server names."@,
        "- Plugin-provided skills (via enabledPlugins) are not enumerated here."@,
        "- Items observed used but not in the current configured set are neutral historical/dynamic/external evidence, not misconfigurations."@,
    ];
    match c {
        Completeness::Complete => always,
        Completeness::Partial => always + seq![
            "- One or more configured sources were unreadable or failed to parse; the configured set (and therefore the diff) may be incomplete."@,
        ],
    }
}

/// The lines of an inventory.
pub open spec fn inventory_lines(r: InventoryV, host: HostV) -> Seq<Seq<char>> {
    seq![
        "# Capability inventory"@,
        ""@,
        "_Configured vs observed-used MCP servers and skills. Observation only: configured is a snapshot read from config files now; used is ToolCall evidence from recorded sessions._"@,
        ""@,
        "- Configured snapshot read: "@ + utc_text(r.now_ms as int),
        "- Observed-use window: "@ + window_words(r.now_ms, r.since_ms),
        "- Completeness: "@ + completeness_words(r.completeness),
        ""@,
    ] + category_lines("MCP servers"@, "server"@, r.mcp, r.since_ms, host) + category_lines(
        "Skills"@,
        "skill"@,
        r.skills,
        r.since_ms,
        host,
    ) + scope_and_gaps(r.completeness, host.name)
}

fn window_sentence(now_ms: i64, since_ms: Option<i64>) -> (out: String)
    ensures
        out@ == window_words(now_ms, since_ms),
{
    let now = format_utc(now_ms);
    match since_ms {
        Some(since) => "observed ToolCall events in [".to_owned().concat(
            format_utc(since).as_str(),
        ).concat(", ").concat(now.as_str()).concat("]"),
        None => "all recorded history (through ".to_owned().concat(now.as_str()).concat(")"),
    }
}

fn window_phrase(since_ms: Option<i64>) -> (out: String)
    ensures
        out@ == phrase_of(since_ms),
{
    match since_ms {
        Some(since) => "since ".to_owned().concat(format_utc(since).as_str()),
        None => "in all recorded history".to_owned(),
    }
}

fn completeness_sentence(c: Completeness) -> (out: &'static str)
    ensures
        out@ == completeness_words(c),
{
    match c {
        Completeness::Complete => "complete (every configured source read cleanly)",
        Completeness::Partial =>
            "partial (a configured source was unreadable or failed to parse; the diff may be incomplete)",
    }
}

fn status_phrase(s: &SourceStatus) -> (out: String)
    ensures
        out@ == status_words(s@),
{
    match s {
        SourceStatus::Read { count } => "read (".to_owned().concat(
            decimal_usize(*count).as_str(),
        ).concat(")"),
        SourceStatus::Missing => "missing (optional; absent)".to_owned(),
        SourceStatus::Unreadable { reason } => "unreadable: ".to_owned().concat(reason.as_str()),
        SourceStatus::ParseFailed { reason } => "parse failed: ".to_owned().concat(
            reason.as_str(),
        ),
    }
}

fn render_sources(ss: &Vec<SourceRead>, host: &Host) -> (out: Vec<String>)
    ensures
        views(out@) == source_lines(source_views(ss@), host@),
{
    let ghost sv = source_views(ss@);
    let mut out = no_lines();
    proof {
        assert(source_lines(sv, host@).take(0) =~= Seq::<Seq<char>>::empty());
    }
    for i in 0..ss.len()
        invariant
            sv == source_views(ss@),
            views(out@) == source_lines(sv, host@).take(i as int),
    {
        own_line(
            &mut out,
            "- ".to_owned().concat(ss[i].source.label(host).as_str()).concat(": ").concat(
                status_phrase(&ss[i].status).as_str(),
            ),
        );
        proof {
            assert(views(out@) =~= source_lines(sv, host@).take(i + 1));
        }
    }
    proof {
        assert(source_lines(sv, host@).take(sv.len() as int) =~= source_lines(sv, host@));
    }
    out
}

fn item_text(c: &ConfiguredItem, host: &Host) -> (out: String)
    ensures
        out@ == item_line(c@, host@),
{
    let mut labels: Vec<String> = Vec::new();
    for i in 0..c.sources.len()
        invariant
            labels@.len() == i,
            forall|k: int| 0 <= k < i ==> (#[trigger] labels@[k])@ == c.sources@[k].spec_label(host@),
    {
        labels.push(c.sources[i].label(host));
    }
    proof {
        assert(views(labels@) =~= source_labels(c.sources@, host@));
    }
    "- ".to_owned().concat(c.name.as_str()).concat(" (sources: ").concat(
        join(&labels, "; ").as_str(),
    ).concat(")")
}

fn render_configured_items(cs: &Vec<ConfiguredItem>, host: &Host) -> (out: Vec<String>)
    ensures
        views(out@) == item_lines(item_views(cs@), host@),
{
    let ghost cv = item_views(cs@);
    let mut out = no_lines();
    if cs.len() == 0 {
        line(&mut out, "_None._");
        proof {
            assert(views(out@) =~= item_lines(cv, host@));
        }
        return out;
    }
    proof {
        assert(item_lines(cv, host@).take(0) =~= Seq::<Seq<char>>::empty());
    }
    for i in 0..cs.len()
        invariant
            cs@.len() > 0,
            cv == item_views(cs@),
            views(out@) == item_lines(cv, host@).take(i as int),
    {
        own_line(&mut out, item_text(&cs[i], host));
        proof {
            assert(views(out@) =~= item_lines(cv, host@).take(i + 1));
        }
    }
    proof {
        assert(item_lines(cv, host@).take(cv.len() as int) =~= item_lines(cv, host@));
    }
    out
}

fn render_used_items(us: &Vec<UsedItem>) -> (out: Vec<String>)
    ensures
        views(out@) == used_lines(used_views(us@)),
{
    let ghost uv = used_views(us@);
    let mut out = no_lines();
    if us.len() == 0 {
        line(&mut out, "_None._");
        proof {
            assert(views(out@) =~= used_lines(uv));
        }
        return out;
    }
    proof {
        assert(used_lines(uv).take(0) =~= Seq::<Seq<char>>::empty());
    }
    for i in 0..us.len()
        invariant
            us@.len() > 0,
            uv == used_views(us@),
            views(out@) == used_lines(uv).take(i as int),
    {
        let u = &us[i];
        own_line(
            &mut out,
            "- ".to_owned().concat(u.name.as_str()).concat(" — ").concat(
                decimal_usize(u.call_count).as_str(),
            ).concat(" call(s), last used ").concat(format_utc(u.last_used_ms).as_str()),
        );
        proof {
            assert(views(out@) =~= used_lines(uv).take(i + 1));
        }
    }
    proof {
        assert(used_lines(uv).take(uv.len() as int) =~= used_lines(uv));
    }
    out
}

fn render_advice(cs: &Vec<ConfiguredItem>) -> (out: Vec<String>)
    ensures
        views(out@) == advice_lines(item_views(cs@)),
{
    let mut out = no_lines();
    if cs.len() > 0 {
        line(&mut out, "");
        own_line(
            &mut out,
            "Review for pruning: ".to_owned().concat(join(&names_of_items(cs), ", ").as_str()),
        );
    }
    proof {
        assert(views(out@) =~= advice_lines(item_views(cs@)));
    }
    out
}

fn gap_then(heading: String) -> (out: Vec<String>)
    ensures
        views(out@) == seq![""@, heading@, ""@],
{
    let mut out = no_lines();
    line(&mut out, "");
    own_line(&mut out, heading);
    line(&mut out, "");
    proof {
        assert(views(out@) =~= seq![""@, heading@, ""@]);
    }
    out
}

fn render_category(
    title: &str,
    noun: &str,
    c: &CategoryReport,
    since_ms: Option<i64>,
    host: &Host,
) -> (out: Vec<String>)
    ensures
        views(out@) == category_lines(title@, noun@, c@, since_ms, host@),
{
    let phrase = window_phrase(since_ms);
    let mut out = no_lines();
    own_line(&mut out, "## ".to_owned().concat(title));
    line(&mut out, "");
    line(&mut out, "### Configured sources");
    line(&mut out, "");
    proof {
        assert(views(out@) =~= seq!["## "@ + title@, ""@, "### Configured sources"@, ""@]);
    }
    add_lines(&mut out, render_sources(&c.sources, host));
    add_lines(&mut out, gap_then("### Configured now".to_owned()));
    add_lines(&mut out, render_configured_items(&c.configured, host));
    add_lines(&mut out, gap_then("### Observed used ".to_owned().concat(phrase.as_str())));
    add_lines(&mut out, render_used_items(&c.used));
    add_lines(
        &mut out,
        gap_then("### Configured now, not observed used ".to_owned().concat(phrase.as_str())),
    );
    add_lines(&mut out, render_configured_items(&c.configured_not_used, host));
    add_lines(&mut out, render_advice(&c.configured_not_used));
    let mut neutral = no_lines();
    line(&mut neutral, "");
    own_line(
        &mut neutral,
        "### Observed used ".to_owned().concat(phrase.as_str()).concat(", not configured now"),
    );
    line(&mut neutral, "");
    own_line(
        &mut neutral,
        "_Neutral facts — dynamic/UUID-named or ".to_owned().concat(host.site.as_str()).concat(
            "-connected servers, or since-removed config. Not misconfigurations._",
        ),
    );
    line(&mut neutral, "");
    proof {
        assert(views(neutral@) =~= seq![
            ""@,
            "### Observed used "@ + phrase@ + ", not configured now"@,
            ""@,
            neutral_line(host@.site),
            ""@,
        ]);
    }
    add_lines(&mut out, neutral);
    add_lines(&mut out, render_used_items(&c.used_not_configured));
    let summary = decimal_usize(c.configured.len()).concat(" ").concat(noun).concat(
        "(s) configured now; ",
    ).concat(decimal_usize(c.used.len()).as_str()).concat(" observed used ").concat(
        phrase.as_str(),
    ).concat("; ").concat(decimal_usize(c.configured_not_used.len()).as_str()).concat(
        " configured ",
    ).concat(noun).concat("(s) had no observed calls ").concat(phrase.as_str()).concat(".");
    add_lines(&mut out, gap_then(summary));
    out
}

fn render_scope(c: Completeness, host_name: &str) -> (out: Vec<String>)
    ensures
        views(out@) == scope_and_gaps(c, host_name@),
{
    let mut out = no_lines();
    line(&mut out, "## Scope & gaps");
    line(&mut out, "");
    line(
        &mut out,
        "- Configured is read from config files at invocation time — it is not a recorded session event and is never attributed as an agent action.",
    );
    own_line(
        &mut out,
        "- Observed use is direct-attribution evidence (".to_owned().concat(host_name).concat(
            " hook tool calls).",
        ),
    );
    line(
        &mut out,
        "- MCP server config values (env vars, tokens) are never read — only server names.",
    );
    line(&mut out, "- Plugin-provided skills (via enabledPlugins) are not enumerated here.");
    line(
        &mut out,
        "- Items observed used but not in the current configured set are neutral historical/dynamic/external evidence, not misconfigurations.",
    );
    match c {
        Completeness::Complete => {},
        Completeness::Partial => {
            line(
                &mut out,
                "- One or more configured sources were unreadable or failed to parse; the configured set (and therefore the diff) may be incomplete.",
            );
        },
    }
    proof {
        assert(views(out@) =~= scope_and_gaps(c, host_name@));
    }
    out
}

/// Renders an inventory as a markdown document.
pub fn to_markdown(report: &InventoryReport, host: &Host) -> (out: String)
    ensures
        out@ == lines_text(inventory_lines(report@, host@)),
{
    let mut all = no_lines();
    line(&mut all, "# Capability inventory");
    line(&mut all, "");
    line(
        &mut all,
        "_Configured vs observed-used MCP servers and skills. Observation only: configured is a snapshot read from config files now; used is ToolCall evidence from recorded sessions._",
    );
    line(&mut all, "");
    own_line(
        &mut all,
        "- Configured snapshot read: ".to_owned().concat(format_utc(report.now_ms).as_str()),
    );
    own_line(
        &mut all,
        "- Observed-use window: ".to_owned().concat(
            window_sentence(report.now_ms, report.since_ms).as_str(),
        ),
    );
    own_line(
        &mut all,
        "- Completeness: ".to_owned().concat(completeness_sentence(report.completeness)),
    );
    line(&mut all, "");
    proof {
        assert(views(all@) =~= seq![
            "# Capability inventory"@,
            ""@,
            "_Configured vs observed-used MCP servers and skills. Observation only: configured is a snapshot read from config files now; used is ToolCall evidence from recorded sessions._"@,
            ""@,
            "- Configured snapshot read: "@ + utc_text(report.now_ms as int),
            "- Observed-use window: "@ + window_words(report.now_ms, report.since_ms),
            "- Completeness: "@ + completeness_words(report.completeness),
            ""@,
        ]);
    }
    add_lines(&mut all, render_category("MCP servers", "server", &report.mcp, report.since_ms, host));
    add_lines(&mut all, render_category("Skills", "skill", &report.skills, report.since_ms, host));
    add_lines(&mut all, render_scope(report.completeness, host.name.as_str()));
    render_lines(&all)
}

// ---------------------------------------------------------------------------
// Laws
// ---------------------------------------------------------------------------

/// The values of a configuration play no part: sections that name the same
/// servers are read alike, whatever they say of them.
pub proof fn config_values_play_no_part(
    m1: Seq<(Seq<char>, JsonV)>,
    m2: Seq<(Seq<char>, JsonV)>,
)
    requires
        member_names(m1) == member_names(m2),
    ensures
        server_names(Some(JsonV::Object(m1))) == server_names(Some(JsonV::Object(m2))),
{
}

/// A source that could not be taken up is not the same as an empty one: it is
/// marked as such, it names nothing, and it makes the inventory partial.
pub proof fn broken_sources_are_told(
    mcp: Seq<SourceV>,
    skills: Seq<SourceV>,
    used_mcp: Seq<ObservationV>,
    used_skills: Seq<ObservationV>,
    now_ms: i64,
    since_ms: Option<i64>,
    i: int,
)
    requires
        0 <= i < mcp.len() && mcp[i].status.broken() || 0 <= i < skills.len()
            && skills[i].status.broken(),
    ensures
        inventory_of(mcp, skills, used_mcp, used_skills, now_ms, since_ms).completeness
            == Completeness::Partial,
{
}

/// A source is complete, missing, or broken with a reason; only one that was read
/// names anything.
pub proof fn unread_sources_name_nothing(f: FileRead, d: DirRead, cwd: Seq<char>)
    ensures
        user_servers(f).status !is Read ==> user_servers(f).names.len() == 0,
        user_project_servers(f, cwd).status !is Read ==> user_project_servers(f, cwd).names.len()
            == 0,
        project_servers(f).status !is Read ==> project_servers(f).names.len() == 0,
        skills_in(ConfiguredSource::SkillsUser, d).status !is Read ==> skills_in(
            ConfiguredSource::SkillsUser,
            d,
        ).names.len() == 0,
        user_servers(f).status is Read <==> user_project_servers(f, cwd).status is Read,
{
}

proof fn lemma_items_without(items: Seq<ItemV>, names: Seq<Seq<char>>)
    ensures
        forall|x: ItemV|
            #[trigger] items_without(items, names).contains(x) <==> items.contains(x)
                && !names.contains(x.name),
    decreases items.len(),
{
    if items.len() > 0 {
        let t = items.drop_last();
        lemma_items_without(t, names);
        let a = items_without(items, names);
        let b = items_without(t, names);
        assert forall|x: ItemV| #[trigger] a.contains(x) <==> items.contains(x) && !names.contains(
            x.name,
        ) by {
            if items.contains(x) && !names.contains(x.name) {
                let i = choose|i: int| 0 <= i < items.len() && items[i] == x;
                if i < t.len() {
                    assert(t[i] == x);
                    assert(b.contains(x));
                    let k = choose|k: int| 0 <= k < b.len() && b[k] == x;
                    assert(a[k] == x);
                } else {
                    assert(a.last() == x);
                }
            }
            if a.contains(x) {
                let k = choose|k: int| 0 <= k < a.len() && a[k] == x;
                if k < b.len() {
                    assert(b[k] == x);
                    assert(b.contains(x));
                    assert(t.contains(x));
                    let i = choose|i: int| 0 <= i < t.len() && t[i] == x;
                    assert(items[i] == x);
                } else {
                    assert(items[items.len() - 1] == x);
                }
            }
        }
    }
}

proof fn lemma_used_without(items: Seq<UsedV>, names: Seq<Seq<char>>)
    ensures
        forall|x: UsedV|
            #[trigger] used_without(items, names).contains(x) <==> items.contains(x)
                && !names.contains(x.name),
    decreases items.len(),
{
    if items.len() > 0 {
        let t = items.drop_last();
        lemma_used_without(t, names);
        let a = used_without(items, names);
        let b = used_without(t, names);
        assert forall|x: UsedV| #[trigger] a.contains(x) <==> items.contains(x) && !names.contains(
            x.name,
        ) by {
            if items.contains(x) && !names.contains(x.name) {
                let i = choose|i: int| 0 <= i < items.len() && items[i] == x;
                if i < t.len() {
                    assert(t[i] == x);
                    assert(b.contains(x));
                    let k = choose|k: int| 0 <= k < b.len() && b[k] == x;
                    assert(a[k] == x);
                } else {
                    assert(a.last() == x);
                }
            }
            if a.contains(x) {
                let k = choose|k: int| 0 <= k < a.len() && a[k] == x;
                if k < b.len() {
                    assert(b[k] == x);
                    assert(b.contains(x));
                    assert(t.contains(x));
                    let i = choose|i: int| 0 <= i < t.len() && t[i] == x;
                    assert(items[i] == x);
                } else {
                    assert(items[items.len() - 1] == x);
                }
            }
        }
    }
}

/// The differences are exact: what is configured is in the first one unless it was
/// used, what was used is in the second one unless it is configured, and nothing
/// else is in either.
pub proof fn differences_are_exact(
    ss: Seq<SourceV>,
    os: Seq<ObservationV>,
    since_ms: Option<i64>,
)
    ensures
        ({
            let c = category_of(ss, os, since_ms);
            &&& forall|x: ItemV|
                #[trigger] c.configured_not_used.contains(x) <==> c.configured.contains(x)
                    && !used_names(c.used).contains(x.name)
            &&& forall|x: UsedV|
                #[trigger] c.used_not_configured.contains(x) <==> c.used.contains(x)
                    && !item_names(c.configured).contains(x.name)
        }),
{
    let c = category_of(ss, os, since_ms);
    lemma_items_without(c.configured, used_names(c.used));
    lemma_used_without(c.used, item_names(c.configured));
}

/// The names of a source are taken up in order, each once.
pub proof fn lemma_with_source_ordered(
    items: Seq<ItemV>,
    names: Seq<Seq<char>>,
    source: ConfiguredSource,
)
    requires
        names_ordered(item_names(items)),
    ensures
        names_ordered(item_names(with_source(items, names, source))),
        forall|n: Seq<char>|
            #[trigger] item_names(with_source(items, names, source)).contains(n) <==> item_names(
                items,
            ).contains(n) || names.contains(n),
    decreases names.len(),
{
    let out = with_source(items, names, source);
    if names.len() > 0 {
        let t = names.drop_last();
        let name = names.last();
        lemma_with_source_ordered(items, t, source);
        let b = with_source(items, t, source);
        let nb = item_names(b);
        let k = name_rank(nb, name);
        lemma_name_rank(nb, name);
        lemma_found_iff(nb, name);
        if name_found(nb, name) {
            assert(b[k].name == nb[k]);
            assert(item_names(out) =~= nb);
        } else {
            lemma_insert_ordered(nb, name);
            assert(item_names(out) =~= nb.insert(k, name));
        }
        let no = item_names(out);
        assert forall|n: Seq<char>| #[trigger] no.contains(n) <==> item_names(items).contains(n)
            || names.contains(n) by {
            lemma_contains_step(nb, no, name, k, n);
            assert(nb.contains(n) <==> item_names(items).contains(n) || t.contains(n));
            assert(names =~= t.push(name));
            if names.contains(n) {
                let i = choose|i: int| 0 <= i < names.len() && names[i] == n;
                if i < t.len() {
                    assert(t[i] == n);
                }
            }
            if t.contains(n) {
                let i = choose|i: int| 0 <= i < t.len() && t[i] == n;
                assert(names[i] == n);
            }
            assert(names[names.len() - 1] == name);
        }
    }
}

proof fn lemma_contains_step(
    nb: Seq<Seq<char>>,
    no: Seq<Seq<char>>,
    name: Seq<char>,
    k: int,
    n: Seq<char>,
)
    requires
        0 <= k <= nb.len(),
        no == (if name_found(nb, name) {
            nb
        } else {
            nb.insert(k, name)
        }),
        name_found(nb, name) ==> nb.contains(name),
    ensures
        no.contains(n) <==> nb.contains(n) || n == name,
{
    if !name_found(nb, name) {
        if no.contains(n) {
            let i = choose|i: int| 0 <= i < no.len() && no[i] == n;
            if i < k {
                assert(nb[i] == n);
            } else if i > k {
                assert(nb[i - 1] == n);
            }
        }
        if nb.contains(n) {
            let i = choose|i: int| 0 <= i < nb.len() && nb[i] == n;
            if i < k {
                assert(no[i] == n);
            } else {
                assert(no[i + 1] == n);
            }
        }
        assert(no[k] == name);
    }
}

/// What is configured is what any source names, in the order of the names, each
/// name once.
pub proof fn configured_names_are_those_of_the_sources(ss: Seq<SourceV>)
    ensures
        names_ordered(item_names(configured_of(ss))),
        forall|n: Seq<char>|
            #[trigger] item_names(configured_of(ss)).contains(n) <==> exists|i: int|
                0 <= i < ss.len() && (#[trigger] ss[i]).names.contains(n),
    decreases ss.len(),
{
    if ss.len() > 0 {
        let t = ss.drop_last();
        configured_names_are_those_of_the_sources(t);
        lemma_with_source_ordered(configured_of(t), ss.last().names, ss.last().source);
        assert forall|n: Seq<char>|
            #[trigger] item_names(configured_of(ss)).contains(n) <==> exists|i: int|
                0 <= i < ss.len() && (#[trigger] ss[i]).names.contains(n) by {
            if item_names(configured_of(t)).contains(n) {
                let i = choose|i: int| 0 <= i < t.len() && (#[trigger] t[i]).names.contains(n);
                assert(ss[i].names.contains(n));
            }
            if ss.last().names.contains(n) {
                assert(ss[ss.len() - 1].names.contains(n));
            }
            if exists|i: int| 0 <= i < ss.len() && (#[trigger] ss[i]).names.contains(n) {
                let i = choose|i: int| 0 <= i < ss.len() && (#[trigger] ss[i]).names.contains(n);
                if i < t.len() {
                    assert(t[i].names.contains(n));
                    assert(item_names(configured_of(t)).contains(n));
                }
            }
        }
    }
}

/// The number of uses of a name in the window.
pub open spec fn use_count(os: Seq<ObservationV>, since_ms: Option<i64>, name: Seq<char>) -> int
    decreases os.len(),
{
    if os.len() == 0 {
        0
    } else {
        use_count(os.drop_last(), since_ms, name) + (if use_in_window(os.last(), since_ms)
            && os.last().name == name {
            1int
        } else {
            0
        })
    }
}

/// What was used stands with the number of its uses in the window, each name
/// once, and a name that was not used in the window does not stand at all.
pub proof fn uses_are_counted(os: Seq<ObservationV>, since_ms: Option<i64>)
    ensures
        names_ordered(used_names(used_of(os, since_ms))),
        forall|i: int|
            0 <= i < used_of(os, since_ms).len() ==> (#[trigger] used_of(os, since_ms)[i]).call_count
                == use_count(os, since_ms, used_of(os, since_ms)[i].name),
        forall|n: Seq<char>|
            #[trigger] used_names(used_of(os, since_ms)).contains(n) <==> use_count(os, since_ms, n)
                > 0,
    decreases os.len(),
{
    let out = used_of(os, since_ms);
    if os.len() > 0 {
        let t = os.drop_last();
        let o = os.last();
        uses_are_counted(t, since_ms);
        let b = used_of(t, since_ms);
        let nb = used_names(b);
        let no = used_names(out);
        let k = name_rank(nb, o.name);
        lemma_name_rank(nb, o.name);
        lemma_found_iff(nb, o.name);
        if use_in_window(o, since_ms) {
            if name_found(nb, o.name) {
                assert(b[k].name == nb[k]);
                assert(no =~= nb);
            } else {
                lemma_insert_ordered(nb, o.name);
                assert(no =~= nb.insert(k, o.name));
                assert(!nb.contains(o.name));
            }
            assert(use_count(t, since_ms, o.name) >= 0) by {
                lemma_use_count_positive(t, since_ms, o.name);
            }
            assert forall|i: int| 0 <= i < out.len() implies (#[trigger] out[i]).call_count
                == use_count(os, since_ms, out[i].name) by {
                if name_found(nb, o.name) {
                    if i != k {
                        assert(out[i] == b[i]);
                        assert(nb[i] == b[i].name);
                        if i < k {
                            assert(text_lt(nb[i], nb[k]));
                        } else {
                            assert(text_lt(nb[k], nb[i]));
                        }
                        text_lt_total(nb[i], nb[k]);
                    } else {
                        assert(b[k].call_count == use_count(t, since_ms, b[k].name));
                    }
                } else if i < k {
                    assert(out[i] == b[i]);
                    assert(nb[i] == b[i].name);
                    assert(nb.contains(nb[i]));
                } else if i > k {
                    assert(out[i] == b[i - 1]);
                    assert(nb[i - 1] == b[i - 1].name);
                    assert(nb.contains(nb[i - 1]));
                } else {
                    assert(!nb.contains(o.name));
                }
            }
            assert forall|n: Seq<char>| #[trigger] no.contains(n) <==> use_count(os, since_ms, n)
                > 0 by {
                lemma_contains_step(nb, no, o.name, k, n);
                lemma_use_count_positive(t, since_ms, n);
                assert(nb.contains(n) <==> use_count(t, since_ms, n) > 0);
            }
        } else {
            assert forall|i: int| 0 <= i < out.len() implies (#[trigger] out[i]).call_count
                == use_count(os, since_ms, out[i].name) by {
                assert(out[i] == b[i]);
            }
            assert forall|n: Seq<char>| #[trigger] no.contains(n) <==> use_count(os, since_ms, n)
                > 0 by {
                assert(nb.contains(n) <==> use_count(t, since_ms, n) > 0);
            }
        }
    } else {
        assert forall|n: Seq<char>|
            #[trigger] used_names(out).contains(n) <==> use_count(os, since_ms, n) > 0 by {
            assert(used_names(out).len() == 0);
        }
    }
}

proof fn lemma_use_count_positive(os: Seq<ObservationV>, since_ms: Option<i64>, name: Seq<char>)
    ensures
        use_count(os, since_ms, name) >= 0,
    decreases os.len(),
{
    if os.len() > 0 {
        lemma_use_count_positive(os.drop_last(), since_ms, name);
    }
}

/// What was used is listed in full, and what was used more comes first.
pub proof fn the_most_used_comes_first(items: Seq<UsedV>, i: int, j: int)
    requires
        0 <= i < j < by_use(items).len(),
    ensures
        by_use(items).to_multiset() == items.to_multiset(),
        by_use(items)[i].call_count >= by_use(items)[j].call_count,
{
    let lt = |a: UsedV, b: UsedV| more_used(a, b);
    assert forall|a: UsedV| !#[trigger] lt(a, a) by {
        text_lt_total(a.name, a.name);
    }
    assert forall|a: UsedV, b: UsedV| #[trigger] lt(a, b) implies !lt(b, a) by {
        text_lt_total(a.name, b.name);
    }
    assert forall|a: UsedV, b: UsedV, c: UsedV| #[trigger]
        lt(a, b) && !lt(c, b) implies #[trigger] lt(a, c) by {
        text_lt_total(b.name, c.name);
        if text_lt(a.name, b.name) && text_lt(b.name, c.name) {
            text_lt_transitive(a.name, b.name, c.name);
        }
    }
    sorted_by_sorts(items, lt);
    assert(!lt(by_use(items)[j], by_use(items)[i]));
}

} // verus!
