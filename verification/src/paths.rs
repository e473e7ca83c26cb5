//! Where things are kept.
use vstd::prelude::*;

use crate::host::{Host, HostV};
use crate::num::{decimal_i64, decimal_int};
use crate::store::{join_path, joined_path};
use crate::text::opt_str;

verus! {

/// The paths of the socket and of the recorded sessions.
#[derive(Debug, Clone, PartialEq, Eq)]
pub struct Paths {
    /// The socket.
    pub socket: String,
    /// The directory of the recorded sessions.
    pub sessions_root: String,
}

/// The contents of [`Paths`].
pub ghost struct PathsV {
    pub socket: Seq<char>,
    pub sessions_root: Seq<char>,
}

impl View for Paths {
    type V = PathsV;

    open spec fn view(&self) -> PathsV {
        PathsV { socket: self.socket@, sessions_root: self.sessions_root@ }
    }
}

/// What is said where there is no home directory.
pub const NO_HOME: &'static str = "cannot determine home directory: $HOME is not set";

/// Whether a variable is set to something.
pub open spec fn is_set(v: Option<Seq<char>>) -> bool {
    v matches Some(s) && s.len() > 0
}

/// The paths, from the home directory and the directory for runtime files. The
/// socket is in the latter, where it is set.
pub open spec fn paths_of(home: Seq<char>, runtime: Option<Seq<char>>) -> PathsV {
    let own = joined_path(home, ".agent-witness"@);
    PathsV {
        socket: if is_set(runtime) {
            joined_path(joined_path(runtime->0, "agent-witness"@), "witness.sock"@)
        } else {
            joined_path(own, "witness.sock"@)
        },
        sessions_root: joined_path(own, "sessions"@),
    }
}

/// Tells the home directory, if it is set.
pub fn home_dir<'a>(home: Option<&'a str>) -> (r: Option<&'a str>)
    ensures
        opt_str(r) == (if is_set(opt_str(home)) {
            opt_str(home)
        } else {
            None
        }),
{
    match home {
        Some(h) => if h.is_empty() {
            None
        } else {
            Some(h)
        },
        None => None,
    }
}

/// Tells the paths, if the home directory is set.
pub fn resolve(home: Option<&str>, runtime: Option<&str>) -> (r: Option<Paths>)
    ensures
        match r {
            Some(p) => is_set(opt_str(home)) && p@ == paths_of(home->0@, opt_str(runtime)),
            None => !is_set(opt_str(home)),
        },
{
    let h = match home_dir(home) {
        Some(h) => h,
        None => {
            return None;
        },
    };
    let own = join_path(h, ".agent-witness");
    let dir = match runtime {
        Some(d) => if d.is_empty() {
            own.clone()
        } else {
            join_path(d, "agent-witness")
        },
        None => own.clone(),
    };
    Some(
        Paths {
            socket: join_path(dir.as_str(), "witness.sock"),
            sessions_root: join_path(own.as_str(), "sessions"),
        },
    )
}

/// The settings file of the host below a home or project directory.
pub open spec fn settings_file_of(base: Seq<char>, host: HostV) -> Seq<char> {
    joined_path(joined_path(base, host.dir), "settings.json"@)
}

/// Tells the settings file of the host below a home or project directory.
pub fn resolve_settings_path(base: &str, host: &Host) -> (out: String)
    ensures
        out@ == settings_file_of(base@, host@),
{
    join_path(join_path(base, host.dir.as_str()).as_str(), "settings.json")
}

/// The file of the skill below a home or project directory.
pub open spec fn skill_file_of(base: Seq<char>, host: HostV) -> Seq<char> {
    joined_path(
        joined_path(joined_path(joined_path(base, host.dir), "skills"@), "witness"@),
        "SKILL.md"@,
    )
}

/// Tells the file of the skill below a home or project directory.
pub fn resolve_skill_path(base: &str, host: &Host) -> (out: String)
    ensures
        out@ == skill_file_of(base@, host@),
{
    let skills = join_path(join_path(base, host.dir.as_str()).as_str(), "skills");
    join_path(join_path(skills.as_str(), "witness").as_str(), "SKILL.md")
}

/// The name of the backup of a file.
pub open spec fn backup_name_of(file_name: Seq<char>, ts: int) -> Seq<char> {
    file_name + ".bak-"@ + decimal_int(ts)
}

/// Names the backup of a file, which stands beside it.
pub fn backup_name(file_name: &str, ts: i64) -> (out: String)
    ensures
        out@ == backup_name_of(file_name@, ts as int),
{
    file_name.to_owned().concat(".bak-").concat(decimal_i64(ts).as_str())
}

/// A backup never takes the place of the file that it is of.
pub proof fn backups_stand_beside(file_name: Seq<char>, ts: int)
    ensures
        backup_name_of(file_name, ts) != file_name,
{
    reveal_strlit(".bak-");
    assert(backup_name_of(file_name, ts).len() > file_name.len());
}

/// The sessions lie in a directory of ours below the home directory, and the socket lies
/// there too, or in one of ours below the directory for runtime files where that is set.
pub proof fn paths_lie_below_their_directories(home: Seq<char>, runtime: Seq<char>)
    requires
        home.len() > 0,
        home[home.len() - 1] != '/',
        runtime.len() > 0,
        runtime[runtime.len() - 1] != '/',
    ensures
        paths_of(home, None).sessions_root == home + "/.agent-witness/sessions"@,
        paths_of(home, Some(runtime)).sessions_root == home + "/.agent-witness/sessions"@,
        paths_of(home, None).socket == home + "/.agent-witness/witness.sock"@,
        paths_of(home, Some(Seq::empty())).socket == home + "/.agent-witness/witness.sock"@,
        paths_of(home, Some(runtime)).socket == runtime + "/agent-witness/witness.sock"@,
{
    reveal_strlit("/");
    reveal_strlit(".agent-witness");
    reveal_strlit("agent-witness");
    reveal_strlit("sessions");
    reveal_strlit("witness.sock");
    reveal_strlit("/.agent-witness/sessions");
    reveal_strlit("/.agent-witness/witness.sock");
    reveal_strlit("/agent-witness/witness.sock");
    assert("/.agent-witness/sessions"@ =~= "/"@ + ".agent-witness"@ + "/"@ + "sessions"@);
    assert("/.agent-witness/witness.sock"@ =~= "/"@ + ".agent-witness"@ + "/"@ + "witness.sock"@);
    assert("/agent-witness/witness.sock"@ =~= "/"@ + "agent-witness"@ + "/"@ + "witness.sock"@);
    let own = home + "/"@ + ".agent-witness"@;
    assert(own[own.len() - 1] == 's');
    let dir = runtime + "/"@ + "agent-witness"@;
    assert(dir[dir.len() - 1] == 's');
    assert(own + "/"@ + "sessions"@ =~= home + "/.agent-witness/sessions"@);
    assert(own + "/"@ + "witness.sock"@ =~= home + "/.agent-witness/witness.sock"@);
    assert(dir + "/"@ + "witness.sock"@ =~= runtime + "/agent-witness/witness.sock"@);
}

/// A path is joined with one separator, wherever it already ends with one.
pub proof fn paths_are_joined_by_one_separator(dir: Seq<char>, name: Seq<char>)
    requires
        dir.len() > 0,
        dir[dir.len() - 1] != '/',
    ensures
        joined_path(dir, name) == dir + "/"@ + name,
        joined_path(dir + "/"@, name) == dir + "/"@ + name,
{
    reveal_strlit("/");
    assert((dir + "/"@).last() == '/');
}

/// The settings and the skill lie in the directory of the host, below a home or a project
/// directory.
pub proof fn host_files_lie_in_its_directory(base: Seq<char>, host: HostV)
    requires
        base.len() > 0,
        base[base.len() - 1] != '/',
        host.dir.len() > 0,
        host.dir[host.dir.len() - 1] != '/',
    ensures
        settings_file_of(base, host) == base + "/"@ + host.dir + "/settings.json"@,
        skill_file_of(base, host) == base + "/"@ + host.dir + "/skills/witness/SKILL.md"@,
{
    reveal_strlit("/");
    reveal_strlit("skills");
    reveal_strlit("witness");
    reveal_strlit("SKILL.md");
    reveal_strlit("settings.json");
    reveal_strlit("/settings.json");
    reveal_strlit("/skills/witness/SKILL.md");
    let own = base + "/"@ + host.dir;
    assert(own[own.len() - 1] == host.dir[host.dir.len() - 1]);
    let skills = own + "/"@ + "skills"@;
    assert(skills[skills.len() - 1] == 's');
    let witness = skills + "/"@ + "witness"@;
    assert(witness[witness.len() - 1] == 's');
    assert("/settings.json"@ =~= "/"@ + "settings.json"@);
    assert("/skills/witness/SKILL.md"@ =~= "/"@ + "skills"@ + "/"@ + "witness"@ + "/"@
        + "SKILL.md"@);
    assert(own + "/"@ + "settings.json"@ =~= own + "/settings.json"@);
    assert(witness + "/"@ + "SKILL.md"@ =~= own + "/skills/witness/SKILL.md"@);
}

} // verus!
