//! The program whose hooks are recorded: what it is called, and where it keeps
//! its files.
use vstd::prelude::*;

verus! {

/// The host program.
#[derive(Debug, Clone, PartialEq, Eq)]
pub struct Host {
    /// What it is called.
    pub name: String,
    /// The name of the directory that holds its settings.
    pub dir: String,
    /// The site that hosted servers are connected through.
    pub site: String,
}

/// The contents of a [`Host`].
pub ghost struct HostV {
    pub name: Seq<char>,
    pub dir: Seq<char>,
    pub site: Seq<char>,
}

impl View for Host {
    type V = HostV;

    open spec fn view(&self) -> HostV {
        HostV { name: self.name@, dir: self.dir@, site: self.site@ }
    }
}

impl HostV {
    /// What stands in a path between a repository and the id of a worktree.
    pub open spec fn worktrees_mark(self) -> Seq<char> {
        "/"@ + self.dir + "/worktrees/"@
    }

    /// The file in the home directory that names servers.
    pub open spec fn servers_file(self) -> Seq<char> {
        self.dir + ".json"@
    }
}

impl Host {
    /// What stands in a path between a repository and the id of a worktree.
    pub fn worktrees_mark(&self) -> (out: String)
        ensures
            out@ == self@.worktrees_mark(),
    {
        "/".to_owned().concat(self.dir.as_str()).concat("/worktrees/")
    }

    /// The file in the home directory that names servers.
    pub fn servers_file(&self) -> (out: String)
        ensures
            out@ == self@.servers_file(),
    {
        self.dir.clone().concat(".json")
    }
}

} // verus!
