use agent_witness::host::Host;
use agent_witness::project;

fn host() -> Host {
    Host {
        name: "Example Host".to_string(),
        dir: ".host".to_string(),
        site: "host.example".to_string(),
    }
}

fn project_label(cwd: &str) -> String {
    project::project_label(cwd, &host())
}

#[test]
fn plain_path_uses_its_basename() {
    assert_eq!(
        project_label("/Users/rio/workspace/projects/kakimato"),
        "kakimato"
    );
}

#[test]
fn worktree_path_uses_the_owning_repo() {
    assert_eq!(
        project_label(
            "/Users/rio/workspace/projects/kakimato/.host/worktrees/agent-a1441aa58313b993f"
        ),
        "kakimato"
    );
}

#[test]
fn worktree_subpath_is_appended_after_the_repo() {
    assert_eq!(
        project_label(
            "/Users/rio/workspace/projects/viral-loc-monorepo/.host/worktrees/agent-a486884176105b0c0/apps/nine"
        ),
        "viral-loc-monorepo/apps/nine"
    );
}

#[test]
fn trailing_slashes_are_ignored() {
    assert_eq!(project_label("/w/proj/"), "proj");
    assert_eq!(
        project_label("/w/proj/.host/worktrees/agent-1/sub/"),
        "proj/sub"
    );
}

#[test]
fn worktree_marker_without_a_repo_falls_back_to_the_basename() {
    assert_eq!(project_label("/.host/worktrees/agent-1"), "agent-1");
}

#[test]
fn root_and_empty_paths_yield_no_label() {
    assert_eq!(project_label("/"), "");
    assert_eq!(project_label(""), "");
}

#[test]
fn another_hosts_directory_is_no_marker() {
    assert_eq!(project_label("/w/proj/.other/worktrees/agent-1"), "agent-1");
}
