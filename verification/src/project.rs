//! The project label of a working directory.
//!
//! A worktree lies at `<repo>/<host dir>/worktrees/<worktree-id>[/sub]`, and its id
//! names no project. Such a path is labelled by the repository ahead of the
//! marker, with the path below the worktree.
use vstd::prelude::*;

use crate::host::{Host, HostV};
use crate::split::{
    a_cut_parts_the_pieces, join, joined, joined_texts_hold_their_parts, pieces, split,
    uncut_texts_are_one_piece, Cut,
};
use crate::text::{chars_of, find, first_at, has_text, same, substring, views};

verus! {

/// `s` without the separators at its end.
pub open spec fn without_slashes(s: Seq<char>) -> Seq<char>
    decreases s.len(),
{
    if s.len() > 0 && s.last() == '/' {
        without_slashes(s.drop_last())
    } else {
        s
    }
}

/// The parts that are not empty and, where `named` is set, do not stand for the
/// directory itself.
pub open spec fn kept_parts(parts: Seq<Seq<char>>, named: bool) -> Seq<Seq<char>>
    decreases parts.len(),
{
    if parts.len() == 0 {
        parts
    } else {
        let before = kept_parts(parts.drop_last(), named);
        if parts.last().len() == 0 || (named && parts.last() == "."@) {
            before
        } else {
            before.push(parts.last())
        }
    }
}

/// The components of a path that name something: all but the empty ones and
/// those that stand for the directory itself.
pub open spec fn named_components(path: Seq<char>) -> Seq<Seq<char>> {
    kept_parts(pieces(path, Cut::At('/')), true)
}

/// The last component of a path, or the path itself where that names no file.
pub open spec fn last_component(path: Seq<char>) -> Seq<char> {
    let c = named_components(path);
    if c.len() == 0 || c.last() == ".."@ {
        path
    } else {
        c.last()
    }
}

/// The components below the worktree id.
pub open spec fn below_worktree(rest: Seq<char>) -> Seq<Seq<char>> {
    kept_parts(pieces(rest, Cut::At('/')).skip(1), false)
}

/// The position of the worktree marker.
pub open spec fn marker_at(path: Seq<char>, mark: Seq<char>) -> Option<int> {
    if has_text(path, mark) {
        Some(choose|k: int| first_at(path, mark, k))
    } else {
        None
    }
}

/// The label of a path with its marker at `k`.
pub open spec fn worktree_label(path: Seq<char>, mark: Seq<char>, k: int) -> Seq<char> {
    let repo = pieces(path.take(k), Cut::At('/')).last();
    let tail = below_worktree(path.skip(k + mark.len()));
    if repo.len() == 0 {
        last_component(path)
    } else if tail.len() == 0 {
        repo
    } else {
        repo + "/"@ + joined(tail, "/"@)
    }
}

/// The project label of a working directory.
pub open spec fn label_of(cwd: Seq<char>, host: HostV) -> Seq<char> {
    let path = without_slashes(cwd);
    let mark = host.worktrees_mark();
    match marker_at(path, mark) {
        Some(k) => worktree_label(path, mark, k),
        None => last_component(path),
    }
}

/// The first occurrence of a text is the one that is chosen.
pub proof fn lemma_first_at_unique(s: Seq<char>, pat: Seq<char>, k: int)
    requires
        first_at(s, pat, k),
    ensures
        has_text(s, pat),
        (choose|j: int| first_at(s, pat, j)) == k,
{
    let c = choose|j: int| first_at(s, pat, j);
    assert(first_at(s, pat, c));
    if c < k {
        assert(!crate::text::occurs_at(s, pat, c));
    } else if k < c {
        assert(!crate::text::occurs_at(s, pat, k));
    }
}

fn strip_slashes(v: &Vec<char>) -> (k: usize)
    ensures
        k <= v@.len(),
        without_slashes(v@) == v@.take(k as int),
{
    let mut k: usize = v.len();
    proof {
        assert(v@.take(k as int) =~= v@);
    }
    while k > 0 && v[k - 1] == '/'
        invariant
            k <= v@.len(),
            without_slashes(v@) == without_slashes(v@.take(k as int)),
        decreases k,
    {
        proof {
            assert(v@.take(k as int).drop_last() =~= v@.take(k - 1));
        }
        k = k - 1;
    }
    k
}

/// The components from `from` on that are not empty and, where `named` is set,
/// not the directory itself.
fn keep_components(parts: &Vec<String>, from: usize, named: bool) -> (out: Vec<String>)
    requires
        from <= parts@.len(),
    ensures
        views(out@) == kept_parts(views(parts@).skip(from as int), named),
{
    let ghost all = views(parts@).skip(from as int);
    let mut out: Vec<String> = Vec::new();
    proof {
        assert(views(out@) =~= kept_parts(all.take(0), named));
    }
    for i in from..parts.len()
        invariant
            from <= parts@.len(),
            all == views(parts@).skip(from as int),
            views(out@) == kept_parts(all.take(i - from), named),
    {
        proof {
            assert(all.take(i + 1 - from).drop_last() =~= all.take(i - from));
            assert(all.take(i + 1 - from).last() == parts@[i as int]@);
        }
        let s = parts[i].as_str();
        let ghost out0 = out@;
        if !s.is_empty() && (!named || !same(s, ".")) {
            out.push(s.to_owned());
            proof {
                assert(views(out@) =~= views(out0).push(s@));
            }
        }
    }
    proof {
        assert(all.take(all.len() as int) =~= all);
    }
    out
}

pub(crate) fn basename(path: &str) -> (out: String)
    ensures
        out@ == last_component(path@),
{
    let parts = split(path, Cut::At('/'));
    let named = keep_components(&parts, 0, true);
    proof {
        assert(views(parts@).skip(0) =~= views(parts@));
    }
    let n: usize = named.len();
    if n == 0 {
        return path.to_owned();
    }
    proof {
        assert(views(named@).last() == named@[n - 1]@);
    }
    if same(named[n - 1].as_str(), "..") {
        path.to_owned()
    } else {
        named[n - 1].clone()
    }
}

/// The human-facing project label of a recorded working directory.
///
/// A plain path has its last component; a worktree path has the repository that
/// owns the worktree.
pub fn project_label(cwd: &str, host: &Host) -> (out: String)
    ensures
        out@ == label_of(cwd@, host@),
{
    let v = chars_of(cwd);
    let end: usize = strip_slashes(&v);
    let path = substring(&v, 0, end);
    let pv = chars_of(path.as_str());
    proof {
        assert(path@ =~= v@.take(end as int));
    }
    let mark = host.worktrees_mark();
    let marker = chars_of(mark.as_str());
    match find(&pv, &marker) {
        Some(k) => {
            proof {
                lemma_first_at_unique(path@, mark@, k as int);
            }
            let base = substring(&pv, 0, k);
            proof {
                assert(base@ =~= path@.take(k as int));
            }
            let parts = split(base.as_str(), Cut::At('/'));
            let n: usize = parts.len();
            proof {
                assert(views(parts@).last() == parts@[n - 1]@);
            }
            let repo = parts[n - 1].clone();
            if repo.as_str().is_empty() {
                return basename(path.as_str());
            }
            let from: usize = k + marker.len();
            let rest = substring(&pv, from, pv.len());
            proof {
                assert(rest@ =~= path@.skip(from as int));
            }
            let below = split(rest.as_str(), Cut::At('/'));
            let tail = keep_components(&below, 1, false);
            proof {
                assert(views(tail@).len() == tail@.len());
            }
            if tail.len() == 0 {
                repo
            } else {
                repo.concat("/").concat(join(&tail, "/").as_str())
            }
        },
        None => basename(path.as_str()),
    }
}

// ---------------------------------------------------------------------------
// Laws
// ---------------------------------------------------------------------------

/// Whether a text is the name of one component: not empty, and without a separator.
pub open spec fn is_one_component(name: Seq<char>) -> bool {
    name.len() > 0 && forall|i: int| 0 <= i < name.len() ==> #[trigger] name[i] != '/'
}

proof fn lemma_last_piece(dir: Seq<char>, name: Seq<char>)
    requires
        is_one_component(name),
    ensures
        pieces(dir.push('/') + name, Cut::At('/')) == pieces(dir, Cut::At('/')).push(name),
        pieces(name, Cut::At('/')) == seq![name],
{
    let cut = Cut::At('/');
    assert(cut.cuts('/'));
    a_cut_parts_the_pieces(dir, '/', name, cut);
    uncut_texts_are_one_piece(name, cut);
    assert(pieces(dir, cut) + seq![name] =~= pieces(dir, cut).push(name));
}

/// The last component of a path is what stands behind its last separator, or the path itself
/// where it has none.
pub proof fn the_last_component_stands_behind_the_last_separator(dir: Seq<char>, name: Seq<char>)
    requires
        is_one_component(name),
        name != "."@,
        name != ".."@,
    ensures
        last_component(dir.push('/') + name) == name,
        last_component(name) == name,
{
    let cut = Cut::At('/');
    lemma_last_piece(dir, name);
    let p = pieces(dir, cut).push(name);
    assert(p.drop_last() =~= pieces(dir, cut));
    let one = seq![name];
    assert(one.drop_last().len() == 0);
    assert(kept_parts(one, true).last() == name);
}

/// Separators at the end of a path are no matter to its label.
pub proof fn separators_at_the_end_are_no_matter(cwd: Seq<char>, host: HostV)
    ensures
        label_of(cwd.push('/'), host) == label_of(cwd, host),
{
    assert(cwd.push('/').drop_last() =~= cwd);
}

/// A path outside the worktrees is labelled by its last component.
pub proof fn plain_paths_are_labelled_by_their_last_component(
    dir: Seq<char>,
    name: Seq<char>,
    host: HostV,
)
    requires
        is_one_component(name),
        name != "."@,
        name != ".."@,
        !has_text(dir.push('/') + name, "/"@ + host.dir + "/worktrees/"@),
    ensures
        label_of(dir.push('/') + name, host) == name,
{
    let path = dir.push('/') + name;
    assert(path.last() == name[name.len() - 1]);
    assert(name[name.len() - 1] != '/');
    the_last_component_stands_behind_the_last_separator(dir, name);
}

/// A worktree is labelled by the repository that it is of, whatever its id is, and a
/// directory below it by the repository and its own name.
pub proof fn worktrees_are_labelled_by_their_repository(
    base: Seq<char>,
    repo: Seq<char>,
    id: Seq<char>,
    sub: Seq<char>,
    host: HostV,
)
    requires
        is_one_component(repo),
        is_one_component(id),
        is_one_component(sub),
        first_at(
            base.push('/') + repo + ("/"@ + host.dir + "/worktrees/"@) + id,
            "/"@ + host.dir + "/worktrees/"@,
            1int + base.len() + repo.len(),
        ),
        first_at(
            base.push('/') + repo + ("/"@ + host.dir + "/worktrees/"@) + (id.push('/') + sub),
            "/"@ + host.dir + "/worktrees/"@,
            1int + base.len() + repo.len(),
        ),
    ensures
        label_of(base.push('/') + repo + ("/"@ + host.dir + "/worktrees/"@) + id, host) == repo,
        label_of(
            base.push('/') + repo + ("/"@ + host.dir + "/worktrees/"@) + (id.push('/') + sub),
            host,
        ) == repo + "/"@ + sub,
{
    let mark = "/"@ + host.dir + "/worktrees/"@;
    assert(mark == host.worktrees_mark());
    let k = 1int + base.len() + repo.len();
    let head = base.push('/') + repo;
    let a = head + mark + id;
    let b = head + mark + (id.push('/') + sub);
    assert(a.last() == id[id.len() - 1] && id[id.len() - 1] != '/');
    assert(b.last() == sub[sub.len() - 1] && sub[sub.len() - 1] != '/');
    lemma_first_at_unique(a, mark, k);
    lemma_first_at_unique(b, mark, k);
    assert(a.take(k) =~= head);
    assert(b.take(k) =~= head);
    assert(a.skip(k + mark.len()) =~= id);
    assert(b.skip(k + mark.len()) =~= id.push('/') + sub);
    lemma_last_piece(base, repo);
    lemma_last_piece(id, sub);
    lemma_last_piece(base, id);
    let cut = Cut::At('/');
    assert(pieces(id, cut).skip(1) =~= Seq::<Seq<char>>::empty());
    let two = pieces(id.push('/') + sub, cut);
    assert(two =~= seq![id, sub]);
    assert(two.skip(1) =~= seq![sub]);
    let one = seq![sub];
    assert(one.drop_last().len() == 0);
    assert(kept_parts(one.drop_last(), false).len() == 0);
    assert(kept_parts(one, false) == kept_parts(one.drop_last(), false).push(sub));
    assert(kept_parts(one, false) =~= one);
    joined_texts_hold_their_parts(Seq::empty(), sub, "/"@);
}

} // verus!
