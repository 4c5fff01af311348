use vstd::prelude::*;
use crate::text::{spec_split, split_char, str_equal, views};

verus! {

/// What the file watcher reports.
#[derive(Debug, Clone)]
pub enum Event {
    Changed,
    Error(String),
}

/// The kind of a file-system event.
#[derive(Debug, Clone, Copy, PartialEq, Eq, Structural)]
pub enum WatchEventKind {
    Any,
    Access,
    Create,
    Modify,
    Remove,
    Other,
}

/// Every kind of event but a mere access can change the repository's state.
pub open spec fn relevant_kind(kind: WatchEventKind) -> bool {
    kind != WatchEventKind::Access
}

/// Whether an event of this kind can change what the application shows.
pub fn is_relevant_kind(kind: WatchEventKind) -> (b: bool)
    ensures
        b == relevant_kind(kind),
{
    !matches!(kind, WatchEventKind::Access)
}

/// The `'/'`-separated parts of a path that count as components: the first `n` parts,
/// without empty ones and without `.`, except a `.` that starts a relative path.
pub open spec fn part_components(parts: Seq<Seq<char>>, n: int, absolute: bool) -> Seq<Seq<char>>
    decreases n,
{
    if n <= 0 {
        Seq::empty()
    } else {
        let prev = part_components(parts, n - 1, absolute);
        let q = parts[n - 1];
        if q.len() == 0 || (q == "."@ && !(n == 1 && !absolute)) {
            prev
        } else {
            prev.push(q)
        }
    }
}

/// The components of a path: `/` for the root of an absolute path, then its parts
/// (see `part_components`).
pub open spec fn components(path: Seq<char>) -> Seq<Seq<char>> {
    let parts = spec_split(path, '/');
    let absolute = path.len() > 0 && path[0] == '/';
    let cs = part_components(parts, parts.len() as int, absolute);
    if absolute {
        seq!["/"@] + cs
    } else {
        cs
    }
}

/// A path is relevant unless it lies inside the working directory and its first
/// component there is `.git` or `target`.
pub open spec fn relevant_path(path: Seq<char>, workdir: Seq<char>) -> bool {
    let pc = components(path);
    let wc = components(workdir);
    if wc.len() <= pc.len() && pc.take(wc.len() as int) == wc {
        let rest = pc.skip(wc.len() as int);
        !(rest.len() > 0 && (rest[0] == ".git"@ || rest[0] == "target"@))
    } else {
        true
    }
}

fn path_components(path: &str) -> (r: Vec<String>)
    ensures
        crate::git::cli::string_views(r@) == components(path@),
{
    let parts = split_char(path, '/');
    let ghost ps = spec_split(path@, '/');
    let cs = crate::text::to_chars(path);
    let absolute = cs.len() > 0 && cs[0] == '/';
    let dot = ".";
    let root = "/";
    proof {
        reveal_strlit(".");
        reveal_strlit("/");
    }
    let mut r: Vec<String> = Vec::new();
    if absolute {
        r.push(root.to_owned());
    }
    let ghost base = crate::git::cli::string_views(r@);
    let mut i: usize = 0;
    proof {
        assert(views(parts@) == ps);
        assert(base + part_components(ps, 0, absolute) =~= base);
    }
    while i < parts.len()
        invariant
            views(parts@) == ps,
            i <= parts@.len(),
            absolute == (path@.len() > 0 && path@[0] == '/'),
            crate::git::cli::string_views(r@) == base + part_components(ps, i as int, absolute),
            dot@ == "."@,
        decreases parts@.len() - i,
    {
        let q = parts[i];
        let ghost before = crate::git::cli::string_views(r@);
        proof {
            assert(ps[i as int] == q@);
        }
        let skip = q.is_empty() || (str_equal(q, dot) && !(i == 0 && !absolute));
        if !skip {
            r.push(q.to_owned());
            proof {
                assert(crate::git::cli::string_views(r@) =~= before.push(q@));
            }
        }
        i = i + 1;
    }
    proof {
        if absolute {
            assert(crate::git::cli::string_views(r@) =~= components(path@));
        }
    }
    r
}

/// Whether a change at `path` matters to the repository checked out at `workdir` (see
/// `relevant_path`).
pub fn is_relevant_path(path: &str, workdir: &str) -> (b: bool)
    ensures
        b == relevant_path(path@, workdir@),
{
    let pc = path_components(path);
    let wc = path_components(workdir);
    let ghost pv = crate::git::cli::string_views(pc@);
    let ghost wv = crate::git::cli::string_views(wc@);
    if wc.len() > pc.len() {
        return true;
    }
    let mut i: usize = 0;
    while i < wc.len()
        invariant
            wc@.len() <= pc@.len(),
            pv == crate::git::cli::string_views(pc@),
            wv == crate::git::cli::string_views(wc@),
            pv == components(path@),
            wv == components(workdir@),
            i <= wc@.len(),
            forall|k: int| 0 <= k < i ==> pv[k] == wv[k],
        decreases wc@.len() - i,
    {
        if !(pc[i] == wc[i]) {
            proof {
                assert(pv.take(wv.len() as int)[i as int] != wv[i as int]);
            }
            return true;
        }
        i = i + 1;
    }
    proof {
        assert(pv.take(wv.len() as int) =~= wv);
    }
    if pc.len() == wc.len() {
        return true;
    }
    let first = pc[wc.len()].as_str();
    proof {
        assert(pv.skip(wv.len() as int)[0] == first@);
    }
    !(str_equal(first, ".git") || str_equal(first, "target"))
}

/// Whether an event matters: its kind can change the repository's state and one of its
/// paths is relevant.
pub fn is_relevant_event(kind: WatchEventKind, paths: &Vec<String>, workdir: &str) -> (b: bool)
    ensures
        b == (relevant_kind(kind) && exists|k: int|
            0 <= k < paths@.len() && relevant_path(#[trigger] paths@[k]@, workdir@)),
{
    if !is_relevant_kind(kind) {
        return false;
    }
    let mut i: usize = 0;
    while i < paths.len()
        invariant
            relevant_kind(kind),
            i <= paths@.len(),
            forall|k: int| 0 <= k < i ==> !relevant_path(#[trigger] paths@[k]@, workdir@),
        decreases paths@.len() - i,
    {
        if is_relevant_path(paths[i].as_str(), workdir) {
            proof {
                assert(relevant_path(paths@[i as int]@, workdir@));
            }
            return true;
        }
        i = i + 1;
    }
    false
}

} // verus!
