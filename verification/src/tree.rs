use vstd::prelude::*;
use vstd::multiset::Multiset;
use crate::git::diff::{ChangedFile, FileStatus};
use crate::text::{
    lemma_seq_lt_irreflexive, lemma_seq_lt_total, lemma_seq_lt_transitive, lt_chars, seq_lt, spec_split,
    split_char, to_chars, views,
};

verus! {

/// A file in the sidebar tree.
#[derive(Debug, Clone)]
pub struct TreeFile {
    /// Index of the file in the list of changed files.
    pub index: usize,
    pub name: String,
    pub status: FileStatus,
}

/// A directory in the sidebar tree. Its subdirectories are kept in ascending order of
/// name, one per name.
pub struct TreeDir {
    pub name: String,
    pub path: String,
    pub dirs: Vec<TreeDir>,
    pub files: Vec<TreeFile>,
}

/// A file of the tree by its values.
pub struct FileNode {
    pub index: usize,
    pub name: Seq<char>,
    pub status: FileStatus,
}

/// A directory of the tree by its values.
pub struct DirNode {
    pub name: Seq<char>,
    pub path: Seq<char>,
    pub dirs: Seq<DirNode>,
    pub files: Seq<FileNode>,
}

/// The values of a file.
pub open spec fn view_file(f: TreeFile) -> FileNode {
    FileNode { index: f.index, name: f.name@, status: f.status }
}

/// The values of a list of files.
pub open spec fn view_files(v: Seq<TreeFile>) -> Seq<FileNode> {
    v.map_values(|f: TreeFile| view_file(f))
}

/// The values of a directory.
pub open spec fn view_dir(d: TreeDir) -> DirNode
    decreases d,
{
    DirNode { name: d.name@, path: d.path@, dirs: view_dirs(d.dirs@), files: view_files(d.files@) }
}

/// The values of a list of directories.
pub open spec fn view_dirs(v: Seq<TreeDir>) -> Seq<DirNode>
    decreases v,
{
    if v.len() == 0 {
        Seq::empty()
    } else {
        seq![view_dir(v[0])] + view_dirs(v.drop_first())
    }
}

impl View for TreeDir {
    type V = DirNode;

    open spec fn view(&self) -> DirNode {
        view_dir(*self)
    }
}

/// `view_dirs` maps every directory by `view_dir`.
pub proof fn lemma_view_dirs(v: Seq<TreeDir>)
    ensures
        view_dirs(v) == v.map_values(|d: TreeDir| view_dir(d)),
    decreases v.len(),
{
    if v.len() > 0 {
        lemma_view_dirs(v.drop_first());
        assert(view_dirs(v) =~= v.map_values(|d: TreeDir| view_dir(d)));
    } else {
        assert(view_dirs(v) =~= v.map_values(|d: TreeDir| view_dir(d)));
    }
}

/// `name` below the directory `current`: `current/name`, or `name` when `current` is empty.
pub open spec fn join_path(current: Seq<char>, name: Seq<char>) -> Seq<char> {
    if current.len() == 0 {
        name
    } else {
        current + seq!['/'] + name
    }
}

/// Number of leading directories whose names come before `name`.
pub open spec fn lower_bound(dirs: Seq<DirNode>, name: Seq<char>) -> int
    decreases dirs.len(),
{
    if dirs.len() == 0 || !seq_lt(dirs[0].name, name) {
        0
    } else {
        1 + lower_bound(dirs.drop_first(), name)
    }
}

/// A directory without contents.
pub open spec fn empty_dir(name: Seq<char>, path: Seq<char>) -> DirNode {
    DirNode { name, path, dirs: Seq::empty(), files: Seq::empty() }
}

/// `d` with the file at the relative path `parts` (below the directory at `current`)
/// added: missing directories are created at their place in name order.
pub open spec fn model_insert(
    d: DirNode,
    parts: Seq<Seq<char>>,
    current: Seq<char>,
    index: usize,
    status: FileStatus,
) -> DirNode
    decreases parts.len(),
{
    if parts.len() <= 1 {
        DirNode {
            name: d.name,
            path: d.path,
            dirs: d.dirs,
            files: d.files.push(FileNode { index, name: parts[0], status }),
        }
    } else {
        let name = parts[0];
        let path = join_path(current, name);
        let p = lower_bound(d.dirs, name);
        if p < d.dirs.len() && d.dirs[p].name == name {
            DirNode {
                name: d.name,
                path: d.path,
                dirs: d.dirs.update(
                    p,
                    model_insert(d.dirs[p], parts.drop_first(), path, index, status),
                ),
                files: d.files,
            }
        } else {
            DirNode {
                name: d.name,
                path: d.path,
                dirs: d.dirs.insert(
                    p,
                    model_insert(empty_dir(name, path), parts.drop_first(), path, index, status),
                ),
                files: d.files,
            }
        }
    }
}

proof fn lemma_lower_bound(dirs: Seq<DirNode>, name: Seq<char>, p: int)
    requires
        0 <= p <= dirs.len(),
        forall|k: int| 0 <= k < p ==> seq_lt(dirs[k].name, name),
        p < dirs.len() ==> !seq_lt(dirs[p].name, name),
    ensures
        lower_bound(dirs, name) == p,
    decreases p,
{
    if p > 0 {
        lemma_lower_bound(dirs.drop_first(), name, p - 1);
    }
}

fn join_path_exec(current: &String, name: &str) -> (r: String)
    ensures
        r@ == join_path(current@, name@),
{
    if current.as_str().is_empty() {
        name.to_owned()
    } else {
        let mut s = current.clone();
        crate::text::push_char(&mut s, '/');
        crate::text::push_str(&mut s, name);
        s
    }
}

impl TreeDir {
    /// An empty root directory.
    pub fn root() -> (r: Self)
        ensures
            r@ == empty_dir(Seq::empty(), Seq::empty()),
    {
        let r = TreeDir { name: String::new(), path: String::new(), dirs: Vec::new(), files: Vec::new() };
        proof {
            assert(view_dirs(r.dirs@) =~= Seq::<DirNode>::empty());
            assert(view_files(r.files@) =~= Seq::<FileNode>::empty());
        }
        r
    }

    fn insert_parts(
        &mut self,
        index: usize,
        status: FileStatus,
        parts: &Vec<&str>,
        start: usize,
        current_path: String,
    )
        requires
            start < parts@.len(),
        ensures
            final(self)@ == model_insert(
                old(self)@,
                views(parts@).skip(start as int),
                current_path@,
                index,
                status,
            ),
        decreases parts@.len() - start,
    {
        let ghost rest = views(parts@).skip(start as int);
        if start == parts.len() - 1 {
            let ghost before = self.files@;
            self.files.push(TreeFile { index, name: parts[start].to_owned(), status });
            proof {
                assert(view_files(self.files@) =~= view_files(before).push(
                    FileNode { index, name: rest[0], status },
                ));
            }
            return;
        }
        let dir_name = parts[start];
        let dir_path = join_path_exec(&current_path, dir_name);
        let key = to_chars(dir_name);
        let mut p: usize = 0;
        proof {
            lemma_view_dirs(self.dirs@);
        }
        while p < self.dirs.len() && lt_chars(&to_chars(self.dirs[p].name.as_str()), &key)
            invariant
                key@ == dir_name@,
                p <= self.dirs@.len(),
                forall|k: int| 0 <= k < p ==> seq_lt(self.dirs@[k].name@, dir_name@),
            decreases self.dirs@.len() - p,
        {
            p = p + 1;
        }
        proof {
            lemma_lower_bound(view_dirs(self.dirs@), dir_name@, p as int);
            assert(rest[0] == dir_name@);
            assert(rest.drop_first() =~= views(parts@).skip(start + 1));
        }
        let existing = p < self.dirs.len() && {
            let k2 = to_chars(self.dirs[p].name.as_str());
            !lt_chars(&key, &k2)
        };
        if existing {
            proof {
                lemma_seq_lt_total(self.dirs@[p as int].name@, dir_name@);
            }
            let ghost old_dirs = self.dirs@;
            let mut child = self.dirs.remove(p);
            child.insert_parts(index, status, parts, start + 1, dir_path);
            self.dirs.insert(p, child);
            proof {
                lemma_view_dirs(old_dirs);
                lemma_view_dirs(self.dirs@);
                assert(view_dirs(self.dirs@) =~= view_dirs(old_dirs).update(p as int, view_dir(child)));
            }
        } else {
            proof {
                if p < self.dirs@.len() {
                    lemma_seq_lt_total(self.dirs@[p as int].name@, dir_name@);
                }
            }
            let ghost old_dirs = self.dirs@;
            let mut child = TreeDir {
                name: dir_name.to_owned(),
                path: dir_path.clone(),
                dirs: Vec::new(),
                files: Vec::new(),
            };
            proof {
                assert(view_dirs(child.dirs@) =~= Seq::<DirNode>::empty());
                assert(view_files(child.files@) =~= Seq::<FileNode>::empty());
            }
            child.insert_parts(index, status, parts, start + 1, dir_path);
            self.dirs.insert(p, child);
            proof {
                lemma_view_dirs(old_dirs);
                lemma_view_dirs(self.dirs@);
                assert(view_dirs(self.dirs@) =~= view_dirs(old_dirs).insert(p as int, view_dir(child)));
            }
        }
    }

    /// Adds `file`, as number `index` of the changed files, at its path (split at `'/'`).
    pub fn insert_file(&mut self, index: usize, file: &ChangedFile)
        ensures
            final(self)@ == model_insert(
                old(self)@,
                spec_split(file.path@, '/'),
                Seq::empty(),
                index,
                file.status,
            ),
    {
        let parts = split_char(file.path.as_str(), '/');
        proof {
            assert(views(parts@).skip(0) =~= views(parts@));
        }
        self.insert_parts(index, file.status, &parts, 0, String::new());
    }
}

} // verus!

verus! {

/// Inserts `f` into the name-sorted `s` after every file whose name does not come
/// after its own (so files of equal name keep their order).
pub open spec fn insert_by_name(s: Seq<FileNode>, f: FileNode) -> Seq<FileNode>
    decreases s.len(),
{
    if s.len() == 0 {
        seq![f]
    } else if seq_lt(f.name, s.last().name) {
        insert_by_name(s.drop_last(), f).push(s.last())
    } else {
        s.push(f)
    }
}

/// The files in ascending name order, files of equal name in their original order
/// (a stable sort by name).
pub open spec fn sort_by_name(fs: Seq<FileNode>) -> Seq<FileNode>
    decreases fs.len(),
{
    if fs.len() == 0 {
        Seq::empty()
    } else {
        insert_by_name(sort_by_name(fs.drop_last()), fs.last())
    }
}

/// `d` with the files of every directory sorted by name.
pub open spec fn model_sort(d: DirNode) -> DirNode
    decreases d,
{
    DirNode { name: d.name, path: d.path, dirs: model_sort_all(d.dirs), files: sort_by_name(d.files) }
}

/// `model_sort` of each directory.
pub open spec fn model_sort_all(v: Seq<DirNode>) -> Seq<DirNode>
    decreases v,
{
    if v.len() == 0 {
        Seq::empty()
    } else {
        seq![model_sort(v[0])] + model_sort_all(v.drop_first())
    }
}

pub proof fn lemma_model_sort_all(v: Seq<DirNode>)
    ensures
        model_sort_all(v) == v.map_values(|d: DirNode| model_sort(d)),
    decreases v.len(),
{
    if v.len() > 0 {
        lemma_model_sort_all(v.drop_first());
    }
    assert(model_sort_all(v) =~= v.map_values(|d: DirNode| model_sort(d)));
}

proof fn lemma_insert_by_name(s: Seq<FileNode>, f: FileNode, q: int)
    requires
        0 <= q <= s.len(),
        forall|k: int| q <= k < s.len() ==> seq_lt(f.name, s[k].name),
        q > 0 ==> !seq_lt(f.name, s[q - 1].name),
    ensures
        insert_by_name(s, f) == s.take(q) + seq![f] + s.skip(q),
    decreases s.len(),
{
    if s.len() == 0 {
        assert(s.take(q) + seq![f] + s.skip(q) =~= seq![f]);
    } else if q == s.len() {
        assert(s.take(q) + seq![f] + s.skip(q) =~= s.push(f));
    } else {
        lemma_insert_by_name(s.drop_last(), f, q);
        assert(s.drop_last().take(q) + seq![f] + s.drop_last().skip(q) + seq![s.last()] =~= s.take(q)
            + seq![f] + s.skip(q));
    }
}

fn copy_tree_file(f: &TreeFile) -> (g: TreeFile)
    ensures
        view_file(g) == view_file(*f),
{
    TreeFile { index: f.index, name: f.name.clone(), status: f.status }
}

fn sort_files_by_name(files: &Vec<TreeFile>) -> (r: Vec<TreeFile>)
    ensures
        view_files(r@) == sort_by_name(view_files(files@)),
{
    let mut out: Vec<TreeFile> = Vec::new();
    let mut keys: Vec<Vec<char>> = Vec::new();
    let mut i: usize = 0;
    proof {
        assert(view_files(out@) =~= Seq::<FileNode>::empty());
        assert(view_files(files@).take(0) =~= Seq::<FileNode>::empty());
    }
    while i < files.len()
        invariant
            i <= files@.len(),
            keys@.len() == out@.len(),
            forall|k: int| 0 <= k < out@.len() ==> #[trigger] keys@[k]@ == out@[k].name@,
            view_files(out@) == sort_by_name(view_files(files@).take(i as int)),
        decreases files@.len() - i,
    {
        let f = copy_tree_file(&files[i]);
        let key = to_chars(f.name.as_str());
        let mut q: usize = out.len();
        while q > 0 && lt_chars(&key, &keys[q - 1])
            invariant
                q <= out@.len(),
                keys@.len() == out@.len(),
                forall|k: int| 0 <= k < out@.len() ==> #[trigger] keys@[k]@ == out@[k].name@,
                key@ == f.name@,
                forall|k: int| q <= k < out@.len() ==> seq_lt(f.name@, out@[k].name@),
            decreases q,
        {
            q = q - 1;
        }
        let ghost before = view_files(out@);
        proof {
            lemma_insert_by_name(before, view_file(f), q as int);
            assert(view_files(files@).take(i + 1).drop_last() =~= view_files(files@).take(i as int));
            assert(view_files(files@).take(i + 1).last() == view_file(f));
        }
        let ghost out_before = out@;
        out.insert(q, f);
        keys.insert(q, key);
        proof {
            assert(view_files(out@) =~= before.take(q as int) + seq![view_file(f)] + before.skip(q as int));
            assert forall|k: int| 0 <= k < out@.len() implies #[trigger] keys@[k]@ == out@[k].name@ by {
            }
        }
        i = i + 1;
    }
    proof {
        assert(view_files(files@).take(files@.len() as int) =~= view_files(files@));
    }
    out
}

impl TreeDir {
    /// Sorts the files of every directory by name (stably).
    pub fn sort_files_recursive(&mut self)
        ensures
            final(self)@ == model_sort(old(self)@),
        decreases *old(self),
    {
        let sorted = sort_files_by_name(&self.files);
        self.files = sorted;
        let mut k: usize = 0;
        let ghost orig = self.dirs@;
        proof {
            lemma_view_dirs(orig);
        }
        while k < self.dirs.len()
            invariant
                orig == old(self).dirs@,
                self.name == old(self).name,
                self.path == old(self).path,
                view_files(self.files@) == sort_by_name(view_files(old(self).files@)),
                self.dirs@.len() == orig.len(),
                k <= orig.len(),
                forall|j: int| 0 <= j < k ==> view_dir(#[trigger] self.dirs@[j]) == model_sort(view_dir(orig[j])),
                forall|j: int| k <= j < orig.len() ==> #[trigger] self.dirs@[j] == orig[j],
            decreases orig.len() - k,
        {
            let mut child = self.dirs.remove(k);
            proof {
                assert(child == orig[k as int]);
                lemma_view_dirs(orig);
                assert(view_dirs(orig)[k as int] == view_dir(child));
                assert(decreases_to!(*old(self) => old(self).dirs));
                assert(decreases_to!(old(self).dirs => old(self).dirs@));
                assert(decreases_to!(old(self).dirs@ => old(self).dirs@[k as int]));
            }
            child.sort_files_recursive();
            self.dirs.insert(k, child);
            k = k + 1;
        }
        proof {
            lemma_view_dirs(self.dirs@);
            lemma_view_dirs(orig);
            lemma_model_sort_all(view_dirs(orig));
            assert(view_dirs(self.dirs@) =~= model_sort_all(view_dirs(orig)));
            assert(self.name@ == old(self).name@);
            assert(self@.files == model_sort(old(self)@).files);
            assert(self@.dirs == model_sort(old(self)@).dirs);
        }
    }
}

} // verus!

verus! {

/// A directory whose only content is one subdirectory.
pub open spec fn is_lone(x: DirNode) -> bool {
    x.dirs.len() == 1 && x.files.len() == 0
}

/// A lone directory merged with its subdirectory: named `x/child`, with the path and
/// the contents of the subdirectory.
pub open spec fn merged(x: DirNode) -> DirNode {
    let c = x.dirs[0];
    DirNode { name: x.name + seq!['/'] + c.name, path: c.path, dirs: c.dirs, files: c.files }
}

/// The position of the directory named `name`, or -1 (a lookup in the name order).
pub open spec fn lookup(dirs: Seq<DirNode>, name: Seq<char>) -> int {
    let p = lower_bound(dirs, name);
    if p < dirs.len() && dirs[p].name == name {
        p
    } else {
        -1
    }
}

/// `m` put in its place in name order, replacing a directory of the same name.
pub open spec fn place_dir(dirs: Seq<DirNode>, m: DirNode) -> Seq<DirNode> {
    let p = lower_bound(dirs, m.name);
    if p < dirs.len() && dirs[p].name == m.name {
        dirs.update(p, m)
    } else {
        dirs.insert(p, m)
    }
}

/// The directory named `key`, when it is lone, replaced by its merge.
pub open spec fn merge_step(dirs: Seq<DirNode>, key: Seq<char>) -> Seq<DirNode> {
    let i = lookup(dirs, key);
    if i >= 0 && is_lone(dirs[i]) {
        place_dir(dirs.remove(i), merged(dirs[i]))
    } else {
        dirs
    }
}

/// `merge_step` for each of `keys` in turn.
pub open spec fn merge_keys(dirs: Seq<DirNode>, keys: Seq<Seq<char>>) -> Seq<DirNode>
    decreases keys.len(),
{
    if keys.len() == 0 {
        dirs
    } else {
        merge_keys(merge_step(dirs, keys[0]), keys.drop_first())
    }
}

/// The names of the directories.
pub open spec fn dir_names(dirs: Seq<DirNode>) -> Seq<Seq<char>> {
    dirs.map_values(|d: DirNode| d.name)
}

/// `d` with chains of lone directories collapsed: first in every subdirectory, then
/// each lone subdirectory of `d` (in name order) merged with its own subdirectory.
pub open spec fn model_collapse(d: DirNode) -> DirNode
    decreases d,
{
    let cs = model_collapse_all(d.dirs);
    DirNode { name: d.name, path: d.path, dirs: merge_keys(cs, dir_names(cs)), files: d.files }
}

/// `model_collapse` of each directory.
pub open spec fn model_collapse_all(v: Seq<DirNode>) -> Seq<DirNode>
    decreases v,
{
    if v.len() == 0 {
        Seq::empty()
    } else {
        seq![model_collapse(v[0])] + model_collapse_all(v.drop_first())
    }
}

pub proof fn lemma_model_collapse_all(v: Seq<DirNode>)
    ensures
        model_collapse_all(v) == v.map_values(|d: DirNode| model_collapse(d)),
    decreases v.len(),
{
    if v.len() > 0 {
        lemma_model_collapse_all(v.drop_first());
    }
    assert(model_collapse_all(v) =~= v.map_values(|d: DirNode| model_collapse(d)));
}

fn lower_bound_exec(dirs: &Vec<TreeDir>, key: &Vec<char>) -> (p: usize)
    ensures
        p as int == lower_bound(view_dirs(dirs@), key@),
        p <= dirs@.len(),
{
    let mut p: usize = 0;
    proof {
        lemma_view_dirs(dirs@);
    }
    while p < dirs.len() && lt_chars(&to_chars(dirs[p].name.as_str()), key)
        invariant
            p <= dirs@.len(),
            forall|k: int| 0 <= k < p ==> seq_lt(dirs@[k].name@, key@),
        decreases dirs@.len() - p,
    {
        p = p + 1;
    }
    proof {
        lemma_lower_bound(view_dirs(dirs@), key@, p as int);
    }
    p
}

fn same_name(d: &TreeDir, key: &Vec<char>) -> (b: bool)
    ensures
        b == (d.name@ == key@),
{
    let k2 = to_chars(d.name.as_str());
    let b = !lt_chars(key, &k2) && !lt_chars(&k2, key);
    proof {
        lemma_seq_lt_total(k2@, key@);
    }
    b
}

fn place_dir_exec(dirs: &mut Vec<TreeDir>, m: TreeDir)
    ensures
        view_dirs(final(dirs)@) == place_dir(view_dirs(old(dirs)@), view_dir(m)),
{
    let key = to_chars(m.name.as_str());
    let p = lower_bound_exec(dirs, &key);
    let ghost before = dirs@;
    proof {
        lemma_view_dirs(before);
    }
    if p < dirs.len() && same_name(&dirs[p], &key) {
        dirs.remove(p);
        dirs.insert(p, m);
        proof {
            lemma_view_dirs(dirs@);
            assert(view_dirs(dirs@) =~= view_dirs(before).update(p as int, view_dir(m)));
        }
    } else {
        dirs.insert(p, m);
        proof {
            lemma_view_dirs(dirs@);
            assert(view_dirs(dirs@) =~= view_dirs(before).insert(p as int, view_dir(m)));
        }
    }
}

fn merge_step_exec(dirs: &mut Vec<TreeDir>, key: &String)
    ensures
        view_dirs(final(dirs)@) == merge_step(view_dirs(old(dirs)@), key@),
{
    let kc = to_chars(key.as_str());
    let i = lower_bound_exec(dirs, &kc);
    let ghost before = dirs@;
    proof {
        lemma_view_dirs(before);
        if i < dirs@.len() {
            lemma_view_dirs(dirs@[i as int].dirs@);
            assert(view_dirs(before)[i as int] == view_dir(dirs@[i as int]));
        }
    }
    if i < dirs.len() && same_name(&dirs[i], &kc) && dirs[i].dirs.len() == 1 && dirs[i].files.len() == 0 {
        let mut dir = dirs.remove(i);
        let ghost dir0 = dir;
        proof {
            lemma_view_dirs(dirs@);
            assert(view_dirs(dirs@) =~= view_dirs(before).remove(i as int));
            lemma_view_dirs(dir.dirs@);
            assert(view_dir(dir0).dirs[0] == view_dir(dir0.dirs@[0]));
        }
        let child = dir.dirs.remove(0);
        let mut name = dir.name;
        crate::text::push_char(&mut name, '/');
        crate::text::push_str(&mut name, child.name.as_str());
        let m = TreeDir { name, path: child.path, dirs: child.dirs, files: child.files };
        proof {
            assert(child == dir0.dirs@[0]);
            assert(view_dir(child) == view_dir(dir0).dirs[0]);
            assert(dir0 == before[i as int]);
            assert(m.name@ =~= dir0.name@ + seq!['/'] + child.name@);
            assert(view_dir(m).name == merged(view_dir(dir0)).name);
            assert(view_dir(m) == merged(view_dir(dir0)));
        }
        place_dir_exec(dirs, m);
    }
}

impl TreeDir {
    /// Collapses chains of single-child directories into one node: a directory whose
    /// only content is one subdirectory is merged with it (`a -> b -> c -> file.txt`
    /// becomes `a/b/c -> file.txt`); see `model_collapse`.
    pub fn collapse_single_child_dirs(&mut self)
        ensures
            final(self)@ == model_collapse(old(self)@),
        decreases *old(self),
    {
        let mut k: usize = 0;
        let ghost orig = self.dirs@;
        proof {
            lemma_view_dirs(orig);
        }
        while k < self.dirs.len()
            invariant
                orig == old(self).dirs@,
                self.name == old(self).name,
                self.path == old(self).path,
                self.files == old(self).files,
                self.dirs@.len() == orig.len(),
                k <= orig.len(),
                forall|j: int| 0 <= j < k ==> view_dir(#[trigger] self.dirs@[j]) == model_collapse(view_dir(orig[j])),
                forall|j: int| k <= j < orig.len() ==> #[trigger] self.dirs@[j] == orig[j],
            decreases orig.len() - k,
        {
            let mut child = self.dirs.remove(k);
            proof {
                assert(child == orig[k as int]);
                assert(decreases_to!(*old(self) => old(self).dirs));
                assert(decreases_to!(old(self).dirs => old(self).dirs@));
                assert(decreases_to!(old(self).dirs@ => old(self).dirs@[k as int]));
            }
            child.collapse_single_child_dirs();
            self.dirs.insert(k, child);
            k = k + 1;
        }
        let ghost cs = view_dirs(self.dirs@);
        proof {
            lemma_view_dirs(self.dirs@);
            lemma_view_dirs(orig);
            lemma_model_collapse_all(view_dirs(orig));
            assert(cs =~= model_collapse_all(view_dirs(orig)));
        }
        let mut keys: Vec<String> = Vec::new();
        let mut j: usize = 0;
        while j < self.dirs.len()
            invariant
                view_dirs(self.dirs@) == cs,
                j <= self.dirs@.len(),
                keys@.len() == j,
                forall|q: int| 0 <= q < j ==> #[trigger] keys@[q]@ == cs[q].name,
            decreases self.dirs@.len() - j,
        {
            proof {
                lemma_view_dirs(self.dirs@);
            }
            keys.push(self.dirs[j].name.clone());
            j = j + 1;
        }
        let ghost names = dir_names(cs);
        proof {
            lemma_view_dirs(self.dirs@);
            assert(names.len() == keys@.len());
        }
        let mut i: usize = 0;
        proof {
            assert(names.skip(0) =~= names);
        }
        while i < keys.len()
            invariant
                names == dir_names(cs),
                keys@.len() == names.len(),
                forall|q: int| 0 <= q < keys@.len() ==> #[trigger] keys@[q]@ == names[q],
                i <= keys@.len(),
                merge_keys(view_dirs(self.dirs@), names.skip(i as int)) == merge_keys(cs, names),
                self.name == old(self).name,
                self.path == old(self).path,
                self.files == old(self).files,
            decreases keys@.len() - i,
        {
            let ghost before = view_dirs(self.dirs@);
            merge_step_exec(&mut self.dirs, &keys[i]);
            proof {
                assert(names.skip(i as int)[0] == keys@[i as int]@);
                assert(names.skip(i as int).drop_first() =~= names.skip(i + 1));
            }
            i = i + 1;
        }
        proof {
            assert(names.skip(i as int) =~= Seq::<Seq<char>>::empty());
        }
    }
}

} // verus!

verus! {

/// A set of directory paths (the directories the user has expanded).
pub struct PathSet {
    paths: Vec<String>,
}

impl View for PathSet {
    type V = Set<Seq<char>>;

    closed spec fn view(&self) -> Set<Seq<char>> {
        Set::new(|p: Seq<char>| exists|j: int| 0 <= j < self.paths@.len() && #[trigger] self.paths@[j]@ == p)
    }
}

impl PathSet {
    /// The empty set.
    pub fn new() -> (r: Self)
        ensures
            r@ == Set::<Seq<char>>::empty(),
    {
        let r = PathSet { paths: Vec::new() };
        proof {
            assert(r@ =~= Set::<Seq<char>>::empty());
        }
        r
    }

    /// Whether `path` is in the set.
    pub fn contains(&self, path: &String) -> (b: bool)
        ensures
            b == self@.contains(path@),
    {
        let mut i: usize = 0;
        while i < self.paths.len()
            invariant
                i <= self.paths@.len(),
                forall|j: int| 0 <= j < i ==> #[trigger] self.paths@[j]@ != path@,
            decreases self.paths@.len() - i,
        {
            if self.paths[i] == *path {
                proof {
                    assert(self.paths@[i as int]@ == path@);
                }
                return true;
            }
            i = i + 1;
        }
        false
    }

    /// Adds `path` to the set.
    pub fn insert(&mut self, path: String)
        ensures
            final(self)@ == old(self)@.insert(path@),
    {
        if !self.contains(&path) {
            let ghost before = self.paths@;
            self.paths.push(path);
            proof {
                assert forall|p: Seq<char>| #[trigger] self@.contains(p) == old(self)@.insert(path@).contains(p) by {
                    if self@.contains(p) {
                        let j = choose|j: int| 0 <= j < self.paths@.len() && #[trigger] self.paths@[j]@ == p;
                        if j < before.len() {
                            assert(before[j]@ == p);
                        }
                    }
                    if old(self)@.contains(p) {
                        let j = choose|j: int| 0 <= j < before.len() && #[trigger] before[j]@ == p;
                        assert(self.paths@[j]@ == p);
                    }
                    if p == path@ {
                        assert(self.paths@[before.len() as int]@ == p);
                    }
                }
                assert(self@ =~= old(self)@.insert(path@));
            }
        } else {
            proof {
                assert(self@ =~= old(self)@.insert(path@));
            }
        }
    }
}

impl PathSet {
    /// The set of the given paths.
    pub fn from_paths(paths: Vec<String>) -> (r: Self)
        ensures
            r@ == crate::git::cli::string_views(paths@).to_set(),
    {
        let r = PathSet { paths };
        proof {
            assert forall|p: Seq<char>| #[trigger] r@.contains(p) == crate::git::cli::string_views(paths@).to_set().contains(p) by {
                if r@.contains(p) {
                    let j = choose|j: int| 0 <= j < r.paths@.len() && #[trigger] r.paths@[j]@ == p;
                    assert(crate::git::cli::string_views(paths@)[j] == p);
                }
                if crate::git::cli::string_views(paths@).to_set().contains(p) {
                    let j = choose|j: int| 0 <= j < paths@.len() && crate::git::cli::string_views(paths@)[j] == p;
                    assert(r.paths@[j]@ == p);
                }
            }
            assert(r@ =~= crate::git::cli::string_views(paths@).to_set());
        }
        r
    }

    /// Empties the set.
    pub fn clear(&mut self)
        ensures
            final(self)@ == Set::<Seq<char>>::empty(),
    {
        self.paths = Vec::new();
        proof {
            assert(self@ =~= Set::<Seq<char>>::empty());
        }
    }

    /// Keeps the paths for which `keep` holds: those in `known` when `within_known`,
    /// else those outside the directory `dir`.
    fn retain_where(&mut self, known: &Vec<String>, dir: &String, within_known: bool)
        ensures
            final(self)@ == old(self)@.filter(|p: Seq<char>| if within_known {
                crate::git::cli::string_views(known@).contains(p)
            } else {
                !crate::sidebar::within_dir(p, dir@)
            }),
    {
        let ghost keep = |p: Seq<char>| if within_known {
            crate::git::cli::string_views(known@).contains(p)
        } else {
            !crate::sidebar::within_dir(p, dir@)
        };
        let mut out: Vec<String> = Vec::new();
        let mut i: usize = 0;
        while i < self.paths.len()
            invariant
                i <= self.paths@.len(),
                keep == (|p: Seq<char>| if within_known {
                    crate::git::cli::string_views(known@).contains(p)
                } else {
                    !crate::sidebar::within_dir(p, dir@)
                }),
                forall|j: int| 0 <= j < out@.len() ==> keep(#[trigger] out@[j]@) && exists|k: int|
                    0 <= k < i && self.paths@[k]@ == out@[j]@,
                forall|k: int| 0 <= k < i && keep(#[trigger] self.paths@[k]@) ==> exists|j: int|
                    0 <= j < out@.len() && out@[j]@ == self.paths@[k]@,
            decreases self.paths@.len() - i,
        {
            let p = &self.paths[i];
            let k = if within_known {
                crate::sidebar::contains_string(known, p)
            } else {
                !crate::sidebar::is_path_within_dir(p.as_str(), dir.as_str())
            };
            let ghost old_out = out@;
            proof {
                assert(k == keep(self.paths@[i as int]@));
            }
            if k {
                out.push(p.clone());
            }
            proof {
                assert forall|k2: int| 0 <= k2 < i + 1 && keep(#[trigger] self.paths@[k2]@) implies exists|j: int|
                    0 <= j < out@.len() && out@[j]@ == self.paths@[k2]@ by {
                    if k2 == i {
                        assert(out@[out@.len() - 1]@ == self.paths@[k2]@);
                    } else {
                        let j = choose|j: int| 0 <= j < old_out.len() && old_out[j]@ == self.paths@[k2]@;
                        assert(out@[j] == old_out[j]);
                    }
                }
                assert forall|j: int| 0 <= j < out@.len() implies keep(#[trigger] out@[j]@) && exists|k3: int|
                    0 <= k3 < i + 1 && self.paths@[k3]@ == out@[j]@ by {
                    if j < old_out.len() {
                        assert(out@[j] == old_out[j]);
                        assert(keep(old_out[j]@));
                        let k3 = choose|k3: int| 0 <= k3 < i && self.paths@[k3]@ == old_out[j]@;
                        assert(self.paths@[k3]@ == out@[j]@);
                    } else {
                        assert(out@[j]@ == self.paths@[i as int]@);
                    }
                }
            }
            i = i + 1;
        }
        let ghost before = self@;
        let ghost olds = self.paths@;
        self.paths = out;
        proof {
            assert forall|p: Seq<char>| #[trigger] self@.contains(p) == before.filter(keep).contains(p) by {
                if self@.contains(p) {
                    let j = choose|j: int| 0 <= j < self.paths@.len() && #[trigger] self.paths@[j]@ == p;
                    assert(keep(out@[j]@));
                    let k3 = choose|k3: int| 0 <= k3 < olds.len() && olds[k3]@ == out@[j]@;
                    assert(before.contains(p));
                }
                if before.filter(keep).contains(p) {
                    let k3 = choose|k3: int| 0 <= k3 < olds.len() && #[trigger] olds[k3]@ == p;
                    let j = choose|j: int| 0 <= j < out@.len() && out@[j]@ == olds[k3]@;
                    assert(self.paths@[j]@ == p);
                }
            }
            assert(self@ =~= before.filter(keep));
        }
    }

    /// Keeps only the paths that are in `known`.
    pub fn retain_known(&mut self, known: &Vec<String>)
        ensures
            final(self)@ == old(self)@.filter(|p: Seq<char>| crate::git::cli::string_views(known@).contains(p)),
    {
        let d = String::new();
        self.retain_where(known, &d, true);
        proof {
            assert(final(self)@ =~= old(self)@.filter(|p: Seq<char>| crate::git::cli::string_views(known@).contains(p)));
        }
    }

    /// Drops the paths of the directories below `dir`.
    pub fn remove_below(&mut self, dir: &String)
        ensures
            final(self)@ == old(self)@.filter(|p: Seq<char>| !crate::sidebar::within_dir(p, dir@)),
    {
        let known: Vec<String> = Vec::new();
        self.retain_where(&known, dir, false);
        proof {
            assert(final(self)@ =~= old(self)@.filter(|p: Seq<char>| !crate::sidebar::within_dir(p, dir@)));
        }
    }

    /// Removes `path`.
    pub fn remove(&mut self, path: &String)
        ensures
            final(self)@ == old(self)@.remove(path@),
    {
        let mut out: Vec<String> = Vec::new();
        let mut i: usize = 0;
        while i < self.paths.len()
            invariant
                i <= self.paths@.len(),
                forall|j: int| 0 <= j < out@.len() ==> (#[trigger] out@[j])@ != path@ && exists|k: int|
                    0 <= k < i && self.paths@[k]@ == out@[j]@,
                forall|k: int| 0 <= k < i && (#[trigger] self.paths@[k])@ != path@ ==> exists|j: int|
                    0 <= j < out@.len() && out@[j]@ == self.paths@[k]@,
            decreases self.paths@.len() - i,
        {
            let ghost old_out = out@;
            let keep = !(self.paths[i] == *path);
            if keep {
                out.push(self.paths[i].clone());
            }
            proof {
                assert forall|k2: int| 0 <= k2 < i + 1 && (#[trigger] self.paths@[k2])@ != path@ implies exists|j: int|
                    0 <= j < out@.len() && out@[j]@ == self.paths@[k2]@ by {
                    if k2 == i {
                        assert(out@[out@.len() - 1]@ == self.paths@[k2]@);
                    } else {
                        let j = choose|j: int| 0 <= j < old_out.len() && old_out[j]@ == self.paths@[k2]@;
                        assert(out@[j] == old_out[j]);
                    }
                }
                assert forall|j: int| 0 <= j < out@.len() implies (#[trigger] out@[j])@ != path@ && exists|k3: int|
                    0 <= k3 < i + 1 && self.paths@[k3]@ == out@[j]@ by {
                    if j < old_out.len() {
                        assert(out@[j] == old_out[j]);
                        let k3 = choose|k3: int| 0 <= k3 < i && self.paths@[k3]@ == old_out[j]@;
                        assert(self.paths@[k3]@ == out@[j]@);
                    } else {
                        assert(out@[j]@ == self.paths@[i as int]@);
                    }
                }
            }
            i = i + 1;
        }
        let ghost before = self@;
        let ghost olds = self.paths@;
        self.paths = out;
        proof {
            assert forall|p: Seq<char>| #[trigger] self@.contains(p) == before.remove(path@).contains(p) by {
                if self@.contains(p) {
                    let j = choose|j: int| 0 <= j < self.paths@.len() && #[trigger] self.paths@[j]@ == p;
                    let k3 = choose|k3: int| 0 <= k3 < olds.len() && olds[k3]@ == out@[j]@;
                    assert(before.contains(p));
                }
                if before.remove(path@).contains(p) {
                    let k3 = choose|k3: int| 0 <= k3 < olds.len() && #[trigger] olds[k3]@ == p;
                    let j = choose|j: int| 0 <= j < out@.len() && out@[j]@ == olds[k3]@;
                    assert(self.paths@[j]@ == p);
                }
            }
            assert(self@ =~= before.remove(path@));
        }
    }

    /// Adds all of `paths`.
    pub fn extend(&mut self, paths: Vec<String>)
        ensures
            final(self)@ == old(self)@.union(crate::git::cli::string_views(paths@).to_set()),
    {
        let ghost ps = crate::git::cli::string_views(paths@);
        let mut i: usize = 0;
        proof {
            assert(self@.union(ps.take(0).to_set()) =~= self@);
        }
        while i < paths.len()
            invariant
                ps == crate::git::cli::string_views(paths@),
                i <= paths@.len(),
                self@ == old(self)@.union(ps.take(i as int).to_set()),
            decreases paths@.len() - i,
        {
            self.insert(paths[i].clone());
            proof {
                assert forall|a: Seq<char>| #[trigger] ps.take(i + 1).contains(a) == ps.take(i as int).to_set().insert(
                    ps[i as int],
                ).contains(a) by {
                    if ps.take(i + 1).contains(a) {
                        let j = choose|j: int| 0 <= j < i + 1 && #[trigger] ps.take(i + 1)[j] == a;
                        if j < i {
                            assert(ps.take(i as int)[j] == a);
                        }
                    }
                    if ps.take(i as int).contains(a) {
                        let j = choose|j: int| 0 <= j < i && #[trigger] ps.take(i as int)[j] == a;
                        assert(ps.take(i + 1)[j] == a);
                    }
                    if a == ps[i as int] {
                        assert(ps.take(i + 1)[i as int] == a);
                    }
                }
                assert(ps.take(i + 1).to_set() =~= ps.take(i as int).to_set().insert(ps[i as int]));
                assert(self@ =~= old(self)@.union(ps.take(i + 1).to_set()));
            }
            i = i + 1;
        }
        proof {
            assert(ps.take(i as int) =~= ps);
        }
    }
}

/// The paths of the directories below `d`, each directory before its own subdirectories,
/// siblings in order.
pub open spec fn dir_paths(d: DirNode) -> Seq<Seq<char>>
    decreases d,
{
    dir_list_paths(d.dirs)
}

/// `dir_paths` for a list of sibling directories.
pub open spec fn dir_list_paths(v: Seq<DirNode>) -> Seq<Seq<char>>
    decreases v,
{
    if v.len() == 0 {
        Seq::empty()
    } else {
        dir_list_paths(v.drop_last()) + seq![v.last().path] + dir_paths(v.last())
    }
}

impl TreeDir {
    /// Appends the path of every directory below this one to `paths`, in the order
    /// `dir_paths` gives.
    pub fn collect_dir_paths(&self, paths: &mut Vec<String>)
        ensures
            crate::git::cli::string_views(final(paths)@) == crate::git::cli::string_views(old(paths)@)
                + dir_paths(self@),
        decreases self,
    {
        let mut i: usize = 0;
        proof {
            lemma_view_dirs(self.dirs@);
            assert(self@.dirs.take(0) =~= Seq::<DirNode>::empty());
            assert(crate::git::cli::string_views(paths@) =~= crate::git::cli::string_views(old(paths)@)
                + dir_list_paths(self@.dirs.take(0)));
        }
        while i < self.dirs.len()
            invariant
                i <= self.dirs@.len(),
                self@.dirs == self.dirs@.map_values(|d: TreeDir| view_dir(d)),
                crate::git::cli::string_views(paths@) == crate::git::cli::string_views(old(paths)@)
                    + dir_list_paths(self@.dirs.take(i as int)),
            decreases self.dirs@.len() - i,
        {
            let dir = &self.dirs[i];
            let ghost mid = crate::git::cli::string_views(paths@);
            paths.push(dir.path.clone());
            proof {
                assert(crate::git::cli::string_views(paths@) =~= mid + seq![dir.path@]);
                assert(decreases_to!(self => self.dirs));
                assert(decreases_to!(self.dirs => self.dirs@));
                assert(decreases_to!(self.dirs@ => self.dirs@[i as int]));
            }
            dir.collect_dir_paths(paths);
            proof {
                let t = self@.dirs.take(i + 1);
                assert(t.drop_last() =~= self@.dirs.take(i as int));
                assert(t.last() == view_dir(*dir));
                assert(crate::git::cli::string_views(paths@) =~= crate::git::cli::string_views(old(paths)@)
                    + dir_list_paths(t));
            }
            i = i + 1;
        }
        proof {
            assert(self@.dirs.take(i as int) =~= self@.dirs);
        }
    }
}

} // verus!

verus! {

/// A row of the sidebar: the repository root, a directory or a file.
#[derive(Debug, Clone)]
pub enum SidebarRow {
    Root { name: String, expanded: bool },
    Dir { name: String, path: String, depth: usize, expanded: bool },
    File { name: String, index: usize, depth: usize, status: FileStatus },
}

/// A sidebar row by its values.
pub enum RowNode {
    Root { name: Seq<char>, expanded: bool },
    Dir { name: Seq<char>, path: Seq<char>, depth: int, expanded: bool },
    File { name: Seq<char>, index: usize, depth: int, status: FileStatus },
}

impl View for SidebarRow {
    type V = RowNode;

    open spec fn view(&self) -> RowNode {
        match self {
            SidebarRow::Root { name, expanded } => RowNode::Root { name: name@, expanded: *expanded },
            SidebarRow::Dir { name, path, depth, expanded } => RowNode::Dir {
                name: name@,
                path: path@,
                depth: *depth as int,
                expanded: *expanded,
            },
            SidebarRow::File { name, index, depth, status } => RowNode::File {
                name: name@,
                index: *index,
                depth: *depth as int,
                status: *status,
            },
        }
    }
}

/// The values of a list of rows.
pub open spec fn row_views(v: Seq<SidebarRow>) -> Seq<RowNode> {
    v.map_values(|r: SidebarRow| r@)
}

/// The rows of the files, at `depth`.
pub open spec fn file_rows(files: Seq<FileNode>, depth: int) -> Seq<RowNode> {
    files.map_values(|f: FileNode| RowNode::File { name: f.name, index: f.index, depth, status: f.status })
}

/// The rows shown for the contents of `d` at `depth`: each subdirectory, followed, when
/// its path is in `expanded`, by the rows of its contents one level deeper; then the
/// files.
pub open spec fn visible_rows(d: DirNode, expanded: Set<Seq<char>>, depth: int) -> Seq<RowNode>
    decreases d,
{
    dir_rows(d.dirs, expanded, depth) + file_rows(d.files, depth)
}

/// The rows of a list of sibling directories and of their expanded contents.
pub open spec fn dir_rows(v: Seq<DirNode>, expanded: Set<Seq<char>>, depth: int) -> Seq<RowNode>
    decreases v,
{
    if v.len() == 0 {
        Seq::empty()
    } else {
        let d = v.last();
        let open = expanded.contains(d.path);
        dir_rows(v.drop_last(), expanded, depth) + seq![
            RowNode::Dir { name: d.name, path: d.path, depth, expanded: open },
        ] + (if open {
            visible_rows(d, expanded, depth + 1)
        } else {
            Seq::empty()
        })
    }
}

/// Number of directory levels below `d`.
pub open spec fn height(d: DirNode) -> nat
    decreases d,
{
    if d.dirs.len() == 0 {
        0
    } else {
        1 + max_height(d.dirs)
    }
}

/// The largest `height` of the directories.
pub open spec fn max_height(v: Seq<DirNode>) -> nat
    decreases v,
{
    if v.len() == 0 {
        0
    } else {
        let a = max_height(v.drop_last());
        let b = height(v.last());
        if a < b {
            b
        } else {
            a
        }
    }
}

proof fn lemma_max_height(v: Seq<DirNode>, k: int)
    requires
        0 <= k < v.len(),
    ensures
        height(v[k]) <= max_height(v),
    decreases v.len(),
{
    if k < v.len() - 1 {
        lemma_max_height(v.drop_last(), k);
        assert(v.drop_last()[k] == v[k]);
    }
}

impl TreeDir {
    /// Appends the rows for the contents of this directory at `depth` to `rows`, as
    /// `visible_rows` gives them for the expanded directories `expanded_dirs`.
    pub fn collect_visible_rows(&self, expanded_dirs: &PathSet, depth: usize, rows: &mut Vec<SidebarRow>)
        requires
            depth + height(self@) <= usize::MAX,
        ensures
            row_views(final(rows)@) == row_views(old(rows)@) + visible_rows(self@, expanded_dirs@, depth as int),
        decreases self,
    {
        let mut i: usize = 0;
        proof {
            lemma_view_dirs(self.dirs@);
            assert(self@.dirs.take(0) =~= Seq::<DirNode>::empty());
            assert(row_views(rows@) =~= row_views(old(rows)@) + dir_rows(
                self@.dirs.take(0),
                expanded_dirs@,
                depth as int,
            ));
        }
        while i < self.dirs.len()
            invariant
                i <= self.dirs@.len(),
                depth + height(self@) <= usize::MAX,
                self@.dirs == self.dirs@.map_values(|d: TreeDir| view_dir(d)),
                row_views(rows@) == row_views(old(rows)@) + dir_rows(
                    self@.dirs.take(i as int),
                    expanded_dirs@,
                    depth as int,
                ),
            decreases self.dirs@.len() - i,
        {
            let dir = &self.dirs[i];
            let expanded = expanded_dirs.contains(&dir.path);
            let ghost mid = row_views(rows@);
            let row = SidebarRow::Dir { name: dir.name.clone(), path: dir.path.clone(), depth, expanded };
            rows.push(row);
            proof {
                assert(row_views(rows@) =~= mid + seq![row@]);
            }
            let ghost mid2 = row_views(rows@);
            if expanded {
                proof {
                    lemma_max_height(self@.dirs, i as int);
                    assert(decreases_to!(self => self.dirs));
                    assert(decreases_to!(self.dirs => self.dirs@));
                    assert(decreases_to!(self.dirs@ => self.dirs@[i as int]));
                }
                dir.collect_visible_rows(expanded_dirs, depth + 1, rows);
            }
            proof {
                let t = self@.dirs.take(i + 1);
                assert(t.drop_last() =~= self@.dirs.take(i as int));
                assert(t.last() == view_dir(*dir));
                if !expanded {
                    assert(row_views(rows@) =~= mid2);
                }
                assert(row_views(rows@) =~= row_views(old(rows)@) + dir_rows(
                    t,
                    expanded_dirs@,
                    depth as int,
                ));
            }
            i = i + 1;
        }
        proof {
            assert(self@.dirs.take(i as int) =~= self@.dirs);
        }
        let ghost base = row_views(rows@);
        let mut j: usize = 0;
        proof {
            assert(base =~= base + file_rows(self@.files.take(0), depth as int));
        }
        while j < self.files.len()
            invariant
                j <= self.files@.len(),
                self@.files == view_files(self.files@),
                row_views(rows@) == base + file_rows(self@.files.take(j as int), depth as int),
            decreases self.files@.len() - j,
        {
            let f = &self.files[j];
            let ghost before = row_views(rows@);
            let row = SidebarRow::File { name: f.name.clone(), index: f.index, depth, status: f.status };
            rows.push(row);
            proof {
                assert(self@.files.take(j + 1) =~= self@.files.take(j as int).push(view_file(*f)));
                assert(row_views(rows@) =~= before + seq![row@]);
                assert(row_views(rows@) =~= base + file_rows(self@.files.take(j + 1), depth as int));
            }
            j = j + 1;
        }
        proof {
            assert(self@.files.take(j as int) =~= self@.files);
        }
    }
}

} // verus!

verus! {

/// The path of the directory made of the first `k` of `parts`, joined as `join_path` does.
pub open spec fn prefix_path(parts: Seq<Seq<char>>, k: int) -> Seq<char>
    decreases k,
{
    if k <= 0 {
        Seq::empty()
    } else {
        join_path(prefix_path(parts, k - 1), parts[k - 1])
    }
}

/// The paths of the directories that contain the file at `path`: the prefixes of its
/// `'/'`-separated parts, all but the last part.
pub open spec fn parent_paths(path: Seq<char>) -> Set<Seq<char>> {
    let parts = spec_split(path, '/');
    Set::new(|p: Seq<char>| exists|k: int| 1 <= k < parts.len() && #[trigger] prefix_path(parts, k) == p)
}

/// Adds every directory that contains the file at `file_path` to `expanded_dirs`.
pub fn expand_parent_dirs(expanded_dirs: &mut PathSet, file_path: &str)
    ensures
        final(expanded_dirs)@ == old(expanded_dirs)@.union(parent_paths(file_path@)),
{
    let parts = split_char(file_path, '/');
    let ghost ps = spec_split(file_path@, '/');
    let mut current = String::new();
    let mut k: usize = 0;
    let n = parts.len();
    let last: usize = if n == 0 { 0 } else { n - 1 };
    proof {
        assert(views(parts@) == ps);
        assert(old(expanded_dirs)@.union(Set::new(
            |p: Seq<char>| exists|m: int| 1 <= m <= 0 && #[trigger] prefix_path(ps, m) == p,
        )) =~= old(expanded_dirs)@);
    }
    while k < last
        invariant
            n == parts@.len(),
            views(parts@) == ps,
            last == (if n == 0 { 0 } else { n - 1 }),
            k <= last,
            current@ == prefix_path(ps, k as int),
            expanded_dirs@ == old(expanded_dirs)@.union(Set::new(
                |p: Seq<char>| exists|m: int| 1 <= m <= k && #[trigger] prefix_path(ps, m) == p,
            )),
        decreases last - k,
    {
        current = join_path_exec(&current, parts[k]);
        let ghost before = expanded_dirs@;
        expanded_dirs.insert(current.clone());
        proof {
            assert(ps[k as int] == parts@[k as int]@);
            assert(current@ == prefix_path(ps, k + 1));
            let s_old = Set::new(|p: Seq<char>| exists|m: int| 1 <= m <= k && #[trigger] prefix_path(ps, m) == p);
            let s_new = Set::new(|p: Seq<char>| exists|m: int| 1 <= m <= k + 1 && #[trigger] prefix_path(ps, m) == p);
            assert forall|p: Seq<char>| #[trigger] s_new.contains(p) == s_old.insert(current@).contains(p) by {
                if s_new.contains(p) {
                    let m = choose|m: int| 1 <= m <= k + 1 && #[trigger] prefix_path(ps, m) == p;
                    if m <= k {
                        assert(s_old.contains(p));
                    }
                }
                if s_old.contains(p) {
                    let m = choose|m: int| 1 <= m <= k && #[trigger] prefix_path(ps, m) == p;
                    assert(s_new.contains(p));
                }
                if p == current@ {
                    assert(prefix_path(ps, k + 1) == p);
                    assert(s_new.contains(p));
                }
            }
            assert(s_new =~= s_old.insert(current@));
            assert(expanded_dirs@ =~= old(expanded_dirs)@.union(s_new));
        }
        k = k + 1;
    }
    proof {
        let s = Set::new(|p: Seq<char>| exists|m: int| 1 <= m <= k && #[trigger] prefix_path(ps, m) == p);
        assert forall|p: Seq<char>| #[trigger] s.contains(p) == parent_paths(file_path@).contains(p) by {
            if s.contains(p) {
                let m = choose|m: int| 1 <= m <= k && #[trigger] prefix_path(ps, m) == p;
                assert(1 <= m < ps.len());
            }
            if parent_paths(file_path@).contains(p) {
                let m = choose|m: int| 1 <= m < ps.len() && #[trigger] prefix_path(ps, m) == p;
                assert(m <= k);
            }
        }
        assert(s =~= parent_paths(file_path@));
    }
}

impl TreeDir {
    /// The subdirectory named `name`, if there is one.
    pub fn dir(&self, name: &str) -> (r: Option<&TreeDir>)
        ensures
            match r {
                Some(d) => lookup(self@.dirs, name@) >= 0 && view_dir(*d) == self@.dirs[lookup(
                    self@.dirs,
                    name@,
                )],
                None => lookup(self@.dirs, name@) == -1,
            },
    {
        let key = to_chars(name);
        let p = lower_bound_exec(&self.dirs, &key);
        proof {
            lemma_view_dirs(self.dirs@);
        }
        if p < self.dirs.len() && same_name(&self.dirs[p], &key) {
            Some(&self.dirs[p])
        } else {
            None
        }
    }
}

} // verus!

verus! {

/// The directories are in strictly ascending order of name (so no name occurs twice).
pub open spec fn names_ascending(v: Seq<DirNode>) -> bool {
    forall|i: int, j: int| 0 <= i < j < v.len() ==> seq_lt(#[trigger] v[i].name, #[trigger] v[j].name)
}

/// At every level of `d`, the subdirectories are in strictly ascending order of name.
pub open spec fn well_formed(d: DirNode) -> bool
    decreases d,
{
    names_ascending(d.dirs) && all_well_formed(d.dirs)
}

/// Every directory of `v` is `well_formed`.
pub open spec fn all_well_formed(v: Seq<DirNode>) -> bool
    decreases v,
{
    v.len() == 0 || (all_well_formed(v.drop_last()) && well_formed(v.last()))
}

/// No directory below `d` consists of a single subdirectory and nothing else.
pub open spec fn no_lone_below(d: DirNode) -> bool
    decreases d,
{
    none_lone(d.dirs)
}

/// No directory of `v`, nor below one, consists of a single subdirectory and nothing else.
pub open spec fn none_lone(v: Seq<DirNode>) -> bool
    decreases v,
{
    v.len() == 0 || (none_lone(v.drop_last()) && !is_lone(v.last()) && no_lone_below(v.last()))
}

proof fn lemma_all_well_formed(v: Seq<DirNode>)
    ensures
        all_well_formed(v) <==> forall|i: int| 0 <= i < v.len() ==> #[trigger] well_formed(v[i]),
    decreases v.len(),
{
    if v.len() > 0 {
        lemma_all_well_formed(v.drop_last());
        if forall|i: int| 0 <= i < v.len() ==> #[trigger] well_formed(v[i]) {
            assert forall|i: int| 0 <= i < v.drop_last().len() implies #[trigger] well_formed(v.drop_last()[i]) by {
                assert(v.drop_last()[i] == v[i]);
            }
            assert(well_formed(v[v.len() - 1]));
            assert(all_well_formed(v));
        }
        if all_well_formed(v) {
            assert forall|i: int| 0 <= i < v.len() implies #[trigger] well_formed(v[i]) by {
                if i < v.len() - 1 {
                    assert(v.drop_last()[i] == v[i]);
                }
            }
        }
    }
}

proof fn lemma_none_lone(v: Seq<DirNode>)
    ensures
        none_lone(v) <==> forall|i: int|
            0 <= i < v.len() ==> !is_lone(#[trigger] v[i]) && no_lone_below(v[i]),
    decreases v.len(),
{
    if v.len() > 0 {
        lemma_none_lone(v.drop_last());
        if forall|i: int| 0 <= i < v.len() ==> !is_lone(#[trigger] v[i]) && no_lone_below(v[i]) {
            assert forall|i: int| 0 <= i < v.drop_last().len() implies !is_lone(#[trigger] v.drop_last()[i])
                && no_lone_below(v.drop_last()[i]) by {
                assert(v.drop_last()[i] == v[i]);
            }
        }
        if none_lone(v) {
            assert forall|i: int| 0 <= i < v.len() implies !is_lone(#[trigger] v[i]) && no_lone_below(v[i]) by {
                if i < v.len() - 1 {
                    assert(v.drop_last()[i] == v[i]);
                }
            }
        }
    }
}

proof fn lemma_lower_bound_props(v: Seq<DirNode>, name: Seq<char>)
    ensures
        0 <= lower_bound(v, name) <= v.len(),
        forall|k: int| 0 <= k < lower_bound(v, name) ==> seq_lt(#[trigger] v[k].name, name),
        lower_bound(v, name) < v.len() ==> !seq_lt(v[lower_bound(v, name)].name, name),
    decreases v.len(),
{
    if v.len() > 0 && seq_lt(v[0].name, name) {
        lemma_lower_bound_props(v.drop_first(), name);
        assert forall|k: int| 0 <= k < lower_bound(v, name) implies seq_lt(#[trigger] v[k].name, name) by {
            if k > 0 {
                assert(v.drop_first()[k - 1] == v[k]);
            }
        }
    }
}

/// In name order, `lookup` finds the one directory of the name, if any.
proof fn lemma_lookup(v: Seq<DirNode>, name: Seq<char>)
    requires
        names_ascending(v),
    ensures
        lookup(v, name) >= 0 ==> lookup(v, name) < v.len() && v[lookup(v, name)].name == name,
        forall|k: int| 0 <= k < v.len() && #[trigger] v[k].name == name ==> k == lookup(v, name),
{
    lemma_lower_bound_props(v, name);
    let p = lower_bound(v, name);
    assert forall|k: int| 0 <= k < v.len() && #[trigger] v[k].name == name implies k == lookup(v, name) by {
        if k < p {
            lemma_seq_lt_irreflexive(name);
        } else if k > p {
            lemma_seq_lt_total(v[p].name, name);
            assert(seq_lt(v[p].name, v[k].name));
            if v[p].name != name {
                lemma_seq_lt_transitive(name, v[p].name, v[k].name);
            }
            lemma_seq_lt_irreflexive(name);
        }
    }
}

/// `place_dir` keeps the order, and holds nothing but `m` and directories it was given.
proof fn lemma_place_dir(v: Seq<DirNode>, m: DirNode)
    requires
        names_ascending(v),
    ensures
        names_ascending(place_dir(v, m)),
        forall|j: int| 0 <= j < place_dir(v, m).len() ==> #[trigger] place_dir(v, m)[j] == m || v.contains(
            place_dir(v, m)[j],
        ),
{
    lemma_lower_bound_props(v, m.name);
    let p = lower_bound(v, m.name);
    let r = place_dir(v, m);
    if p < v.len() && v[p].name == m.name {
        assert forall|i: int, j: int| 0 <= i < j < r.len() implies seq_lt(#[trigger] r[i].name, #[trigger] r[j].name) by {
            assert(r[i].name == v[i].name);
            assert(r[j].name == v[j].name);
        }
        assert forall|j: int| 0 <= j < r.len() implies #[trigger] r[j] == m || v.contains(r[j]) by {
            if j != p {
                assert(r[j] == v[j]);
            }
        }
    } else {
        if p < v.len() {
            lemma_seq_lt_total(v[p].name, m.name);
        }
        assert forall|k: int| p <= k < v.len() implies seq_lt(m.name, #[trigger] v[k].name) by {
            if k > p {
                assert(seq_lt(v[p].name, v[k].name));
                lemma_seq_lt_transitive(m.name, v[p].name, v[k].name);
            }
        }
        assert forall|i: int, j: int| 0 <= i < j < r.len() implies seq_lt(#[trigger] r[i].name, #[trigger] r[j].name) by {
            if j < p {
                assert(r[i] == v[i] && r[j] == v[j]);
            } else if j == p {
                assert(r[i] == v[i] && r[j] == m);
            } else if i < p {
                assert(r[i] == v[i] && r[j] == v[j - 1]);
                lemma_seq_lt_transitive(v[i].name, m.name, v[j - 1].name);
            } else if i == p {
                assert(r[i] == m && r[j] == v[j - 1]);
            } else {
                assert(r[i] == v[i - 1] && r[j] == v[j - 1]);
            }
        }
        assert forall|j: int| 0 <= j < r.len() implies #[trigger] r[j] == m || v.contains(r[j]) by {
            if j < p {
                assert(r[j] == v[j]);
            } else if j > p {
                assert(r[j] == v[j - 1]);
            }
        }
    }
}

/// The insertion of a file keeps a well-formed tree well-formed: at every level the
/// subdirectories stay in strictly ascending order of name.
pub proof fn lemma_insert_keeps_order(
    d: DirNode,
    parts: Seq<Seq<char>>,
    current: Seq<char>,
    index: usize,
    status: FileStatus,
)
    requires
        well_formed(d),
    ensures
        well_formed(model_insert(d, parts, current, index, status)),
    decreases parts.len(),
{
    let r = model_insert(d, parts, current, index, status);
    if parts.len() > 1 {
        let name = parts[0];
        let path = join_path(current, name);
        lemma_lower_bound_props(d.dirs, name);
        let p = lower_bound(d.dirs, name);
        if p < d.dirs.len() && d.dirs[p].name == name {
            lemma_all_well_formed(d.dirs);
            assert(well_formed(d.dirs[p]));
            lemma_insert_keeps_order(d.dirs[p], parts.drop_first(), path, index, status);
            assert(names_ascending(r.dirs)) by {
                assert forall|i: int, j: int| 0 <= i < j < r.dirs.len() implies seq_lt(
                    #[trigger] r.dirs[i].name,
                    #[trigger] r.dirs[j].name,
                ) by {
                    assert(r.dirs[i].name == d.dirs[i].name);
                    assert(r.dirs[j].name == d.dirs[j].name);
                }
            }
            assert forall|i: int| 0 <= i < r.dirs.len() implies #[trigger] well_formed(r.dirs[i]) by {
                lemma_all_well_formed(d.dirs);
                if i != p {
                    assert(r.dirs[i] == d.dirs[i]);
                    assert(well_formed(d.dirs[i]));
                } else {
                    assert(r.dirs[i] == model_insert(d.dirs[p], parts.drop_first(), path, index, status));
                }
            }
        } else {
            let e = empty_dir(name, path);
            assert(well_formed(e));
            lemma_insert_keeps_order(e, parts.drop_first(), path, index, status);
            let m = model_insert(e, parts.drop_first(), path, index, status);
            assert(m.name == name);
            assert(place_dir(d.dirs, m) == r.dirs);
            lemma_place_dir(d.dirs, m);
            assert forall|i: int| 0 <= i < r.dirs.len() implies #[trigger] well_formed(r.dirs[i]) by {
                if r.dirs[i] != m {
                    lemma_all_well_formed(d.dirs);
                    let k = choose|k: int| 0 <= k < d.dirs.len() && d.dirs[k] == r.dirs[i];
                    assert(well_formed(d.dirs[k]));
                }
            }
        }
        lemma_all_well_formed(r.dirs);
    }
}

} // verus!

verus! {

proof fn lemma_merge_keys(s: Seq<DirNode>, ks: Seq<Seq<char>>)
    requires
        names_ascending(s),
        forall|i: int| 0 <= i < s.len() ==> #[trigger] well_formed(s[i]) && no_lone_below(s[i]),
        forall|i: int| 0 <= i < s.len() && is_lone(#[trigger] s[i]) ==> ks.contains(s[i].name),
    ensures
        names_ascending(merge_keys(s, ks)),
        forall|i: int|
            0 <= i < merge_keys(s, ks).len() ==> #[trigger] well_formed(merge_keys(s, ks)[i])
                && no_lone_below(merge_keys(s, ks)[i]) && !is_lone(merge_keys(s, ks)[i]),
    decreases ks.len(),
{
    if ks.len() == 0 {
        assert forall|i: int| 0 <= i < s.len() implies !is_lone(#[trigger] s[i]) by {
            if is_lone(s[i]) {
                assert(ks.contains(s[i].name));
            }
        }
    } else {
        let k = ks[0];
        let rest = ks.drop_first();
        let i = lookup(s, k);
        lemma_lookup(s, k);
        assert forall|y: Seq<char>| ks.contains(y) && y != k implies rest.contains(y) by {
            let j = choose|j: int| 0 <= j < ks.len() && ks[j] == y;
            assert(j > 0);
            assert(rest[j - 1] == y);
        }
        if i >= 0 && is_lone(s[i]) {
            let x = s[i];
            assert(well_formed(s[i]) && no_lone_below(s[i]));
            let c = x.dirs[0];
            lemma_none_lone(x.dirs);
            assert(!is_lone(x.dirs[0]) && no_lone_below(x.dirs[0]));
            lemma_all_well_formed(x.dirs);
            assert(well_formed(c) && no_lone_below(c) && !is_lone(c));
            let m = merged(x);
            assert(well_formed(m));
            assert(no_lone_below(m));
            let t = s.remove(i);
            assert(names_ascending(t)) by {
                assert forall|a: int, b: int| 0 <= a < b < t.len() implies seq_lt(#[trigger] t[a].name, #[trigger] t[b].name) by {
                    let a0 = if a < i { a } else { a + 1 };
                    let b0 = if b < i { b } else { b + 1 };
                    assert(t[a] == s[a0] && t[b] == s[b0]);
                }
            }
            lemma_place_dir(t, m);
            let s2 = place_dir(t, m);
            assert(merge_step(s, k) == s2);
            assert forall|j: int| 0 <= j < s2.len() implies #[trigger] well_formed(s2[j]) && no_lone_below(s2[j])
                && (is_lone(s2[j]) ==> rest.contains(s2[j].name)) by {
                if s2[j] != m {
                    let q = choose|q: int| 0 <= q < t.len() && t[q] == s2[j];
                    let q0 = if q < i { q } else { q + 1 };
                    assert(t[q] == s[q0]);
                    assert(q0 != i);
                    assert(well_formed(s[q0]) && no_lone_below(s[q0]));
                    if is_lone(s2[j]) {
                        assert(ks.contains(s[q0].name));
                        assert(s[q0].name != k);
                        assert(rest.contains(s[q0].name));
                    }
                } else {
                    assert(well_formed(m) && no_lone_below(m) && !is_lone(m));
                }
            }
            lemma_merge_keys(s2, rest);
            assert(merge_keys(s, ks) == merge_keys(s2, rest));
        } else {
            assert(merge_step(s, k) == s);
            assert forall|j: int| 0 <= j < s.len() && is_lone(#[trigger] s[j]) implies rest.contains(s[j].name) by {
                assert(ks.contains(s[j].name));
                if s[j].name == k {
                    assert(j == i);
                }
            }
            lemma_merge_keys(s, rest);
            assert(merge_keys(s, ks) == merge_keys(s, rest));
        }
    }
}

/// Collapsing a well-formed tree leaves it well-formed, and leaves no directory below
/// the root that consists of a single subdirectory and nothing else: every chain of
/// single-child directories has become one node.
pub proof fn lemma_collapse_leaves_no_chain(d: DirNode)
    requires
        well_formed(d),
    ensures
        well_formed(model_collapse(d)),
        no_lone_below(model_collapse(d)),
    decreases d,
{
    let cs = model_collapse_all(d.dirs);
    lemma_model_collapse_all(d.dirs);
    lemma_all_well_formed(d.dirs);
    assert forall|i: int| 0 <= i < cs.len() implies #[trigger] well_formed(cs[i]) && no_lone_below(cs[i]) by {
        assert(cs[i] == model_collapse(d.dirs[i]));
        lemma_collapse_leaves_no_chain(d.dirs[i]);
    }
    assert forall|a: int, b: int| 0 <= a < b < cs.len() implies seq_lt(#[trigger] cs[a].name, #[trigger] cs[b].name) by {
        assert(cs[a].name == d.dirs[a].name);
        assert(cs[b].name == d.dirs[b].name);
    }
    let names = dir_names(cs);
    assert forall|i: int| 0 <= i < cs.len() && is_lone(#[trigger] cs[i]) implies names.contains(cs[i].name) by {
        assert(names[i] == cs[i].name);
    }
    lemma_merge_keys(cs, names);
    let r = merge_keys(cs, names);
    assert forall|i: int| 0 <= i < r.len() implies !is_lone(#[trigger] r[i]) && no_lone_below(r[i]) by {
        assert(well_formed(r[i]));
    }
    lemma_all_well_formed(r);
    lemma_none_lone(r);
}

} // verus!

verus! {

/// Sorting the files keeps a well-formed tree well-formed; it changes no directory.
pub proof fn lemma_sort_keeps_order(d: DirNode)
    requires
        well_formed(d),
    ensures
        well_formed(model_sort(d)),
        model_sort(d).name == d.name,
        model_sort(d).path == d.path,
    decreases d,
{
    let r = model_sort(d);
    lemma_model_sort_all(d.dirs);
    lemma_all_well_formed(d.dirs);
    assert forall|i: int| 0 <= i < r.dirs.len() implies #[trigger] well_formed(r.dirs[i]) by {
        assert(r.dirs[i] == model_sort(d.dirs[i]));
        lemma_sort_keeps_order(d.dirs[i]);
    }
    assert forall|a: int, b: int| 0 <= a < b < r.dirs.len() implies seq_lt(#[trigger] r.dirs[a].name, #[trigger] r.dirs[b].name) by {
        lemma_sort_keeps_order(d.dirs[a]);
        lemma_sort_keeps_order(d.dirs[b]);
        assert(r.dirs[a] == model_sort(d.dirs[a]));
        assert(r.dirs[b] == model_sort(d.dirs[b]));
    }
    lemma_all_well_formed(r.dirs);
}

} // verus!

verus! {

proof fn lemma_max_height_le(v: Seq<DirNode>, limit: int)
    requires
        forall|k: int| 0 <= k < v.len() ==> height(#[trigger] v[k]) <= limit,
        limit >= 0,
    ensures
        max_height(v) <= limit,
    decreases v.len(),
{
    if v.len() > 0 {
        assert forall|k: int| 0 <= k < v.drop_last().len() implies height(#[trigger] v.drop_last()[k]) <= limit by {
            assert(v.drop_last()[k] == v[k]);
        }
        lemma_max_height_le(v.drop_last(), limit);
        assert(height(v[v.len() - 1]) <= limit);
    }
}

impl TreeDir {
    /// Whether this directory has at most `limit` levels of directories below it.
    pub fn height_at_most(&self, limit: usize) -> (b: bool)
        ensures
            b == (height(self@) <= limit),
        decreases self,
    {
        proof {
            lemma_view_dirs(self.dirs@);
        }
        if self.dirs.len() == 0 {
            return true;
        }
        if limit == 0 {
            return false;
        }
        let mut i: usize = 0;
        while i < self.dirs.len()
            invariant
                0 < limit,
                self@.dirs == self.dirs@.map_values(|d: TreeDir| view_dir(d)),
                self.dirs@.len() > 0,
                i <= self.dirs@.len(),
                forall|k: int| 0 <= k < i ==> height(#[trigger] self@.dirs[k]) <= limit - 1,
            decreases self.dirs@.len() - i,
        {
            proof {
                assert(decreases_to!(self => self.dirs));
                assert(decreases_to!(self.dirs => self.dirs@));
                assert(decreases_to!(self.dirs@ => self.dirs@[i as int]));
            }
            if !self.dirs[i].height_at_most(limit - 1) {
                proof {
                    lemma_max_height(self@.dirs, i as int);
                }
                return false;
            }
            i = i + 1;
        }
        proof {
            lemma_max_height_le(self@.dirs, limit - 1);
        }
        true
    }
}

} // verus!

verus! {

/// A name of one path component: not empty, and without `/`.
pub open spec fn simple_name(n: Seq<char>) -> bool {
    n.len() > 0 && !n.contains('/')
}

/// Every directory below `d` is named by one path component.
pub open spec fn simple_names(d: DirNode) -> bool
    decreases d,
{
    all_simple_names(d.dirs)
}

/// Every directory of `v`, and every one below them, is named by one path component.
pub open spec fn all_simple_names(v: Seq<DirNode>) -> bool
    decreases v,
{
    v.len() == 0 || (all_simple_names(v.drop_last()) && simple_name(v.last().name) && simple_names(v.last()))
}

/// Every directory below `d` has the path of its parent joined with its name.
pub open spec fn paths_below(d: DirNode) -> bool
    decreases d,
{
    all_paths_below(d.dirs, d.path)
}

/// Every directory of `v` has the path `parent` joined with its name, and so on below.
pub open spec fn all_paths_below(v: Seq<DirNode>, parent: Seq<char>) -> bool
    decreases v,
{
    v.len() == 0 || (all_paths_below(v.drop_last(), parent) && v.last().path == join_path(parent, v.last().name)
        && paths_below(v.last()))
}

/// The files `files` of the directory at `path`, each with its index and full path.
pub open spec fn files_at(path: Seq<char>, files: Seq<FileNode>) -> Multiset<(usize, Seq<char>)>
    decreases files.len(),
{
    if files.len() == 0 {
        Multiset::empty()
    } else {
        files_at(path, files.drop_last()).insert((files.last().index, join_path(path, files.last().name)))
    }
}

/// The files of `d` and of every directory below it, each with its index and full path
/// (the path of its directory joined with its name).
pub open spec fn file_entries(d: DirNode) -> Multiset<(usize, Seq<char>)>
    decreases d,
{
    files_at(d.path, d.files).add(entries_all(d.dirs))
}

/// `file_entries` of all the directories of `v`.
pub open spec fn entries_all(v: Seq<DirNode>) -> Multiset<(usize, Seq<char>)>
    decreases v,
{
    if v.len() == 0 {
        Multiset::empty()
    } else {
        entries_all(v.drop_last()).add(file_entries(v.last()))
    }
}

proof fn lemma_all_simple_names(v: Seq<DirNode>)
    ensures
        all_simple_names(v) <==> forall|i: int|
            0 <= i < v.len() ==> simple_name(#[trigger] v[i].name) && simple_names(v[i]),
    decreases v.len(),
{
    if v.len() > 0 {
        lemma_all_simple_names(v.drop_last());
        if forall|i: int| 0 <= i < v.len() ==> simple_name(#[trigger] v[i].name) && simple_names(v[i]) {
            assert forall|i: int| 0 <= i < v.drop_last().len() implies simple_name(#[trigger] v.drop_last()[i].name)
                && simple_names(v.drop_last()[i]) by {
                assert(v.drop_last()[i] == v[i]);
            }
            assert(simple_name(v[v.len() - 1].name));
        }
        if all_simple_names(v) {
            assert forall|i: int| 0 <= i < v.len() implies simple_name(#[trigger] v[i].name) && simple_names(v[i]) by {
                if i < v.len() - 1 {
                    assert(v.drop_last()[i] == v[i]);
                    assert(simple_name(v.drop_last()[i].name) && simple_names(v.drop_last()[i]));
                } else {
                    assert(v.last() == v[i]);
                }
            }
        }
    }
}

proof fn lemma_all_paths_below(v: Seq<DirNode>, parent: Seq<char>)
    ensures
        all_paths_below(v, parent) <==> forall|i: int|
            0 <= i < v.len() ==> #[trigger] v[i].path == join_path(parent, v[i].name) && paths_below(v[i]),
    decreases v.len(),
{
    if v.len() > 0 {
        lemma_all_paths_below(v.drop_last(), parent);
        if forall|i: int| 0 <= i < v.len() ==> #[trigger] v[i].path == join_path(parent, v[i].name) && paths_below(v[i]) {
            assert forall|i: int| 0 <= i < v.drop_last().len() implies #[trigger] v.drop_last()[i].path == join_path(
                parent,
                v.drop_last()[i].name,
            ) && paths_below(v.drop_last()[i]) by {
                assert(v.drop_last()[i] == v[i]);
            }
            assert(v[v.len() - 1].path == join_path(parent, v[v.len() - 1].name));
        }
        if all_paths_below(v, parent) {
            assert forall|i: int| 0 <= i < v.len() implies #[trigger] v[i].path == join_path(parent, v[i].name)
                && paths_below(v[i]) by {
                if i < v.len() - 1 {
                    assert(v.drop_last()[i] == v[i]);
                }
            }
        }
    }
}

proof fn lemma_entries_concat(a: Seq<DirNode>, b: Seq<DirNode>)
    ensures
        entries_all(a + b) == entries_all(a).add(entries_all(b)),
    decreases b.len(),
{
    if b.len() == 0 {
        assert(a + b =~= a);
        assert(entries_all(a).add(entries_all(b)) =~= entries_all(a));
    } else {
        lemma_entries_concat(a, b.drop_last());
        assert((a + b).drop_last() =~= a + b.drop_last());
        assert((a + b).last() == b.last());
        assert(entries_all(a + b) =~= entries_all(a).add(entries_all(b)));
    }
}

proof fn lemma_entries_single(y: DirNode)
    ensures
        entries_all(seq![y]) == file_entries(y),
{
    assert(seq![y].drop_last() =~= Seq::<DirNode>::empty());
    assert(entries_all(seq![y].drop_last()) == Multiset::<(usize, Seq<char>)>::empty());
    assert(entries_all(seq![y]) =~= file_entries(y));
}

proof fn lemma_entries_pointwise(a: Seq<DirNode>, b: Seq<DirNode>)
    requires
        a.len() == b.len(),
        forall|i: int| 0 <= i < a.len() ==> file_entries(#[trigger] a[i]) == file_entries(b[i]),
    ensures
        entries_all(a) == entries_all(b),
    decreases a.len(),
{
    if a.len() > 0 {
        assert forall|i: int| 0 <= i < a.drop_last().len() implies file_entries(#[trigger] a.drop_last()[i])
            == file_entries(b.drop_last()[i]) by {
            assert(a.drop_last()[i] == a[i]);
            assert(b.drop_last()[i] == b[i]);
        }
        lemma_entries_pointwise(a.drop_last(), b.drop_last());
        assert(file_entries(a[a.len() - 1]) == file_entries(b[b.len() - 1]));
    }
}


/// `n` is `key/rest`.
pub open spec fn keyed_name(n: Seq<char>, key: Seq<char>, rest: Seq<char>) -> bool {
    n == key + seq!['/'] + rest
}

/// `n` is a simple name, or the name of a directory merged under a key that is not
/// among `keys`.
spec fn named_for(n: Seq<char>, keys: Seq<Seq<char>>) -> bool {
    simple_name(n) || exists|k: Seq<char>, r: Seq<char>|
        #[trigger] keyed_name(n, k, r) && simple_name(k) && !keys.contains(k)
}

proof fn lemma_key_prefix(k1: Seq<char>, r1: Seq<char>, k2: Seq<char>, r2: Seq<char>)
    requires
        simple_name(k1),
        simple_name(k2),
        k1 + seq!['/'] + r1 == k2 + seq!['/'] + r2,
    ensures
        k1 == k2,
{
    let n = k1 + seq!['/'] + r1;
    if k1.len() < k2.len() {
        assert(n[k1.len() as int] == '/');
        assert(k2[k1.len() as int] == n[k1.len() as int]);
        assert(k2.contains('/'));
    } else if k2.len() < k1.len() {
        assert(n[k2.len() as int] == k1[k2.len() as int]);
        assert(k1.contains('/'));
    } else {
        assert(k1 =~= n.take(k1.len() as int));
        assert(k2 =~= n.take(k2.len() as int));
    }
}

proof fn lemma_join_merged(parent: Seq<char>, a: Seq<char>, b: Seq<char>)
    requires
        a.len() > 0,
    ensures
        join_path(join_path(parent, a), b) == join_path(parent, a + seq!['/'] + b),
{
    if parent.len() == 0 {
        assert(join_path(parent, a) == a);
    } else {
        assert(join_path(join_path(parent, a), b) =~= join_path(parent, a + seq!['/'] + b));
    }
}

proof fn lemma_merge_keys_keeps(s: Seq<DirNode>, ks: Seq<Seq<char>>, parent: Seq<char>)
    requires
        ks.no_duplicates(),
        forall|j: int| 0 <= j < ks.len() ==> simple_name(#[trigger] ks[j]),
        forall|i: int| 0 <= i < s.len() ==> named_for(#[trigger] s[i].name, ks),
        forall|i: int| 0 <= i < s.len() ==> #[trigger] s[i].path == join_path(parent, s[i].name) && paths_below(s[i]),
    ensures
        entries_all(merge_keys(s, ks)) == entries_all(s),
        forall|i: int|
            0 <= i < merge_keys(s, ks).len() ==> #[trigger] merge_keys(s, ks)[i].path == join_path(
                parent,
                merge_keys(s, ks)[i].name,
            ) && paths_below(merge_keys(s, ks)[i]),
    decreases ks.len(),
{
    if ks.len() > 0 {
        let k = ks[0];
        let rest = ks.drop_first();
        assert(simple_name(k));
        assert forall|y: Seq<char>| rest.contains(y) implies ks.contains(y) && y != k by {
            let j = choose|j: int| 0 <= j < rest.len() && rest[j] == y;
            assert(ks[j + 1] == y);
        }
        assert forall|j: int| 0 <= j < rest.len() implies simple_name(#[trigger] rest[j]) by {
            assert(rest[j] == ks[j + 1]);
        }
        assert(rest.no_duplicates()) by {
            assert forall|a: int, b: int| 0 <= a < rest.len() && 0 <= b < rest.len() && a != b implies rest[a] != rest[b] by {
                assert(rest[a] == ks[a + 1] && rest[b] == ks[b + 1]);
            }
        }
        let i = lookup(s, k);
        if i >= 0 && is_lone(s[i]) {
            let x = s[i];
            let c = x.dirs[0];
            let m = merged(x);
            assert(x.name == k);
            assert(keyed_name(m.name, k, c.name));
            let t = s.remove(i);
            assert forall|j: int| 0 <= j < t.len() implies #[trigger] t[j].name != m.name by {
                let j0 = if j < i { j } else { j + 1 };
                assert(t[j] == s[j0]);
                assert(named_for(s[j0].name, ks));
                if t[j].name == m.name {
                    if simple_name(t[j].name) {
                        assert(m.name[k.len() as int] == '/');
                        assert(t[j].name.contains('/'));
                    } else {
                        let (k2, r2) = choose|k2: Seq<char>, r2: Seq<char>|
                            #[trigger] keyed_name(s[j0].name, k2, r2) && simple_name(k2) && !ks.contains(k2);
                        lemma_key_prefix(k2, r2, k, c.name);
                        assert(ks.contains(k));
                    }
                }
            }
            let p = lower_bound(t, m.name);
            lemma_lower_bound_props(t, m.name);
            let s2 = t.insert(p, m);
            assert(place_dir(t, m) == s2);
            assert(merge_step(s, k) == s2);
            // the files stay
            assert(s =~= s.take(i) + seq![x] + s.skip(i + 1));
            assert(t =~= s.take(i) + s.skip(i + 1));
            lemma_entries_concat(s.take(i) + seq![x], s.skip(i + 1));
            lemma_entries_concat(s.take(i), seq![x]);
            lemma_entries_concat(s.take(i), s.skip(i + 1));
            lemma_entries_single(x);
            assert(s2 =~= t.take(p) + seq![m] + t.skip(p));
            assert(t =~= t.take(p) + t.skip(p));
            lemma_entries_concat(t.take(p) + seq![m], t.skip(p));
            lemma_entries_concat(t.take(p), seq![m]);
            lemma_entries_concat(t.take(p), t.skip(p));
            lemma_entries_single(m);
            assert(x.dirs =~= seq![c]);
            lemma_entries_single(c);
            assert(files_at(x.path, x.files) =~= Multiset::<(usize, Seq<char>)>::empty());
            assert(file_entries(x) =~= file_entries(c));
            assert(file_entries(m) == file_entries(c));
            let fa = entries_all(s.take(i));
            let fb = entries_all(s.skip(i + 1));
            let fc = entries_all(t.take(p));
            let fd = entries_all(t.skip(p));
            let fm = file_entries(c);
            assert(entries_all(s) == fa.add(fm).add(fb));
            assert(entries_all(t) == fa.add(fb));
            assert(entries_all(s2) == fc.add(fm).add(fd));
            assert(entries_all(t) == fc.add(fd));
            assert(fc.add(fm).add(fd) =~= fc.add(fd).add(fm));
            assert(fa.add(fm).add(fb) =~= fa.add(fb).add(fm));
            assert(entries_all(s2) == entries_all(s));
            // the paths stay consistent
            lemma_all_paths_below(x.dirs, x.path);
            assert(c.path == join_path(x.path, c.name) && paths_below(c));
            lemma_join_merged(parent, k, c.name);
            assert(m.path == join_path(parent, m.name));
            assert(paths_below(m));
            assert forall|j: int| 0 <= j < s2.len() implies named_for(#[trigger] s2[j].name, rest) && s2[j].path
                == join_path(parent, s2[j].name) && paths_below(s2[j]) by {
                if j == p {
                    assert(s2[j] == m);
                    assert(!rest.contains(k));
                } else {
                    let j1 = if j < p { j } else { j - 1 };
                    assert(s2[j] == t[j1]);
                    let j0 = if j1 < i { j1 } else { j1 + 1 };
                    assert(t[j1] == s[j0]);
                    assert(named_for(s[j0].name, ks));
                    assert(s[j0].path == join_path(parent, s[j0].name) && paths_below(s[j0]));
                    if !simple_name(s[j0].name) {
                        let (k2, r2) = choose|k2: Seq<char>, r2: Seq<char>|
                            #[trigger] keyed_name(s[j0].name, k2, r2) && simple_name(k2) && !ks.contains(k2);
                        assert(!rest.contains(k2));
                    }
                }
            }
            lemma_merge_keys_keeps(s2, rest, parent);
        } else {
            assert(merge_step(s, k) == s);
            assert forall|j: int| 0 <= j < s.len() implies named_for(#[trigger] s[j].name, rest) by {
                assert(named_for(s[j].name, ks));
                if !simple_name(s[j].name) {
                    let (k2, r2) = choose|k2: Seq<char>, r2: Seq<char>|
                        #[trigger] keyed_name(s[j].name, k2, r2) && simple_name(k2) && !ks.contains(k2);
                    assert(!rest.contains(k2));
                }
            }
            lemma_merge_keys_keeps(s, rest, parent);
        }
    }
}

/// Collapsing chains of single-child directories keeps every file: the files, each
/// with its index and full path (its directory's path joined with its name), are the
/// same before and after, and the files directly in `d` are untouched. In a tree whose
/// directories are each named by one path component and have their parent's path
/// joined with their name, every directory afterwards still has its parent's path
/// joined with its (possibly merged) name.
pub proof fn lemma_collapse_keeps_files(d: DirNode)
    requires
        well_formed(d),
        simple_names(d),
        paths_below(d),
    ensures
        file_entries(model_collapse(d)) == file_entries(d),
        paths_below(model_collapse(d)),
        model_collapse(d).files == d.files,
        model_collapse(d).name == d.name,
        model_collapse(d).path == d.path,
    decreases d,
{
    let cs = model_collapse_all(d.dirs);
    lemma_model_collapse_all(d.dirs);
    lemma_all_well_formed(d.dirs);
    lemma_all_simple_names(d.dirs);
    lemma_all_paths_below(d.dirs, d.path);
    assert forall|i: int| 0 <= i < cs.len() implies #[trigger] cs[i].name == d.dirs[i].name
        && file_entries(cs[i]) == file_entries(d.dirs[i]) && cs[i].path == join_path(d.path, cs[i].name)
        && paths_below(cs[i]) by {
        assert(cs[i] == model_collapse(d.dirs[i]));
        assert(well_formed(d.dirs[i]) && simple_names(d.dirs[i]) && paths_below(d.dirs[i]));
        lemma_collapse_keeps_files(d.dirs[i]);
    }
    assert forall|i: int| 0 <= i < cs.len() implies file_entries(#[trigger] cs[i]) == file_entries(d.dirs[i]) by {
        assert(cs[i].name == d.dirs[i].name);
    }
    lemma_entries_pointwise(cs, d.dirs);
    let ks = dir_names(cs);
    assert forall|j: int| 0 <= j < ks.len() implies simple_name(#[trigger] ks[j]) by {
        assert(ks[j] == cs[j].name);
        assert(simple_name(d.dirs[j].name));
    }
    assert(ks.no_duplicates()) by {
        assert forall|a: int, b: int| 0 <= a < ks.len() && 0 <= b < ks.len() && a != b implies ks[a] != ks[b] by {
            assert(ks[a] == d.dirs[a].name && ks[b] == d.dirs[b].name);
            if a < b {
                assert(seq_lt(d.dirs[a].name, d.dirs[b].name));
            } else {
                assert(seq_lt(d.dirs[b].name, d.dirs[a].name));
            }
            lemma_seq_lt_irreflexive(d.dirs[a].name);
        }
    }
    assert forall|i: int| 0 <= i < cs.len() implies named_for(#[trigger] cs[i].name, ks) by {
        assert(simple_name(d.dirs[i].name));
    }
    assert forall|i: int| 0 <= i < cs.len() implies #[trigger] cs[i].path == join_path(d.path, cs[i].name)
        && paths_below(cs[i]) by {
    }
    lemma_merge_keys_keeps(cs, ks, d.path);
    lemma_all_paths_below(merge_keys(cs, ks), d.path);
}

/// Adding a file keeps every directory's path its parent's path joined with its name.
pub proof fn lemma_insert_keeps_paths(d: DirNode, parts: Seq<Seq<char>>, index: usize, status: FileStatus)
    requires
        paths_below(d),
    ensures
        paths_below(model_insert(d, parts, d.path, index, status)),
        model_insert(d, parts, d.path, index, status).name == d.name,
        model_insert(d, parts, d.path, index, status).path == d.path,
    decreases parts.len(),
{
    let r = model_insert(d, parts, d.path, index, status);
    lemma_all_paths_below(d.dirs, d.path);
    if parts.len() > 1 {
        let name = parts[0];
        let path = join_path(d.path, name);
        let rest = parts.drop_first();
        let p = lower_bound(d.dirs, name);
        lemma_lower_bound_props(d.dirs, name);
        if p < d.dirs.len() && d.dirs[p].name == name {
            let sub = d.dirs[p];
            assert(sub.path == path);
            lemma_insert_keeps_paths(sub, rest, index, status);
            let m = model_insert(sub, rest, path, index, status);
            assert(r.dirs == d.dirs.update(p, m));
            assert forall|i: int| 0 <= i < r.dirs.len() implies #[trigger] r.dirs[i].path == join_path(r.path, r.dirs[i].name)
                && paths_below(r.dirs[i]) by {
                if i != p {
                    assert(r.dirs[i] == d.dirs[i]);
                }
            }
        } else {
            let e = empty_dir(name, path);
            assert(paths_below(e));
            lemma_insert_keeps_paths(e, rest, index, status);
            let m = model_insert(e, rest, path, index, status);
            assert(r.dirs == d.dirs.insert(p, m));
            assert forall|i: int| 0 <= i < r.dirs.len() implies #[trigger] r.dirs[i].path == join_path(r.path, r.dirs[i].name)
                && paths_below(r.dirs[i]) by {
                if i < p {
                    assert(r.dirs[i] == d.dirs[i]);
                } else if i > p {
                    assert(r.dirs[i] == d.dirs[i - 1]);
                }
            }
        }
        lemma_all_paths_below(r.dirs, r.path);
    }
}

proof fn lemma_simple_at(v: Seq<DirNode>, i: int)
    requires
        all_simple_names(v),
        0 <= i < v.len(),
    ensures
        simple_name(v[i].name),
        simple_names(v[i]),
    decreases v.len(),
{
    if i < v.len() - 1 {
        assert(v.drop_last()[i] == v[i]);
        lemma_simple_at(v.drop_last(), i);
    }
}

proof fn lemma_simple_from(v: Seq<DirNode>)
    requires
        forall|i: int| 0 <= i < v.len() ==> simple_name(#[trigger] v[i].name) && simple_names(v[i]),
    ensures
        all_simple_names(v),
    decreases v.len(),
{
    if v.len() > 0 {
        let u = v.drop_last();
        assert forall|i: int| 0 <= i < u.len() implies simple_name(#[trigger] u[i].name) && simple_names(u[i]) by {
            assert(u[i] == v[i]);
        }
        lemma_simple_from(u);
        assert(simple_name(v[v.len() - 1].name) && simple_names(v[v.len() - 1]));
    }
}

/// Adding a file whose directory parts are each one path component keeps every
/// directory named by one path component.
pub proof fn lemma_insert_keeps_simple_names(
    d: DirNode,
    parts: Seq<Seq<char>>,
    current: Seq<char>,
    index: usize,
    status: FileStatus,
)
    requires
        simple_names(d),
        forall|j: int| 0 <= j < parts.len() - 1 ==> simple_name(#[trigger] parts[j]),
    ensures
        simple_names(model_insert(d, parts, current, index, status)),
        model_insert(d, parts, current, index, status).name == d.name,
    decreases parts.len(),
{
    let r = model_insert(d, parts, current, index, status);
    if parts.len() > 1 {
        let name = parts[0];
        let path = join_path(current, name);
        let rest = parts.drop_first();
        assert(simple_name(parts[0]));
        assert forall|j: int| 0 <= j < rest.len() - 1 implies simple_name(#[trigger] rest[j]) by {
            assert(rest[j] == parts[j + 1]);
        }
        let p = lower_bound(d.dirs, name);
        lemma_lower_bound_props(d.dirs, name);
        if p < d.dirs.len() && d.dirs[p].name == name {
            let sub = d.dirs[p];
            lemma_simple_at(d.dirs, p);
            lemma_insert_keeps_simple_names(sub, rest, path, index, status);
            let m = model_insert(sub, rest, path, index, status);
            assert(r.dirs == d.dirs.update(p, m));
            assert forall|i: int| 0 <= i < r.dirs.len() implies simple_name(#[trigger] r.dirs[i].name)
                && simple_names(r.dirs[i]) by {
                if i != p {
                    assert(r.dirs[i] == d.dirs[i]);
                    lemma_simple_at(d.dirs, i);
                }
            }
        } else {
            let e = empty_dir(name, path);
            assert(simple_names(e));
            lemma_insert_keeps_simple_names(e, rest, path, index, status);
            let m = model_insert(e, rest, path, index, status);
            assert(r.dirs == d.dirs.insert(p, m));
            assert forall|i: int| 0 <= i < r.dirs.len() implies simple_name(#[trigger] r.dirs[i].name)
                && simple_names(r.dirs[i]) by {
                if i < p {
                    assert(r.dirs[i] == d.dirs[i]);
                    lemma_simple_at(d.dirs, i);
                } else if i > p {
                    assert(r.dirs[i] == d.dirs[i - 1]);
                    lemma_simple_at(d.dirs, i - 1);
                } else {
                    assert(r.dirs[i] == m);
                }
            }
        }
        lemma_simple_from(r.dirs);
        assert(simple_names(r));
    } else {
        assert(r.dirs == d.dirs);
    }
}

/// Sorting the files keeps every directory's name and path, so it keeps every
/// directory's path its parent's path joined with its name.
pub proof fn lemma_sort_keeps_paths(d: DirNode)
    requires
        paths_below(d),
    ensures
        paths_below(model_sort(d)),
    decreases d,
{
    let r = model_sort(d);
    lemma_model_sort_all(d.dirs);
    lemma_all_paths_below(d.dirs, d.path);
    assert forall|i: int| 0 <= i < r.dirs.len() implies #[trigger] r.dirs[i].path == join_path(r.path, r.dirs[i].name)
        && paths_below(r.dirs[i]) by {
        assert(r.dirs[i] == model_sort(d.dirs[i]));
        lemma_sort_keeps_paths(d.dirs[i]);
    }
    lemma_all_paths_below(r.dirs, r.path);
}

/// Sorting the files keeps every directory named by one path component.
pub proof fn lemma_sort_keeps_simple_names(d: DirNode)
    requires
        simple_names(d),
    ensures
        simple_names(model_sort(d)),
    decreases d,
{
    let r = model_sort(d);
    lemma_model_sort_all(d.dirs);
    assert forall|i: int| 0 <= i < r.dirs.len() implies simple_name(#[trigger] r.dirs[i].name)
        && simple_names(r.dirs[i]) by {
        assert(r.dirs[i] == model_sort(d.dirs[i]));
        lemma_simple_at(d.dirs, i);
        lemma_sort_keeps_simple_names(d.dirs[i]);
    }
    lemma_simple_from(r.dirs);
}

/// Every file of `fs` is one of `files`, by its index, and carries that file's status.
pub open spec fn files_match(fs: Seq<FileNode>, files: Seq<ChangedFile>) -> bool {
    forall|k: int|
        0 <= k < fs.len() ==> (#[trigger] fs[k]).index < files.len() && fs[k].status == files[fs[k].index as int].status
}

/// Every file in `d` or below it is one of `files`, by its index, and carries its status.
pub open spec fn statuses_match(d: DirNode, files: Seq<ChangedFile>) -> bool
    decreases d,
{
    files_match(d.files, files) && all_statuses_match(d.dirs, files)
}

/// `statuses_match` for every directory of `v`.
pub open spec fn all_statuses_match(v: Seq<DirNode>, files: Seq<ChangedFile>) -> bool
    decreases v,
{
    v.len() == 0 || (all_statuses_match(v.drop_last(), files) && statuses_match(v.last(), files))
}

/// Every file row of `rows` is one of `files`, by its index, and shows its status.
pub open spec fn rows_match(rows: Seq<RowNode>, files: Seq<ChangedFile>) -> bool {
    forall|k: int|
        0 <= k < rows.len() && (#[trigger] rows[k]) is File ==> rows[k]->File_index < files.len()
            && rows[k]->File_status == files[rows[k]->File_index as int].status
}

proof fn lemma_statuses_at(v: Seq<DirNode>, files: Seq<ChangedFile>, i: int)
    requires
        all_statuses_match(v, files),
        0 <= i < v.len(),
    ensures
        statuses_match(v[i], files),
    decreases v.len(),
{
    if i < v.len() - 1 {
        assert(v.drop_last()[i] == v[i]);
        lemma_statuses_at(v.drop_last(), files, i);
    }
}

proof fn lemma_statuses_from(v: Seq<DirNode>, files: Seq<ChangedFile>)
    requires
        forall|i: int| 0 <= i < v.len() ==> statuses_match(#[trigger] v[i], files),
    ensures
        all_statuses_match(v, files),
    decreases v.len(),
{
    if v.len() > 0 {
        let u = v.drop_last();
        assert forall|i: int| 0 <= i < u.len() implies statuses_match(#[trigger] u[i], files) by {
            assert(u[i] == v[i]);
        }
        lemma_statuses_from(u, files);
        assert(statuses_match(v[v.len() - 1], files));
    }
}

/// Inserting a file under the index of one of `files` with that file's status keeps
/// every file of the tree carrying the status of the file it stands for.
pub proof fn lemma_insert_keeps_statuses(
    d: DirNode,
    parts: Seq<Seq<char>>,
    current: Seq<char>,
    index: usize,
    status: FileStatus,
    files: Seq<ChangedFile>,
)
    requires
        statuses_match(d, files),
        index < files.len(),
        status == files[index as int].status,
    ensures
        statuses_match(model_insert(d, parts, current, index, status), files),
    decreases parts.len(),
{
    let r = model_insert(d, parts, current, index, status);
    if parts.len() <= 1 {
        let f = FileNode { index, name: parts[0], status };
        assert(r.files == d.files.push(f));
        assert forall|k: int| 0 <= k < r.files.len() implies (#[trigger] r.files[k]).index < files.len()
            && r.files[k].status == files[r.files[k].index as int].status by {
            if k < d.files.len() {
                assert(r.files[k] == d.files[k]);
            }
        }
        assert(r.dirs == d.dirs);
    } else {
        let name = parts[0];
        let path = join_path(current, name);
        let rest = parts.drop_first();
        let p = lower_bound(d.dirs, name);
        lemma_lower_bound_props(d.dirs, name);
        if p < d.dirs.len() && d.dirs[p].name == name {
            lemma_statuses_at(d.dirs, files, p);
            lemma_insert_keeps_statuses(d.dirs[p], rest, path, index, status, files);
            let m = model_insert(d.dirs[p], rest, path, index, status);
            assert(r.dirs == d.dirs.update(p, m));
            assert forall|i: int| 0 <= i < r.dirs.len() implies statuses_match(#[trigger] r.dirs[i], files) by {
                if i != p {
                    assert(r.dirs[i] == d.dirs[i]);
                    lemma_statuses_at(d.dirs, files, i);
                }
            }
        } else {
            let e = empty_dir(name, path);
            assert(statuses_match(e, files));
            lemma_insert_keeps_statuses(e, rest, path, index, status, files);
            let m = model_insert(e, rest, path, index, status);
            assert(r.dirs == d.dirs.insert(p, m));
            assert forall|i: int| 0 <= i < r.dirs.len() implies statuses_match(#[trigger] r.dirs[i], files) by {
                if i < p {
                    assert(r.dirs[i] == d.dirs[i]);
                    lemma_statuses_at(d.dirs, files, i);
                } else if i > p {
                    assert(r.dirs[i] == d.dirs[i - 1]);
                    lemma_statuses_at(d.dirs, files, i - 1);
                } else {
                    assert(r.dirs[i] == m);
                }
            }
        }
        lemma_statuses_from(r.dirs, files);
        assert(r.files == d.files);
    }
}

proof fn lemma_insert_by_name_members(s: Seq<FileNode>, f: FileNode)
    ensures
        forall|k: int|
            0 <= k < insert_by_name(s, f).len() ==> #[trigger] insert_by_name(s, f)[k] == f || s.contains(
                insert_by_name(s, f)[k],
            ),
    decreases s.len(),
{
    let r = insert_by_name(s, f);
    if s.len() > 0 && seq_lt(f.name, s.last().name) {
        let t = s.drop_last();
        lemma_insert_by_name_members(t, f);
        assert forall|k: int| 0 <= k < r.len() implies #[trigger] r[k] == f || s.contains(r[k]) by {
            let q = insert_by_name(t, f);
            if k < q.len() {
                assert(r[k] == q[k]);
                if q[k] != f {
                    let j = choose|j: int| 0 <= j < t.len() && t[j] == q[k];
                    assert(s[j] == t[j]);
                }
            } else {
                assert(r[k] == s.last());
                assert(s[s.len() - 1] == s.last());
            }
        }
    } else if s.len() > 0 {
        assert forall|k: int| 0 <= k < r.len() implies #[trigger] r[k] == f || s.contains(r[k]) by {
            if k < s.len() {
                assert(r[k] == s[k]);
            }
        }
    }
}

proof fn lemma_sort_by_name_members(fs: Seq<FileNode>)
    ensures
        forall|k: int| 0 <= k < sort_by_name(fs).len() ==> fs.contains(#[trigger] sort_by_name(fs)[k]),
    decreases fs.len(),
{
    if fs.len() > 0 {
        let t = fs.drop_last();
        lemma_sort_by_name_members(t);
        lemma_insert_by_name_members(sort_by_name(t), fs.last());
        let r = sort_by_name(fs);
        assert forall|k: int| 0 <= k < r.len() implies fs.contains(#[trigger] r[k]) by {
            if r[k] == fs.last() {
                assert(fs[fs.len() - 1] == fs.last());
            } else {
                let st = sort_by_name(t);
                let j = choose|j: int| 0 <= j < st.len() && st[j] == r[k];
                let j2 = choose|j2: int| 0 <= j2 < t.len() && t[j2] == st[j];
                assert(fs[j2] == t[j2]);
            }
        }
    }
}

/// Sorting the files keeps every file carrying the status of the file it stands for.
pub proof fn lemma_sort_keeps_statuses(d: DirNode, files: Seq<ChangedFile>)
    requires
        statuses_match(d, files),
    ensures
        statuses_match(model_sort(d), files),
    decreases d,
{
    let r = model_sort(d);
    lemma_model_sort_all(d.dirs);
    lemma_sort_by_name_members(d.files);
    assert forall|k: int| 0 <= k < r.files.len() implies (#[trigger] r.files[k]).index < files.len()
        && r.files[k].status == files[r.files[k].index as int].status by {
        let j = choose|j: int| 0 <= j < d.files.len() && d.files[j] == r.files[k];
        assert(d.files[j] == r.files[k]);
    }
    assert forall|i: int| 0 <= i < r.dirs.len() implies statuses_match(#[trigger] r.dirs[i], files) by {
        assert(r.dirs[i] == model_sort(d.dirs[i]));
        lemma_statuses_at(d.dirs, files, i);
        lemma_sort_keeps_statuses(d.dirs[i], files);
    }
    lemma_statuses_from(r.dirs, files);
}

proof fn lemma_merge_keys_keeps_statuses(s: Seq<DirNode>, ks: Seq<Seq<char>>, files: Seq<ChangedFile>)
    requires
        forall|i: int| 0 <= i < s.len() ==> statuses_match(#[trigger] s[i], files),
    ensures
        forall|i: int| 0 <= i < merge_keys(s, ks).len() ==> statuses_match(#[trigger] merge_keys(s, ks)[i], files),
    decreases ks.len(),
{
    if ks.len() > 0 {
        let k = ks[0];
        let i = lookup(s, k);
        let s2 = merge_step(s, k);
        if i >= 0 && is_lone(s[i]) {
            let x = s[i];
            let m = merged(x);
            assert(statuses_match(x, files));
            lemma_statuses_at(x.dirs, files, 0);
            assert(statuses_match(m, files));
            let t = s.remove(i);
            let p = lower_bound(t, m.name);
            lemma_lower_bound_props(t, m.name);
            assert forall|j: int| 0 <= j < s2.len() implies statuses_match(#[trigger] s2[j], files) by {
                if p < t.len() && t[p].name == m.name {
                    assert(s2 == t.update(p, m));
                    if j != p {
                        assert(s2[j] == t[j]);
                        assert(t[j] == s[if j < i { j } else { j + 1 }]);
                    }
                } else {
                    assert(s2 == t.insert(p, m));
                    if j < p {
                        assert(s2[j] == t[j]);
                        assert(t[j] == s[if j < i { j } else { j + 1 }]);
                    } else if j > p {
                        assert(s2[j] == t[j - 1]);
                        assert(t[j - 1] == s[if j - 1 < i { j - 1 } else { j }]);
                    }
                }
            }
        } else {
            assert(s2 == s);
        }
        lemma_merge_keys_keeps_statuses(s2, ks.drop_first(), files);
        assert(merge_keys(s, ks) == merge_keys(s2, ks.drop_first()));
    }
}

/// Collapsing chains of single-child directories keeps every file carrying the status
/// of the file it stands for.
pub proof fn lemma_collapse_keeps_statuses(d: DirNode, files: Seq<ChangedFile>)
    requires
        statuses_match(d, files),
    ensures
        statuses_match(model_collapse(d), files),
    decreases d,
{
    let cs = model_collapse_all(d.dirs);
    lemma_model_collapse_all(d.dirs);
    assert forall|i: int| 0 <= i < cs.len() implies statuses_match(#[trigger] cs[i], files) by {
        assert(cs[i] == model_collapse(d.dirs[i]));
        lemma_statuses_at(d.dirs, files, i);
        lemma_collapse_keeps_statuses(d.dirs[i], files);
    }
    lemma_merge_keys_keeps_statuses(cs, dir_names(cs), files);
    lemma_statuses_from(merge_keys(cs, dir_names(cs)), files);
}

/// Every file row shown for a tree whose files carry the statuses of the files they
/// stand for shows the status of its file.
pub proof fn lemma_rows_show_statuses(d: DirNode, expanded: Set<Seq<char>>, depth: int, files: Seq<ChangedFile>)
    requires
        statuses_match(d, files),
    ensures
        rows_match(visible_rows(d, expanded, depth), files),
    decreases d,
{
    lemma_dir_rows_show_statuses(d.dirs, expanded, depth, files);
    let a = dir_rows(d.dirs, expanded, depth);
    let b = file_rows(d.files, depth);
    assert forall|k: int| 0 <= k < b.len() && (#[trigger] b[k]) is File implies b[k]->File_index < files.len()
        && b[k]->File_status == files[b[k]->File_index as int].status by {
        assert(b[k] == RowNode::File { name: d.files[k].name, index: d.files[k].index, depth, status: d.files[k].status });
        assert(d.files[k].index < files.len());
    }
    lemma_rows_match_concat(a, b, files);
}

proof fn lemma_rows_match_concat(a: Seq<RowNode>, b: Seq<RowNode>, files: Seq<ChangedFile>)
    requires
        rows_match(a, files),
        rows_match(b, files),
    ensures
        rows_match(a + b, files),
{
    assert forall|k: int| 0 <= k < (a + b).len() && (#[trigger] (a + b)[k]) is File implies (a + b)[k]->File_index
        < files.len() && (a + b)[k]->File_status == files[(a + b)[k]->File_index as int].status by {
        if k < a.len() {
            assert((a + b)[k] == a[k]);
        } else {
            assert((a + b)[k] == b[k - a.len()]);
        }
    }
}

proof fn lemma_dir_rows_show_statuses(v: Seq<DirNode>, expanded: Set<Seq<char>>, depth: int, files: Seq<ChangedFile>)
    requires
        all_statuses_match(v, files),
    ensures
        rows_match(dir_rows(v, expanded, depth), files),
    decreases v,
{
    if v.len() > 0 {
        let d = v.last();
        lemma_dir_rows_show_statuses(v.drop_last(), expanded, depth, files);
        let open = expanded.contains(d.path);
        let head = seq![RowNode::Dir { name: d.name, path: d.path, depth, expanded: open }];
        let tail = if open {
            visible_rows(d, expanded, depth + 1)
        } else {
            Seq::empty()
        };
        if open {
            lemma_rows_show_statuses(d, expanded, depth + 1, files);
        }
        lemma_rows_match_concat(dir_rows(v.drop_last(), expanded, depth), head, files);
        lemma_rows_match_concat(dir_rows(v.drop_last(), expanded, depth) + head, tail, files);
    }
}

} // verus!
