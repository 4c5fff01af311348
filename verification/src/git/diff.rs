use vstd::prelude::*;
use crate::text::{lemma_seq_lt_total, lemma_seq_lt_transitive, lt_chars, push_char, seq_lt, spec_lines, to_chars};
use crate::git::cli::{parse_status_output, porcelain_line_ok, status_entries};

verus! {

/// How a file differs from the committed state.
#[derive(Debug, Clone, Copy, PartialEq, Eq, Structural)]
pub enum FileStatus {
    Added,
    Deleted,
    Modified,
    Renamed,
    Untracked,
    Other,
}

/// The one-character label of a status.
pub open spec fn status_symbol(s: FileStatus) -> char {
    match s {
        FileStatus::Added => 'A',
        FileStatus::Deleted => 'D',
        FileStatus::Modified => 'M',
        FileStatus::Renamed => 'R',
        FileStatus::Untracked => '?',
        FileStatus::Other => '!',
    }
}

impl FileStatus {
    /// The one-character label shown for this status.
    pub fn symbol(self) -> (c: char)
        ensures
            c == status_symbol(self),
    {
        match self {
            FileStatus::Added => 'A',
            FileStatus::Deleted => 'D',
            FileStatus::Modified => 'M',
            FileStatus::Renamed => 'R',
            FileStatus::Untracked => '?',
            FileStatus::Other => '!',
        }
    }
}

/// A file with changes in the working tree or the index.
#[derive(Debug, Clone)]
pub struct ChangedFile {
    pub path: String,
    pub status: FileStatus,
    pub staged: bool,
    pub unstaged: bool,
}

impl ChangedFile {
    /// Whether the file has changes in the index.
    pub fn is_staged(&self) -> (b: bool)
        ensures
            b == self.staged,
    {
        self.staged
    }

    /// Whether the file has changes in the working tree.
    pub fn is_unstaged(&self) -> (b: bool)
        ensures
            b == self.unstaged,
    {
        self.unstaged
    }
}

/// The diff text of one file, prepared for display.
#[derive(Debug, Clone)]
pub struct FileDiff {
    pub path: String,
    pub raw_patch: String,
}

/// A changed file by its values.
pub open spec fn file_view(f: ChangedFile) -> (Seq<char>, FileStatus, bool, bool) {
    (f.path@, f.status, f.staged, f.unstaged)
}

/// The views of a sequence of changed files.
pub open spec fn file_views(files: Seq<ChangedFile>) -> Seq<(Seq<char>, FileStatus, bool, bool)> {
    files.map_values(|f: ChangedFile| file_view(f))
}

/// Paths are strictly ascending.
pub open spec fn paths_ascending(r: Seq<(Seq<char>, FileStatus, bool, bool)>) -> bool {
    forall|i: int, j: int| 0 <= i < j < r.len() ==> seq_lt(r[i].0, r[j].0)
}

/// Adds `f` to the path-sorted `r` at its place, unless an entry with its path is there.
pub open spec fn insert_by_path(
    r: Seq<(Seq<char>, FileStatus, bool, bool)>,
    f: (Seq<char>, FileStatus, bool, bool),
) -> Seq<(Seq<char>, FileStatus, bool, bool)>
    decreases r.len(),
{
    if r.len() == 0 {
        seq![f]
    } else if seq_lt(f.0, r[0].0) {
        seq![f] + r
    } else if f.0 == r[0].0 {
        r
    } else {
        seq![r[0]] + insert_by_path(r.drop_first(), f)
    }
}

/// The entries sorted by path, keeping the first entry of each path (as a stable sort
/// by path followed by `dedup_by` on the path).
pub open spec fn sort_dedup_by_path_spec(
    fs: Seq<(Seq<char>, FileStatus, bool, bool)>,
) -> Seq<(Seq<char>, FileStatus, bool, bool)>
    decreases fs.len(),
{
    if fs.len() == 0 {
        Seq::empty()
    } else {
        insert_by_path(sort_dedup_by_path_spec(fs.drop_last()), fs.last())
    }
}

proof fn lemma_insert_by_path(
    r: Seq<(Seq<char>, FileStatus, bool, bool)>,
    f: (Seq<char>, FileStatus, bool, bool),
    p: int,
)
    requires
        paths_ascending(r),
        0 <= p <= r.len(),
        forall|k: int| 0 <= k < p ==> seq_lt(r[k].0, f.0),
        p < r.len() ==> !seq_lt(r[p].0, f.0),
    ensures
        insert_by_path(r, f) == if p < r.len() && r[p].0 == f.0 {
            r
        } else {
            r.take(p) + seq![f] + r.skip(p)
        },
        p < r.len() && r[p].0 != f.0 ==> seq_lt(f.0, r[p].0),
    decreases r.len(),
{
    if p < r.len() {
        lemma_seq_lt_total(r[p].0, f.0);
    }
    if r.len() == 0 {
        assert(r.take(p) + seq![f] + r.skip(p) =~= seq![f]);
    } else if p == 0 {
        lemma_seq_lt_total(r[0].0, f.0);
        if r[0].0 != f.0 {
            assert(r.take(p) + seq![f] + r.skip(p) =~= seq![f] + r);
        }
    } else {
        let t = r.drop_first();
        assert(seq_lt(r[0].0, f.0));
        lemma_seq_lt_total(r[0].0, f.0);
        lemma_insert_by_path(t, f, p - 1);
        if p < r.len() && r[p].0 == f.0 {
            assert(seq![r[0]] + t =~= r);
        } else {
            assert(seq![r[0]] + (t.take(p - 1) + seq![f] + t.skip(p - 1)) =~= r.take(p) + seq![f]
                + r.skip(p));
        }
    }
}

proof fn lemma_insert_keeps_ascending(
    r: Seq<(Seq<char>, FileStatus, bool, bool)>,
    f: (Seq<char>, FileStatus, bool, bool),
    p: int,
)
    requires
        paths_ascending(r),
        0 <= p <= r.len(),
        forall|k: int| 0 <= k < p ==> seq_lt(r[k].0, f.0),
        p < r.len() ==> seq_lt(f.0, r[p].0),
    ensures
        paths_ascending(r.take(p) + seq![f] + r.skip(p)),
{
    let n = r.take(p) + seq![f] + r.skip(p);
    assert forall|a: int, b: int| 0 <= a < b < n.len() implies seq_lt(n[a].0, n[b].0) by {
        if b == p {
        } else if a == p {
            assert(n[b] == r[b - 1]);
            if b - 1 > p {
                lemma_seq_lt_transitive(f.0, r[p].0, r[b - 1].0);
            }
        } else if a < p && b > p {
            assert(n[a] == r[a]);
            assert(n[b] == r[b - 1]);
            if b - 1 > p {
                lemma_seq_lt_transitive(f.0, r[p].0, r[b - 1].0);
            }
            lemma_seq_lt_transitive(r[a].0, f.0, r[b - 1].0);
        } else if b < p {
            assert(n[a] == r[a]);
            assert(n[b] == r[b]);
        } else {
            assert(n[a] == r[a - 1]);
            assert(n[b] == r[b - 1]);
        }
    }
}

fn copy_file(f: &ChangedFile) -> (g: ChangedFile)
    ensures
        file_view(g) == file_view(*f),
{
    ChangedFile { path: f.path.clone(), status: f.status, staged: f.staged, unstaged: f.unstaged }
}

/// The files sorted by path, keeping the first entry of each path; see
/// `sort_dedup_by_path_spec`.
pub fn sort_dedup_by_path(files: &Vec<ChangedFile>) -> (r: Vec<ChangedFile>)
    ensures
        file_views(r@) == sort_dedup_by_path_spec(file_views(files@)),
        paths_ascending(file_views(r@)),
{
    let mut r: Vec<ChangedFile> = Vec::new();
    let mut keys: Vec<Vec<char>> = Vec::new();
    let mut i: usize = 0;
    proof {
        assert(file_views(r@) =~= Seq::empty());
        assert(file_views(files@).take(0) =~= Seq::empty());
    }
    while i < files.len()
        invariant
            i <= files@.len(),
            keys@.len() == r@.len(),
            forall|q: int| 0 <= q < r@.len() ==> #[trigger] keys@[q]@ == r@[q].path@,
            file_views(r@) == sort_dedup_by_path_spec(file_views(files@).take(i as int)),
            paths_ascending(file_views(r@)),
        decreases files@.len() - i,
    {
        let f = &files[i];
        let key = to_chars(f.path.as_str());
        let mut p: usize = 0;
        while p < r.len() && lt_chars(&keys[p], &key)
            invariant
                keys@.len() == r@.len(),
                forall|q: int| 0 <= q < r@.len() ==> #[trigger] keys@[q]@ == r@[q].path@,
                key@ == f.path@,
                p <= r@.len(),
                forall|q: int| 0 <= q < p ==> seq_lt(r@[q].path@, key@),
            decreases r@.len() - p,
        {
            p = p + 1;
        }
        let ghost old_v = file_views(r@);
        let ghost fv = file_view(*f);
        proof {
            assert(file_views(files@).take(i + 1).drop_last() =~= file_views(files@).take(i as int));
            assert(file_views(files@).take(i + 1).last() == fv);
            assert(forall|q: int| 0 <= q < r@.len() ==> old_v[q] == file_view(#[trigger] r@[q]));
            lemma_insert_by_path(old_v, fv, p as int);
        }
        let same = p < r.len() && !lt_chars(&key, &keys[p]);
        if same {
            proof {
                lemma_seq_lt_total(key@, r@[p as int].path@);
            }
        } else {
            let g = copy_file(f);
            proof {
                if p < r@.len() {
                    lemma_seq_lt_total(key@, r@[p as int].path@);
                }
                lemma_insert_keeps_ascending(old_v, fv, p as int);
            }
            r.insert(p, g);
            keys.insert(p, key);
            proof {
                assert(file_views(r@) =~= old_v.take(p as int) + seq![fv] + old_v.skip(p as int));
                assert forall|q: int| 0 <= q < r@.len() implies #[trigger] keys@[q]@ == r@[q].path@ by {
                }
            }
        }
        i = i + 1;
    }
    proof {
        assert(file_views(files@).take(files@.len() as int) =~= file_views(files@));
    }
    r
}

/// `s` with every tab replaced by four spaces.
pub open spec fn expand_tabs(s: Seq<char>) -> Seq<char>
    decreases s.len(),
{
    if s.len() == 0 {
        Seq::empty()
    } else if s.last() == '\t' {
        expand_tabs(s.drop_last()) + seq![' ', ' ', ' ', ' ']
    } else {
        expand_tabs(s.drop_last()).push(s.last())
    }
}

/// The diff of `path` for display: the raw text with tabs expanded to four spaces.
pub fn parse_unified_diff(raw_diff: &str, path: &str, _status: FileStatus) -> (d: FileDiff)
    ensures
        d.path@ == path@,
        d.raw_patch@ == expand_tabs(raw_diff@),
{
    let mut out = String::new();
    let ghost mut consumed: Seq<char> = Seq::empty();
    for c in it: raw_diff.chars()
        invariant
            consumed == it.seq().take(it.index() as int),
            out@ == expand_tabs(consumed),
    {
        let ghost pre = consumed;
        proof {
            assert(it.seq().take(it.index() + 1).drop_last() =~= pre);
            consumed = consumed.push(c);
        }
        if c == '\t' {
            push_char(&mut out, ' ');
            push_char(&mut out, ' ');
            push_char(&mut out, ' ');
            push_char(&mut out, ' ');
            proof {
                assert(consumed.drop_last() =~= pre);
                assert(out@ =~= expand_tabs(pre) + seq![' ', ' ', ' ', ' ']);
            }
        } else {
            push_char(&mut out, c);
            proof {
                assert(consumed.drop_last() =~= pre);
            }
        }
    }
    proof {
        assert(consumed =~= raw_diff@);
    }
    FileDiff { path: path.to_owned(), raw_patch: out }
}

} // verus!

verus! {

/// The changed files of a repository from the output of
/// `git status --porcelain=v1 --untracked-files=all`: the entries sorted by path, one
/// per path.
pub fn get_changed_files(status_output: &str) -> (r: Vec<ChangedFile>)
    requires
        forall|i: int|
            0 <= i < spec_lines(status_output@).len() ==> porcelain_line_ok(
                #[trigger] spec_lines(status_output@)[i],
            ),
    ensures
        file_views(r@) == sort_dedup_by_path_spec(
            status_entries(spec_lines(status_output@), spec_lines(status_output@).len() as int),
        ),
{
    let files = parse_status_output(status_output);
    sort_dedup_by_path(&files)
}

} // verus!
