use vstd::prelude::*;
use vstd::string::StringSliceAdditionalSpecFns;
use vstd::utf8::{encode_utf8, decode_utf8, is_char_boundary};
use crate::git::diff::{ChangedFile, FileStatus, file_view, file_views};
use crate::text::{
    byte_len, byte_offset, find_chars, first_match, lemma_search_from, spec_lines, spec_trim,
    split_lines, substr, to_chars, trim, views,
};

verus! {

broadcast use vstd::utf8::encode_utf8_decode_utf8, vstd::utf8::encode_utf8_valid_utf8;

/// The status of a `git status --porcelain` entry from its index and work-tree columns.
pub open spec fn spec_porcelain_status(x: char, y: char) -> FileStatus {
    if x == '?' && y == '?' {
        FileStatus::Untracked
    } else if x == 'R' || y == 'R' {
        FileStatus::Renamed
    } else if x == 'A' || y == 'A' {
        FileStatus::Added
    } else if x == 'D' || y == 'D' {
        FileStatus::Deleted
    } else if x == 'M' || y == 'M' || x == 'T' || y == 'T' {
        FileStatus::Modified
    } else {
        FileStatus::Other
    }
}

/// The entry has changes in the index.
pub open spec fn spec_index_changed(x: char, y: char) -> bool {
    if x == '?' && y == '?' {
        false
    } else {
        x != ' ' && x != '?'
    }
}

/// The entry has changes in the work tree.
pub open spec fn spec_worktree_changed(x: char, y: char) -> bool {
    if x == '?' && y == '?' {
        true
    } else {
        y != ' ' && y != '?'
    }
}

/// What the two columns of a porcelain entry say of its status: `??` is an untracked
/// file; otherwise a rename in either column makes the entry renamed, else an addition
/// in either column makes it added, else a deletion in either column makes it deleted,
/// else a modification or type change in either column makes it modified; anything else
/// is another status. The two columns count alike: swapping them changes nothing but
/// the untracked mark, which needs both.
pub proof fn lemma_porcelain_status_columns(x: char, y: char)
    ensures
        (x == '?' && y == '?') ==> spec_porcelain_status(x, y) == FileStatus::Untracked,
        !(x == '?' && y == '?') && (x == 'R' || y == 'R') ==> spec_porcelain_status(x, y) == FileStatus::Renamed,
        !(x == '?' && y == '?') && x != 'R' && y != 'R' && (x == 'A' || y == 'A') ==> spec_porcelain_status(x, y)
            == FileStatus::Added,
        !(x == '?' && y == '?') && x != 'R' && y != 'R' && x != 'A' && y != 'A' && (x == 'D' || y == 'D')
            ==> spec_porcelain_status(x, y) == FileStatus::Deleted,
        !(x == '?' && y == '?') && x != 'R' && y != 'R' && x != 'A' && y != 'A' && x != 'D' && y != 'D' && (x
            == 'M' || y == 'M' || x == 'T' || y == 'T') ==> spec_porcelain_status(x, y) == FileStatus::Modified,
        spec_porcelain_status(x, y) == FileStatus::Other <==> !(x == '?' && y == '?') && x != 'R' && y != 'R'
            && x != 'A' && y != 'A' && x != 'D' && y != 'D' && x != 'M' && y != 'M' && x != 'T' && y != 'T',
        spec_porcelain_status(x, y) == spec_porcelain_status(y, x),
        spec_porcelain_status(' ', 'D') == FileStatus::Deleted,
        spec_porcelain_status('D', ' ') == FileStatus::Deleted,
        spec_porcelain_status(' ', 'M') == FileStatus::Modified,
        spec_porcelain_status('M', ' ') == FileStatus::Modified,
        spec_index_changed(x, y) <==> !(x == '?' && y == '?') && x != ' ' && x != '?',
        spec_worktree_changed(x, y) <==> (x == '?' && y == '?') || (y != ' ' && y != '?'),
{
}

/// The status of a porcelain entry; see `spec_porcelain_status`.
pub fn parse_porcelain_status(x: char, y: char) -> (s: FileStatus)
    ensures
        s == spec_porcelain_status(x, y),
{
    if x == '?' && y == '?' {
        return FileStatus::Untracked;
    }
    if x == 'R' || y == 'R' {
        return FileStatus::Renamed;
    }
    if x == 'A' || y == 'A' {
        return FileStatus::Added;
    }
    if x == 'D' || y == 'D' {
        return FileStatus::Deleted;
    }
    if x == 'M' || y == 'M' || x == 'T' || y == 'T' {
        return FileStatus::Modified;
    }
    FileStatus::Other
}

/// Whether a porcelain entry has changes in the index.
pub fn is_index_changed(x: char, y: char) -> (b: bool)
    ensures
        b == spec_index_changed(x, y),
{
    if x == '?' && y == '?' {
        return false;
    }
    x != ' ' && x != '?'
}

/// Whether a porcelain entry has changes in the work tree.
pub fn is_worktree_changed(x: char, y: char) -> (b: bool)
    ensures
        b == spec_worktree_changed(x, y),
{
    if x == '?' && y == '?' {
        return true;
    }
    y != ' ' && y != '?'
}

/// The rename marker between the old and the new path of an entry.
pub open spec fn rename_arrow() -> Seq<char> {
    seq![' ', '-', '>', ' ']
}

/// The path of an entry from the text after its status columns: the new path of a
/// rename (after the first `" -> "`), else the whole text.
pub open spec fn entry_path(path_part: Seq<char>) -> Seq<char> {
    if first_match(path_part, rename_arrow()) >= 0 {
        path_part.skip(first_match(path_part, rename_arrow()) + 4)
    } else {
        path_part
    }
}

/// A porcelain line can be cut after its first three bytes.
pub open spec fn porcelain_line_ok(line: Seq<char>) -> bool {
    byte_len(line) >= 4 ==> is_char_boundary(encode_utf8(line), 3)
}

/// The entry of one porcelain line: none when the line is shorter than four bytes;
/// the first two bytes are the status columns, the text from the fourth byte on holds
/// the path.
pub open spec fn status_entry(line: Seq<char>) -> Option<(Seq<char>, FileStatus, bool, bool)> {
    if byte_len(line) < 4 {
        None
    } else {
        let x = encode_utf8(line)[0] as char;
        let y = encode_utf8(line)[1] as char;
        let path_part = decode_utf8(encode_utf8(line).skip(3));
        Some(
            (
                entry_path(path_part),
                spec_porcelain_status(x, y),
                spec_index_changed(x, y),
                spec_worktree_changed(x, y),
            ),
        )
    }
}

/// The entries of the first `n` lines, in order.
pub open spec fn status_entries(lines: Seq<Seq<char>>, n: int) -> Seq<(Seq<char>, FileStatus, bool, bool)>
    decreases n,
{
    if n <= 0 {
        Seq::empty()
    } else {
        match status_entry(lines[n - 1]) {
            Some(e) => status_entries(lines, n - 1).push(e),
            None => status_entries(lines, n - 1),
        }
    }
}

fn parse_status_line(line: &str) -> (r: Option<ChangedFile>)
    requires
        porcelain_line_ok(line@),
    ensures
        match r {
            Some(f) => status_entry(line@) == Some(file_view(f)),
            None => status_entry(line@) is None,
        },
{
    let bytes = line.as_bytes();
    if bytes.len() < 4 {
        return None;
    }
    let x = bytes[0] as char;
    let y = bytes[1] as char;
    let (_, path_part) = line.split_at(3);
    proof {
        assert(path_part.spec_bytes() =~= encode_utf8(line@).skip(3));
        assert(decode_utf8(encode_utf8(path_part@)) == path_part@);
    }
    let pcs = to_chars(path_part);
    let arrow_text = " -> ";
    proof {
        reveal_strlit(" -> ");
    }
    let arrow = to_chars(arrow_text);
    proof {
        assert(arrow@ =~= rename_arrow());
    }
    let path = match find_chars(&pcs, &arrow) {
        Some(k) => {
            proof {
                lemma_search_from(pcs@, arrow@, 0);
            }
            let n = pcs.len();
            let from = k + 4;
            let off_from = byte_offset(path_part, &pcs, from);
            let off_n = byte_offset(path_part, &pcs, n);
            proof {
                assert(path_part@.subrange(from as int, n as int) =~= path_part@.skip(from as int));
            }
            substr(path_part, from, n, off_from, off_n)
        },
        None => path_part,
    };
    let status = parse_porcelain_status(x, y);
    let staged = is_index_changed(x, y);
    let unstaged = is_worktree_changed(x, y);
    Some(ChangedFile { path: path.to_owned(), status, staged, unstaged })
}

/// The changed files listed by `git status --porcelain=v1`, one per line of at least
/// four bytes, in the order of the output; see `status_entry`.
pub fn parse_status_output(stdout: &str) -> (r: Vec<ChangedFile>)
    requires
        forall|i: int|
            0 <= i < spec_lines(stdout@).len() ==> porcelain_line_ok(#[trigger] spec_lines(stdout@)[i]),
    ensures
        file_views(r@) == status_entries(spec_lines(stdout@), spec_lines(stdout@).len() as int),
{
    let lines = split_lines(stdout);
    let mut r: Vec<ChangedFile> = Vec::new();
    let mut i: usize = 0;
    proof {
        assert(file_views(r@) =~= Seq::empty());
    }
    while i < lines.len()
        invariant
            views(lines@) == spec_lines(stdout@),
            forall|k: int|
                0 <= k < spec_lines(stdout@).len() ==> porcelain_line_ok(#[trigger] spec_lines(stdout@)[k]),
            i <= lines@.len(),
            file_views(r@) == status_entries(views(lines@), i as int),
        decreases lines@.len() - i,
    {
        proof {
            assert(views(lines@)[i as int] == lines@[i as int]@);
        }
        let ghost before = r@;
        match parse_status_line(lines[i]) {
            Some(f) => {
                r.push(f);
                proof {
                    assert(file_views(r@) =~= file_views(before).push(file_view(f)));
                }
            },
            None => {},
        }
        i = i + 1;
    }
    r
}

} // verus!

verus! {

/// The views of a sequence of strings.
pub open spec fn string_views(v: Seq<String>) -> Seq<Seq<char>> {
    v.map_values(|s: String| s@)
}

/// The non-empty trimmed lines among the first `n`, in order.
pub open spec fn trimmed_nonempty(lines: Seq<Seq<char>>, n: int) -> Seq<Seq<char>>
    decreases n,
{
    if n <= 0 {
        Seq::empty()
    } else if spec_trim(lines[n - 1]).len() > 0 {
        trimmed_nonempty(lines, n - 1).push(spec_trim(lines[n - 1]))
    } else {
        trimmed_nonempty(lines, n - 1)
    }
}

/// The branch names listed by `git branch --format=%(refname:short)`: each line
/// trimmed, empty ones left out.
pub fn parse_branch_list(stdout: &str) -> (r: Vec<String>)
    ensures
        string_views(r@) == trimmed_nonempty(spec_lines(stdout@), spec_lines(stdout@).len() as int),
{
    let lines = split_lines(stdout);
    let mut r: Vec<String> = Vec::new();
    let mut i: usize = 0;
    proof {
        assert(string_views(r@) =~= Seq::empty());
    }
    while i < lines.len()
        invariant
            views(lines@) == spec_lines(stdout@),
            i <= lines@.len(),
            string_views(r@) == trimmed_nonempty(views(lines@), i as int),
        decreases lines@.len() - i,
    {
        proof {
            assert(views(lines@)[i as int] == lines@[i as int]@);
        }
        let t = trim(lines[i]);
        if !t.is_empty() {
            let ghost before = r@;
            r.push(t.to_owned());
            proof {
                assert(string_views(r@) =~= string_views(before).push(t@));
            }
        }
        i = i + 1;
    }
    r
}

/// The trimmed output of a command (as the current branch name or a commit hash).
pub fn trimmed_output(stdout: &str) -> (r: String)
    ensures
        r@ == spec_trim(stdout@),
{
    trim(stdout).to_owned()
}

/// Index of the first NUL at or after `from`, or the length when there is none.
pub open spec fn nul_index(s: Seq<char>, from: int) -> int
    decreases s.len() - from,
{
    if from < 0 || from >= s.len() {
        s.len() as int
    } else if s[from] == '\0' {
        from
    } else {
        nul_index(s, from + 1)
    }
}

proof fn lemma_nul_index(s: Seq<char>, from: int)
    requires
        0 <= from,
    ensures
        from <= nul_index(s, from) <= s.len() || (from > s.len() && nul_index(s, from) == s.len()),
        nul_index(s, from) < s.len() ==> s[nul_index(s, from)] == '\0',
        forall|k: int| from <= k < nul_index(s, from) ==> s[k] != '\0',
    decreases s.len() - from,
{
    if from < s.len() && s[from] != '\0' {
        lemma_nul_index(s, from + 1);
    }
}

/// A log line split at its first three NULs into hash, author, relative date and
/// subject; none when it holds fewer than three NULs (as `splitn(4, '\0')`).
pub open spec fn log_entry(line: Seq<char>) -> Option<(Seq<char>, Seq<char>, Seq<char>, Seq<char>)> {
    let a = nul_index(line, 0);
    let b = nul_index(line, a + 1);
    let c = nul_index(line, b + 1);
    if c < line.len() {
        Some((line.subrange(0, a), line.subrange(a + 1, b), line.subrange(b + 1, c), line.skip(c + 1)))
    } else {
        None
    }
}

/// The log entries of the first `n` lines, in order.
pub open spec fn log_entries(lines: Seq<Seq<char>>, n: int) -> Seq<(Seq<char>, Seq<char>, Seq<char>, Seq<char>)>
    decreases n,
{
    if n <= 0 {
        Seq::empty()
    } else {
        match log_entry(lines[n - 1]) {
            Some(e) => log_entries(lines, n - 1).push(e),
            None => log_entries(lines, n - 1),
        }
    }
}

/// The log entries of lines `a` followed by lines `b` are those of `a` followed by those
/// of `b`: every line gives its entry in place, so the entries keep the order of the
/// lines.
pub proof fn lemma_log_entries_concat(a: Seq<Seq<char>>, b: Seq<Seq<char>>)
    ensures
        log_entries(a + b, (a + b).len() as int) == log_entries(a, a.len() as int) + log_entries(b, b.len() as int),
    decreases b.len(),
{
    if b.len() == 0 {
        assert(a + b =~= a);
        assert(log_entries(a, a.len() as int) + log_entries(b, 0) =~= log_entries(a, a.len() as int));
    } else {
        let b1 = b.drop_last();
        lemma_log_entries_concat(a, b1);
        assert((a + b).drop_last() =~= a + b1);
        lemma_log_entries_prefix(a + b, (a + b).len() - 1);
        lemma_log_entries_prefix(b, b.len() - 1);
        assert((a + b)[(a + b).len() - 1] == b[b.len() - 1]);
        match log_entry(b[b.len() - 1]) {
            Some(e) => {
                assert(log_entries(a, a.len() as int) + log_entries(b, b.len() as int) =~= (log_entries(
                    a,
                    a.len() as int,
                ) + log_entries(b1, b1.len() as int)).push(e));
            },
            None => {},
        }
    }
}

/// The entries of the first `n` lines depend on those lines alone.
proof fn lemma_log_entries_prefix(lines: Seq<Seq<char>>, n: int)
    requires
        0 <= n <= lines.len(),
    ensures
        log_entries(lines, n) == log_entries(lines.take(n), n),
    decreases n,
{
    if n > 0 {
        lemma_log_entries_prefix(lines, n - 1);
        lemma_log_entries_prefix(lines.take(n), n - 1);
        assert(lines.take(n).take(n - 1) =~= lines.take(n - 1));
        assert(lines.take(n)[n - 1] == lines[n - 1]);
    }
}

/// One line gives its entry when it is well formed, and nothing otherwise.
pub proof fn lemma_log_entries_single(line: Seq<char>)
    ensures
        log_entries(seq![line], 1) == match log_entry(line) {
            Some(e) => seq![e],
            None => Seq::empty(),
        },
{
    assert(log_entries(seq![line], 0) == Seq::<(Seq<char>, Seq<char>, Seq<char>, Seq<char>)>::empty());
    match log_entry(line) {
        Some(e) => assert(Seq::<(Seq<char>, Seq<char>, Seq<char>, Seq<char>)>::empty().push(e) =~= seq![e]),
        None => {},
    }
}

/// Two well-formed lines give their two entries in the order of the lines.
pub proof fn lemma_log_entries_in_order(l0: Seq<char>, l1: Seq<char>)
    requires
        log_entry(l0) is Some,
        log_entry(l1) is Some,
    ensures
        log_entries(seq![l0, l1], 2) == seq![log_entry(l0)->Some_0, log_entry(l1)->Some_0],
{
    lemma_log_entries_concat(seq![l0], seq![l1]);
    lemma_log_entries_single(l0);
    lemma_log_entries_single(l1);
    assert(seq![l0] + seq![l1] =~= seq![l0, l1]);
    assert(seq![log_entry(l0)->Some_0] + seq![log_entry(l1)->Some_0] =~= seq![
        log_entry(l0)->Some_0,
        log_entry(l1)->Some_0,
    ]);
}

/// A log entry by its values.
pub open spec fn log_view(e: (String, String, String, String)) -> (Seq<char>, Seq<char>, Seq<char>, Seq<char>) {
    (e.0@, e.1@, e.2@, e.3@)
}

fn find_nul(cs: &Vec<char>, from: usize) -> (k: usize)
    requires
        from <= cs@.len(),
    ensures
        k == nul_index(cs@, from as int),
        from <= k <= cs@.len(),
{
    proof {
        lemma_nul_index(cs@, from as int);
    }
    let mut k = from;
    while k < cs.len() && cs[k] != '\0'
        invariant
            from <= k <= cs@.len(),
            nul_index(cs@, from as int) == nul_index(cs@, k as int),
        decreases cs@.len() - k,
    {
        k = k + 1;
    }
    k
}

fn parse_log_line(line: &str) -> (r: Option<(String, String, String, String)>)
    ensures
        match r {
            Some(e) => log_entry(line@) == Some(log_view(e)),
            None => log_entry(line@) is None,
        },
{
    let cs = to_chars(line);
    let n = cs.len();
    let a = find_nul(&cs, 0);
    if a == n {
        proof {
            assert(nul_index(line@, a + 1) == n);
            assert(nul_index(line@, n + 1) == n);
        }
        return None;
    }
    let b = find_nul(&cs, a + 1);
    if b == n {
        proof {
            assert(nul_index(line@, n + 1) == n);
        }
        return None;
    }
    let c = find_nul(&cs, b + 1);
    if c == n {
        return None;
    }
    let oa = byte_offset(line, &cs, a);
    let oa1 = byte_offset(line, &cs, a + 1);
    let ob = byte_offset(line, &cs, b);
    let ob1 = byte_offset(line, &cs, b + 1);
    let oc = byte_offset(line, &cs, c);
    let oc1 = byte_offset(line, &cs, c + 1);
    let on = byte_offset(line, &cs, n);
    let o0 = byte_offset(line, &cs, 0);
    let hash = substr(line, 0, a, o0, oa);
    let author = substr(line, a + 1, b, oa1, ob);
    let date = substr(line, b + 1, c, ob1, oc);
    let subject = substr(line, c + 1, n, oc1, on);
    proof {
        assert(line@.subrange(c + 1, n as int) =~= line@.skip(c + 1));
    }
    Some((hash.to_owned(), author.to_owned(), date.to_owned(), subject.to_owned()))
}

/// The commits listed by `git log --format=%H%x00%an%x00%ar%x00%s`, as
/// `(hash, author, relative_date, subject)`; see `log_entry`.
pub fn parse_log_output(stdout: &str) -> (r: Vec<(String, String, String, String)>)
    ensures
        r@.map_values(|e: (String, String, String, String)| log_view(e)) == log_entries(
            spec_lines(stdout@),
            spec_lines(stdout@).len() as int,
        ),
{
    let lines = split_lines(stdout);
    let mut r: Vec<(String, String, String, String)> = Vec::new();
    let mut i: usize = 0;
    proof {
        assert(r@.map_values(|e: (String, String, String, String)| log_view(e)) =~= Seq::empty());
    }
    while i < lines.len()
        invariant
            views(lines@) == spec_lines(stdout@),
            i <= lines@.len(),
            r@.map_values(|e: (String, String, String, String)| log_view(e)) == log_entries(
                views(lines@),
                i as int,
            ),
        decreases lines@.len() - i,
    {
        proof {
            assert(views(lines@)[i as int] == lines@[i as int]@);
        }
        let ghost before = r@;
        match parse_log_line(lines[i]) {
            Some(e) => {
                r.push(e);
                proof {
                    assert(r@.map_values(|e: (String, String, String, String)| log_view(e))
                        =~= before.map_values(|e: (String, String, String, String)| log_view(e)).push(
                        log_view(e),
                    ));
                }
            },
            None => {},
        }
        i = i + 1;
    }
    r
}

} // verus!

verus! {

/// The `(status, path)` entry of one `git diff-tree --name-status` line: none for a
/// blank line; else the first byte of the trimmed line as a character and the text
/// from its third byte on (empty when the line cannot be cut there).
pub open spec fn commit_file_entry(line: Seq<char>) -> Option<(char, Seq<char>)> {
    let t = spec_trim(line);
    if t.len() == 0 {
        None
    } else {
        Some(
            (
                encode_utf8(t)[0] as char,
                if is_char_boundary(encode_utf8(t), 2) {
                    decode_utf8(encode_utf8(t).skip(2))
                } else {
                    Seq::empty()
                },
            ),
        )
    }
}

/// The entries of the first `n` lines, in order.
pub open spec fn commit_file_entries(lines: Seq<Seq<char>>, n: int) -> Seq<(char, Seq<char>)>
    decreases n,
{
    if n <= 0 {
        Seq::empty()
    } else {
        match commit_file_entry(lines[n - 1]) {
            Some(e) => commit_file_entries(lines, n - 1).push(e),
            None => commit_file_entries(lines, n - 1),
        }
    }
}

fn parse_commit_file_line(line: &str) -> (r: Option<(char, String)>)
    ensures
        match r {
            Some(e) => commit_file_entry(line@) == Some((e.0, e.1@)),
            None => commit_file_entry(line@) is None,
        },
{
    let t = trim(line);
    if t.is_empty() {
        return None;
    }
    let bytes = t.as_bytes();
    proof {
        assert(encode_utf8(t@).len() > 0) by {
            vstd::utf8::encode_utf8_first_scalar(t@);
        }
    }
    let status_char = bytes[0] as char;
    if t.is_char_boundary(2) {
        let (_, rest) = t.split_at(2);
        proof {
            assert(rest.spec_bytes() =~= encode_utf8(t@).skip(2));
            assert(decode_utf8(encode_utf8(rest@)) == rest@);
        }
        Some((status_char, rest.to_owned()))
    } else {
        Some((status_char, String::new()))
    }
}

/// The files of a commit listed by `git diff-tree --no-commit-id -r --name-status`, as
/// `(status_char, path)`; see `commit_file_entry`.
pub fn parse_commit_files(stdout: &str) -> (r: Vec<(char, String)>)
    ensures
        r@.map_values(|e: (char, String)| (e.0, e.1@)) == commit_file_entries(
            spec_lines(stdout@),
            spec_lines(stdout@).len() as int,
        ),
{
    let lines = split_lines(stdout);
    let mut r: Vec<(char, String)> = Vec::new();
    let mut i: usize = 0;
    proof {
        assert(r@.map_values(|e: (char, String)| (e.0, e.1@)) =~= Seq::empty());
    }
    while i < lines.len()
        invariant
            views(lines@) == spec_lines(stdout@),
            i <= lines@.len(),
            r@.map_values(|e: (char, String)| (e.0, e.1@)) == commit_file_entries(views(lines@), i as int),
        decreases lines@.len() - i,
    {
        proof {
            assert(views(lines@)[i as int] == lines@[i as int]@);
        }
        let ghost before = r@;
        match parse_commit_file_line(lines[i]) {
            Some(e) => {
                let ghost ev = (e.0, e.1@);
                r.push(e);
                proof {
                    assert(r@.map_values(|e: (char, String)| (e.0, e.1@)) =~= before.map_values(
                        |e: (char, String)| (e.0, e.1@),
                    ).push(ev));
                }
            },
            None => {},
        }
        i = i + 1;
    }
    r
}

/// The error text of a failed command: its trimmed standard error, else its trimmed
/// standard output, else `"<command> exited with status <status>"`.
pub open spec fn failure_details(stdout: Seq<char>, stderr: Seq<char>, command: Seq<char>, status: Seq<char>) -> Seq<char> {
    if spec_trim(stderr).len() > 0 {
        spec_trim(stderr)
    } else if spec_trim(stdout).len() > 0 {
        spec_trim(stdout)
    } else {
        command + " exited with status "@ + status
    }
}

/// `Ok` when the command succeeded, else the error text of `failure_details`.
pub fn ensure_success(success: bool, stdout: &str, stderr: &str, command: &str, status: &str) -> (r: Result<(), String>)
    ensures
        success ==> r is Ok,
        !success ==> (r matches Err(e) && e@ == failure_details(stdout@, stderr@, command@, status@)),
{
    if success {
        return Ok(());
    }
    let err = trim(stderr);
    let out = trim(stdout);
    if !err.is_empty() {
        Err(err.to_owned())
    } else if !out.is_empty() {
        Err(out.to_owned())
    } else {
        let mut details = command.to_owned();
        crate::text::push_str(&mut details, " exited with status ");
        crate::text::push_str(&mut details, status);
        Err(details)
    }
}

/// The arguments followed by the given paths.
pub open spec fn with_paths(args: Seq<Seq<char>>, paths: Seq<String>) -> Seq<Seq<char>> {
    args + string_views(paths)
}

fn push_paths(args: &mut Vec<String>, paths: &[String])
    ensures
        string_views(final(args)@) == string_views(old(args)@) + string_views(paths@),
{
    let mut i: usize = 0;
    let ghost start = args@;
    while i < paths.len()
        invariant
            i <= paths@.len(),
            string_views(args@) == string_views(start) + string_views(paths@.take(i as int)),
        decreases paths@.len() - i,
    {
        let ghost before = args@;
        args.push(paths[i].clone());
        proof {
            assert(string_views(paths@.take(i + 1)) =~= string_views(paths@.take(i as int)).push(paths@[i as int]@));
            assert(string_views(args@) =~= string_views(before).push(paths@[i as int]@));
        }
        i = i + 1;
    }
    proof {
        assert(paths@.take(paths@.len() as int) =~= paths@);
    }
}

/// The `git` arguments that stage `paths`; none when there is nothing to stage.
pub fn git_stage_paths(paths: &[String]) -> (r: Option<Vec<String>>)
    ensures
        paths@.len() == 0 ==> r is None,
        paths@.len() > 0 ==> (r matches Some(args) && string_views(args@) == with_paths(
            seq!["add"@, "--"@],
            paths@,
        )),
{
    if paths.len() == 0 {
        return None;
    }
    let mut args: Vec<String> = Vec::new();
    args.push("add".to_owned());
    args.push("--".to_owned());
    proof {
        assert(string_views(args@) =~= seq!["add"@, "--"@]);
    }
    push_paths(&mut args, paths);
    Some(args)
}

/// The `git` arguments that stage every change.
pub fn git_stage_all() -> (r: Vec<String>)
    ensures
        string_views(r@) == seq!["add"@, "--all"@, "--"@, "."@],
{
    let mut args: Vec<String> = Vec::new();
    args.push("add".to_owned());
    args.push("--all".to_owned());
    args.push("--".to_owned());
    args.push(".".to_owned());
    proof {
        assert(string_views(args@) =~= seq!["add"@, "--all"@, "--"@, "."@]);
    }
    args
}

/// The `git` arguments that unstage `paths`: `restore --staged` when the repository has
/// a `HEAD`, else `rm --cached`; none when there is nothing to unstage.
pub fn git_unstage_paths(paths: &[String], has_head: bool) -> (r: Option<Vec<String>>)
    ensures
        paths@.len() == 0 ==> r is None,
        paths@.len() > 0 && has_head ==> (r matches Some(args) && string_views(args@) == with_paths(
            seq!["restore"@, "--staged"@, "--"@],
            paths@,
        )),
        paths@.len() > 0 && !has_head ==> (r matches Some(args) && string_views(args@) == with_paths(
            seq!["rm"@, "--cached"@, "--"@],
            paths@,
        )),
{
    if paths.len() == 0 {
        return None;
    }
    let mut args: Vec<String> = Vec::new();
    if has_head {
        args.push("restore".to_owned());
        args.push("--staged".to_owned());
        args.push("--".to_owned());
        proof {
            assert(string_views(args@) =~= seq!["restore"@, "--staged"@, "--"@]);
        }
    } else {
        args.push("rm".to_owned());
        args.push("--cached".to_owned());
        args.push("--".to_owned());
        proof {
            assert(string_views(args@) =~= seq!["rm"@, "--cached"@, "--"@]);
        }
    }
    push_paths(&mut args, paths);
    Some(args)
}

/// The `git` arguments that unstage every change.
pub fn git_unstage_all(has_head: bool) -> (r: Vec<String>)
    ensures
        has_head ==> string_views(r@) == seq!["restore"@, "--staged"@, "--"@, "."@],
        !has_head ==> string_views(r@) == seq!["rm"@, "--cached"@, "-r"@, "--"@, "."@],
{
    let mut args: Vec<String> = Vec::new();
    if has_head {
        args.push("restore".to_owned());
        args.push("--staged".to_owned());
        args.push("--".to_owned());
        args.push(".".to_owned());
        proof {
            assert(string_views(args@) =~= seq!["restore"@, "--staged"@, "--"@, "."@]);
        }
    } else {
        args.push("rm".to_owned());
        args.push("--cached".to_owned());
        args.push("-r".to_owned());
        args.push("--".to_owned());
        args.push(".".to_owned());
        proof {
            assert(string_views(args@) =~= seq!["rm"@, "--cached"@, "-r"@, "--"@, "."@]);
        }
    }
    args
}

/// The `git` arguments that switch to `branch`.
pub fn git_switch_branch(branch: &str) -> (r: Vec<String>)
    ensures
        string_views(r@) == seq!["switch"@, branch@],
{
    let mut args: Vec<String> = Vec::new();
    args.push("switch".to_owned());
    args.push(branch.to_owned());
    proof {
        assert(string_views(args@) =~= seq!["switch"@, branch@]);
    }
    args
}

} // verus!

verus! {

/// The commands that `git_diff_file` tries in turn.
#[derive(Debug, Clone, Copy, PartialEq, Eq, Structural)]
pub enum DiffFileStep {
    /// Staged and unstaged changes against `HEAD`.
    Head,
    /// Staged changes only, for a repository without `HEAD`.
    Cached,
    /// The whole file as added, for an untracked file.
    NoIndex,
}

/// What to do after one step of `git_diff_file`.
#[derive(Debug, Clone)]
pub enum DiffFileProgress {
    /// The diff text.
    Done(String),
    /// Run this step next.
    Run(DiffFileStep),
}

/// The `git` arguments of a step of `git_diff_file` for `file_path`; `null_path` is the
/// platform's null device.
pub fn git_diff_file_args(step: DiffFileStep, file_path: &str, null_path: &str) -> (r: Vec<String>)
    ensures
        step == DiffFileStep::Head ==> string_views(r@) == seq!["diff"@, "HEAD"@, "--"@, file_path@],
        step == DiffFileStep::Cached ==> string_views(r@) == seq!["diff"@, "--cached"@, "--"@, file_path@],
        step == DiffFileStep::NoIndex ==> string_views(r@) == seq![
            "diff"@,
            "--no-index"@,
            "--"@,
            null_path@,
            file_path@,
        ],
{
    let mut args: Vec<String> = Vec::new();
    args.push("diff".to_owned());
    match step {
        DiffFileStep::Head => {
            args.push("HEAD".to_owned());
            args.push("--".to_owned());
        },
        DiffFileStep::Cached => {
            args.push("--cached".to_owned());
            args.push("--".to_owned());
        },
        DiffFileStep::NoIndex => {
            args.push("--no-index".to_owned());
            args.push("--".to_owned());
            args.push(null_path.to_owned());
        },
    }
    args.push(file_path.to_owned());
    proof {
        match step {
            DiffFileStep::Head => {
                assert(string_views(args@) =~= seq!["diff"@, "HEAD"@, "--"@, file_path@]);
            },
            DiffFileStep::Cached => {
                assert(string_views(args@) =~= seq!["diff"@, "--cached"@, "--"@, file_path@]);
            },
            DiffFileStep::NoIndex => {
                assert(string_views(args@) =~= seq![
                    "diff"@,
                    "--no-index"@,
                    "--"@,
                    null_path@,
                    file_path@,
                ]);
            },
        }
    }
    args
}

/// After a step of `git_diff_file` that exited with `success` and printed `stdout`:
/// the diff against `HEAD` is taken when that command succeeded with output, the
/// staged diff when it has output, and the untracked-file diff in any case.
pub fn git_diff_file_next(step: DiffFileStep, success: bool, stdout: String) -> (r: DiffFileProgress)
    ensures
        step == DiffFileStep::Head ==> if success && stdout@.len() > 0 {
            r matches DiffFileProgress::Done(d) && d@ == stdout@
        } else {
            r == DiffFileProgress::Run(DiffFileStep::Cached)
        },
        step == DiffFileStep::Cached ==> if stdout@.len() > 0 {
            r matches DiffFileProgress::Done(d) && d@ == stdout@
        } else {
            r == DiffFileProgress::Run(DiffFileStep::NoIndex)
        },
        step == DiffFileStep::NoIndex ==> (r matches DiffFileProgress::Done(d) && d@ == stdout@),
{
    match step {
        DiffFileStep::Head => {
            if success && !stdout.as_str().is_empty() {
                DiffFileProgress::Done(stdout)
            } else {
                DiffFileProgress::Run(DiffFileStep::Cached)
            }
        },
        DiffFileStep::Cached => {
            if !stdout.as_str().is_empty() {
                DiffFileProgress::Done(stdout)
            } else {
                DiffFileProgress::Run(DiffFileStep::NoIndex)
            }
        },
        DiffFileStep::NoIndex => DiffFileProgress::Done(stdout),
    }
}

/// The `git log` arguments for `count` commits after skipping `skip`.
pub fn git_log_args(count: usize, skip: usize) -> (r: Vec<String>)
    ensures
        string_views(r@) == seq![
            "log"@,
            "--format=%H%x00%an%x00%ar%x00%s"@,
            "-n"@ + crate::text::decimal(count as nat),
            "--skip="@ + crate::text::decimal(skip as nat),
        ],
{
    let mut args: Vec<String> = Vec::new();
    args.push("log".to_owned());
    args.push("--format=%H%x00%an%x00%ar%x00%s".to_owned());
    let mut n = "-n".to_owned();
    crate::text::push_decimal(&mut n, count);
    args.push(n);
    let mut s = "--skip=".to_owned();
    crate::text::push_decimal(&mut s, skip);
    args.push(s);
    proof {
        assert(string_views(args@) =~= seq![
            "log"@,
            "--format=%H%x00%an%x00%ar%x00%s"@,
            "-n"@ + crate::text::decimal(count as nat),
            "--skip="@ + crate::text::decimal(skip as nat),
        ]);
    }
    args
}

/// The `git` arguments that diff `file_path` between commit `sha` and its parent.
pub fn git_diff_commit_file_args(sha: &str, file_path: &str) -> (r: Vec<String>)
    ensures
        string_views(r@) == seq!["diff"@, sha@ + "^.."@ + sha@, "--"@, file_path@],
{
    let mut args: Vec<String> = Vec::new();
    args.push("diff".to_owned());
    let mut range = sha.to_owned();
    crate::text::push_str(&mut range, "^..");
    crate::text::push_str(&mut range, sha);
    args.push(range);
    args.push("--".to_owned());
    args.push(file_path.to_owned());
    proof {
        assert(string_views(args@) =~= seq!["diff"@, sha@ + "^.."@ + sha@, "--"@, file_path@]);
    }
    args
}

/// The `git show` arguments for `file_path` in commit `sha`, used when `sha` has no
/// parent.
pub fn git_show_commit_file_args(sha: &str, file_path: &str) -> (r: Vec<String>)
    ensures
        string_views(r@) == seq!["show"@, "--format="@, sha@, "--"@, file_path@],
{
    let mut args: Vec<String> = Vec::new();
    args.push("show".to_owned());
    args.push("--format=".to_owned());
    args.push(sha.to_owned());
    args.push("--".to_owned());
    args.push(file_path.to_owned());
    proof {
        assert(string_views(args@) =~= seq!["show"@, "--format="@, sha@, "--"@, file_path@]);
    }
    args
}

/// The commands that loading a file's diff within a commit tries in turn.
#[derive(Debug, Clone, Copy, PartialEq, Eq, Structural)]
pub enum CommitFileDiffStep {
    /// The diff between the commit and its parent.
    ParentDiff,
    /// `git show` of the commit (run with `GIT_PAGER=cat`), for a commit without a parent.
    Show,
}

/// What to do after one step of loading a file's diff within a commit.
#[derive(Debug)]
pub enum CommitFileDiffProgress {
    /// The diff text, or the error of the last command.
    Done(Result<String, String>),
    /// Run this step next.
    Run(CommitFileDiffStep),
}

/// The `git` arguments of a step of loading the diff of `file_path` in commit `sha`.
pub fn git_commit_file_diff_args(step: CommitFileDiffStep, sha: &str, file_path: &str) -> (r: Vec<String>)
    ensures
        step == CommitFileDiffStep::ParentDiff ==> string_views(r@) == seq![
            "diff"@,
            sha@ + "^.."@ + sha@,
            "--"@,
            file_path@,
        ],
        step == CommitFileDiffStep::Show ==> string_views(r@) == seq!["show"@, "--format="@, sha@, "--"@, file_path@],
{
    match step {
        CommitFileDiffStep::ParentDiff => git_diff_commit_file_args(sha, file_path),
        CommitFileDiffStep::Show => git_show_commit_file_args(sha, file_path),
    }
}

/// The name under which a failed `git show` of a commit's file is reported.
pub open spec fn show_fallback_command() -> Seq<char> {
    "git show (initial commit fallback)"@
}

/// After a step of loading a file's diff within a commit, whose command exited with
/// `success`, printed `stdout` and `stderr`, and ended with `status`: a successful
/// diff against the parent is the result; a failed one falls back to `git show`, whose
/// output is the result when it succeeds and whose failure (see `failure_details`) is
/// the error otherwise.
pub fn git_commit_file_diff_next(
    step: CommitFileDiffStep,
    success: bool,
    stdout: String,
    stderr: &str,
    status: &str,
) -> (r: CommitFileDiffProgress)
    ensures
        step == CommitFileDiffStep::ParentDiff ==> if success {
            r matches CommitFileDiffProgress::Done(Ok(d)) && d@ == stdout@
        } else {
            r == CommitFileDiffProgress::Run(CommitFileDiffStep::Show)
        },
        step == CommitFileDiffStep::Show ==> if success {
            r matches CommitFileDiffProgress::Done(Ok(d)) && d@ == stdout@
        } else {
            r matches CommitFileDiffProgress::Done(Err(e)) && e@ == failure_details(
                stdout@,
                stderr@,
                show_fallback_command(),
                status@,
            )
        },
{
    match step {
        CommitFileDiffStep::ParentDiff => {
            if success {
                CommitFileDiffProgress::Done(Ok(stdout))
            } else {
                CommitFileDiffProgress::Run(CommitFileDiffStep::Show)
            }
        },
        CommitFileDiffStep::Show => {
            proof {
                reveal_strlit("git show (initial commit fallback)");
            }
            match ensure_success(success, stdout.as_str(), stderr, "git show (initial commit fallback)", status) {
                Ok(()) => CommitFileDiffProgress::Done(Ok(stdout)),
                Err(e) => CommitFileDiffProgress::Done(Err(e)),
            }
        },
    }
}

/// The `git` arguments that commit the staged changes with message `summary`.
pub fn git_commit_args(summary: &str) -> (r: Vec<String>)
    ensures
        string_views(r@) == seq!["commit"@, "-m"@, summary@],
{
    let mut args: Vec<String> = Vec::new();
    args.push("commit".to_owned());
    args.push("-m".to_owned());
    args.push(summary.to_owned());
    proof {
        assert(string_views(args@) =~= seq!["commit"@, "-m"@, summary@]);
    }
    args
}

/// The `git` arguments that list the files of commit `sha`.
pub fn git_commit_files_args(sha: &str) -> (r: Vec<String>)
    ensures
        string_views(r@) == seq!["diff-tree"@, "--no-commit-id"@, "-r"@, "--name-status"@, sha@],
{
    let mut args: Vec<String> = Vec::new();
    args.push("diff-tree".to_owned());
    args.push("--no-commit-id".to_owned());
    args.push("-r".to_owned());
    args.push("--name-status".to_owned());
    args.push(sha.to_owned());
    proof {
        assert(string_views(args@) =~= seq!["diff-tree"@, "--no-commit-id"@, "-r"@, "--name-status"@, sha@]);
    }
    args
}

} // verus!
