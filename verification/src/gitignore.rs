use vstd::prelude::*;
use crate::text::{push_char, push_str, spec_lines, spec_trim, split_lines, str_equal, to_chars, trim, views};

verus! {

/// `s` without its trailing `'/'` characters (as `str::trim_end_matches('/')`).
pub open spec fn trim_slashes(s: Seq<char>) -> Seq<char>
    decreases s.len(),
{
    if s.len() > 0 && s.last() == '/' {
        trim_slashes(s.drop_last())
    } else {
        s
    }
}

proof fn lemma_trim_slashes_take(s: Seq<char>, k: int)
    requires
        0 <= k <= s.len(),
        forall|j: int| k <= j < s.len() ==> s[j] == '/',
    ensures
        trim_slashes(s) == trim_slashes(s.take(k)),
    decreases s.len() - k,
{
    if k < s.len() {
        assert(s.drop_last().take(k) =~= s.take(k));
        lemma_trim_slashes_take(s.drop_last(), k);
    } else {
        assert(s.take(k) =~= s);
    }
}

/// `s` without its trailing `'/'` characters.
pub fn trim_end_slashes(s: &str) -> (r: String)
    ensures
        r@ == trim_slashes(s@),
{
    let cs = to_chars(s);
    let mut k: usize = cs.len();
    while k > 0 && cs[k - 1] == '/'
        invariant
            cs@ == s@,
            k <= cs@.len(),
            forall|j: int| k <= j < cs@.len() ==> cs@[j] == '/',
        decreases k,
    {
        k = k - 1;
    }
    proof {
        lemma_trim_slashes_take(s@, k as int);
        if k > 0 {
            assert(s@.take(k as int).last() == s@[k - 1]);
        }
    }
    let mut r = String::new();
    let mut i: usize = 0;
    while i < k
        invariant
            cs@ == s@,
            i <= k <= cs@.len(),
            r@ == s@.take(i as int),
        decreases k - i,
    {
        push_char(&mut r, cs[i]);
        proof {
            assert(s@.take(i + 1) =~= s@.take(i as int).push(s@[i as int]));
        }
        i = i + 1;
    }
    r
}

/// The line to add to `.gitignore` for `rel_path`: directories end in `'/'`.
pub open spec fn ignore_pattern(rel_path: Seq<char>, is_dir: bool) -> Seq<char> {
    if is_dir {
        rel_path + "/"@
    } else {
        rel_path
    }
}

/// A line of `content`, trimmed and without trailing slashes, equals `pattern` without
/// its trailing slashes.
pub open spec fn ignore_listed(content: Seq<char>, pattern: Seq<char>) -> bool {
    exists|i: int|
        0 <= i < spec_lines(content).len() && trim_slashes(spec_trim(#[trigger] spec_lines(content)[i]))
            == trim_slashes(pattern)
}

/// What adding a path to `.gitignore` does: the text to append, if any, and the message
/// to show.
pub struct IgnoreChange {
    pub append: Option<String>,
    pub message: String,
}

/// The text appended to `content` for `pattern`: the pattern on a line of its own.
pub open spec fn ignore_addition(content: Seq<char>, pattern: Seq<char>) -> Seq<char> {
    if content.len() > 0 && content.last() != '\n' {
        "\n"@ + pattern + "\n"@
    } else {
        pattern + "\n"@
    }
}

/// How `.gitignore`, holding `content` (empty when there is no such file), changes to
/// ignore `rel_path`: nothing when a line already ignores it, else the pattern (see
/// `ignore_pattern`) is appended on a line of its own.
pub fn ignore_change(content: &str, rel_path: &str, is_dir: bool) -> (c: IgnoreChange)
    ensures
        ({
            let pattern = ignore_pattern(rel_path@, is_dir);
            if ignore_listed(content@, pattern) {
                &&& c.append is None
                &&& c.message@ == rel_path@ + " already in .gitignore"@
            } else {
                &&& c.append matches Some(a) && a@ == ignore_addition(content@, pattern)
                &&& c.message@ == "Added "@ + rel_path@ + " to .gitignore"@
            }
        }),
{
    let mut pattern = rel_path.to_owned();
    if is_dir {
        push_str(&mut pattern, "/");
    }
    let wanted = trim_end_slashes(pattern.as_str());
    let lines = split_lines(content);
    let mut i: usize = 0;
    let mut found = false;
    while i < lines.len()
        invariant
            views(lines@) == spec_lines(content@),
            i <= lines@.len(),
            pattern@ == ignore_pattern(rel_path@, is_dir),
            wanted@ == trim_slashes(pattern@),
            found ==> ignore_listed(content@, pattern@),
            !found ==> forall|j: int|
                0 <= j < i ==> trim_slashes(spec_trim(#[trigger] spec_lines(content@)[j])) != wanted@,
        decreases lines@.len() - i,
    {
        let line = trim_end_slashes(trim(lines[i]));
        proof {
            assert(views(lines@)[i as int] == lines@[i as int]@);
        }
        if !found && str_equal(line.as_str(), wanted.as_str()) {
            found = true;
        }
        i = i + 1;
    }
    if found {
        let mut message = rel_path.to_owned();
        push_str(&mut message, " already in .gitignore");
        return IgnoreChange { append: None, message };
    }
    let cs = to_chars(content);
    let mut append = String::new();
    if cs.len() > 0 && cs[cs.len() - 1] != '\n' {
        push_char(&mut append, '\n');
    }
    push_str(&mut append, pattern.as_str());
    push_char(&mut append, '\n');
    let mut message = "Added ".to_owned();
    push_str(&mut message, rel_path);
    push_str(&mut message, " to .gitignore");
    proof {
        reveal_strlit("\n");
        reveal_strlit("/");
        assert(append@ =~= ignore_addition(content@, pattern@));
    }
    IgnoreChange { append: Some(append), message }
}

} // verus!
