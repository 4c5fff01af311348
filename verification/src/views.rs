use vstd::prelude::*;
use crate::search::find_case_insensitive;
use crate::text::{
    byte_len, byte_offset, find_chars, lemma_byte_len_take_mono, lemma_byte_len_take_succ, lemma_search_from,
    lemma_take_full, spec_find, spec_to_lowercase, split_at_char, str_byte_len, substr, to_chars,
};

verus! {

/// Some prefix of `s` takes exactly `b` bytes: `b` falls on a character boundary.
pub open spec fn byte_boundary(s: Seq<char>, b: int) -> bool {
    exists|k: int| 0 <= k <= s.len() && #[trigger] byte_len(s.take(k)) == b
}

/// The number of characters whose encoding takes the first `b` bytes of `s`.
pub open spec fn char_at_byte(s: Seq<char>, b: int) -> int {
    choose|k: int| 0 <= k <= s.len() && #[trigger] byte_len(s.take(k)) == b
}

proof fn lemma_scalar_len(c: char)
    ensures
        vstd::utf8::encode_scalar(c as u32).len() >= 1,
{
    vstd::utf8::char_is_scalar(c);
}

/// Longer prefixes take strictly more bytes.
proof fn lemma_byte_len_strict(s: Seq<char>, i: int, j: int)
    requires
        0 <= i < j <= s.len(),
    ensures
        byte_len(s.take(i)) < byte_len(s.take(j)),
{
    lemma_byte_len_take_succ(s, i);
    lemma_scalar_len(s[i]);
    lemma_byte_len_take_mono(s, i + 1, j);
}

/// A boundary belongs to exactly one prefix.
proof fn lemma_char_at_byte(s: Seq<char>, k: int)
    requires
        0 <= k <= s.len(),
    ensures
        byte_boundary(s, byte_len(s.take(k)) as int),
        char_at_byte(s, byte_len(s.take(k)) as int) == k,
{
    let b = byte_len(s.take(k)) as int;
    assert(byte_boundary(s, b));
    let c = char_at_byte(s, b);
    if c < k {
        lemma_byte_len_strict(s, c, k);
    } else if c > k {
        lemma_byte_len_strict(s, k, c);
    }
}

/// The number of characters that the first `b` bytes of `s` encode, if `b` falls on a
/// character boundary.
fn char_index_at_byte(s: &str, cs: &Vec<char>, b: usize) -> (r: Option<usize>)
    requires
        cs@ == s@,
    ensures
        match r {
            Some(k) => k <= s@.len() && byte_len(s@.take(k as int)) == b,
            None => !byte_boundary(s@, b as int),
        },
{
    let total = str_byte_len(s);
    let mut i: usize = 0;
    let mut off: usize = 0;
    proof {
        assert(s@.take(0) =~= Seq::<char>::empty());
    }
    while i < cs.len() && off < b
        invariant
            cs@ == s@,
            i <= cs@.len(),
            off == byte_len(s@.take(i as int)),
            total == byte_len(s@),
            forall|k: int| 0 <= k < i ==> #[trigger] byte_len(s@.take(k)) < b,
        decreases cs@.len() - i,
    {
        proof {
            lemma_byte_len_take_succ(s@, i as int);
            lemma_byte_len_take_mono(s@, i + 1, s@.len() as int);
            lemma_take_full(s@);
            assert forall|k: int| 0 <= k < i + 1 implies #[trigger] byte_len(s@.take(k)) < b by {
                if k == i {
                } else {
                    assert(byte_len(s@.take(k)) < b);
                }
            }
        }
        off = off + crate::text::char_width(cs[i]);
        i = i + 1;
    }
    if off == b {
        Some(i)
    } else {
        proof {
            assert forall|k: int| 0 <= k <= s@.len() implies #[trigger] byte_len(s@.take(k)) != b by {
                if k > i {
                    lemma_byte_len_strict(s@, i as int, k);
                }
            }
        }
        None
    }
}

/// Byte offset where the query is first found in `line`: the query itself when the
/// search is case-sensitive, else the lowercased query in the lowercased line.
pub open spec fn match_start(
    line: Seq<char>,
    query: Seq<char>,
    query_lower: Seq<char>,
    case_sensitive: bool,
) -> Option<nat> {
    if case_sensitive {
        spec_find(line, query)
    } else {
        spec_find(spec_to_lowercase(line), query_lower)
    }
}

/// `line` split around the first match of the query: the text before it, the matched
/// text (as many bytes as the query has, from the match's byte offset) and the text after
/// it. When the query is empty, is not found, or the byte range does not fall on
/// character boundaries of `line`, the whole line and two empty parts.
pub open spec fn spec_split_first_match(
    line: Seq<char>,
    query: Seq<char>,
    query_lower: Seq<char>,
    case_sensitive: bool,
) -> (Seq<char>, Seq<char>, Seq<char>) {
    let whole = (line, Seq::<char>::empty(), Seq::<char>::empty());
    if query.len() == 0 {
        whole
    } else {
        match match_start(line, query, query_lower, case_sensitive) {
            Some(b) => {
                let e = (b + byte_len(query)) as int;
                if byte_boundary(line, b as int) && byte_boundary(line, e) {
                    let ks = char_at_byte(line, b as int);
                    let ke = char_at_byte(line, e);
                    (line.take(ks), line.subrange(ks, ke), line.skip(ke))
                } else {
                    whole
                }
            },
            None => whole,
        }
    }
}

/// Finds the byte offset of `query` in `line`.
fn find_str(line: &str, query: &str) -> (r: Option<usize>)
    ensures
        match r {
            Some(k) => spec_find(line@, query@) == Some(k as nat),
            None => spec_find(line@, query@) is None,
        },
{
    let cs = to_chars(line);
    let qs = to_chars(query);
    match find_chars(&cs, &qs) {
        Some(k) => {
            proof {
                lemma_search_from(cs@, qs@, 0);
            }
            Some(byte_offset(line, &cs, k))
        },
        None => None,
    }
}

/// Splits `line` around the first match of the query, for highlighting it: see
/// `spec_split_first_match`.
pub fn split_first_match<'a>(line: &'a str, query: &str, query_lower: &str, case_sensitive: bool) -> (r: (
    &'a str,
    &'a str,
    &'a str,
))
    ensures
        (r.0@, r.1@, r.2@) == spec_split_first_match(line@, query@, query_lower@, case_sensitive),
{
    let empty = "";
    proof {
        reveal_strlit("");
    }
    let qlen = str_byte_len(query);
    let total = str_byte_len(line);
    if qlen == 0 {
        proof {
            assert(query@.len() == 0) by {
                if query@.len() > 0 {
                    lemma_byte_len_strict(query@, 0, query@.len() as int);
                    lemma_take_full(query@);
                }
            }
        }
        return (line, empty, empty);
    }
    proof {
        assert(query@.len() > 0) by {
            if query@.len() == 0 {
                assert(query@ =~= Seq::<char>::empty());
                assert(byte_len(query@) == 0);
            }
        }
    }
    let start = if case_sensitive {
        find_str(line, query)
    } else {
        let r = find_case_insensitive(line, query_lower);
        proof {
            match r {
                Some(k) => assert(spec_find(spec_to_lowercase(line@), query_lower@) == Some(k as nat)),
                None => {},
            }
        }
        r
    };
    let b = match start {
        Some(b) => b,
        None => {
            return (line, empty, empty);
        },
    };
    let e = match b.checked_add(qlen) {
        Some(e) => e,
        None => {
            proof {
                assert forall|k: int| 0 <= k <= line@.len() implies #[trigger] byte_len(line@.take(k)) != b + qlen by {
                    lemma_byte_len_take_mono(line@, k, line@.len() as int);
                    lemma_take_full(line@);
                }
            }
            return (line, empty, empty);
        },
    };
    let cs = to_chars(line);
    let ks = match char_index_at_byte(line, &cs, b) {
        Some(k) => k,
        None => {
            return (line, empty, empty);
        },
    };
    let ke = match char_index_at_byte(line, &cs, e) {
        Some(k) => k,
        None => {
            return (line, empty, empty);
        },
    };
    proof {
        lemma_char_at_byte(line@, ks as int);
        lemma_char_at_byte(line@, ke as int);
        if ke < ks {
            lemma_byte_len_strict(line@, ke as int, ks as int);
        }
    }
    let n = cs.len();
    proof {
        lemma_take_full(line@);
    }
    let before = substr(line, 0, ks, 0, b);
    let matched = substr(line, ks, ke, b, e);
    let after = substr(line, ke, n, e, total);
    proof {
        assert(line@.take(0) =~= Seq::<char>::empty());
        assert(line@.subrange(0, ks as int) =~= line@.take(ks as int));
        assert(line@.subrange(ke as int, n as int) =~= line@.skip(ke as int));
    }
    (before, matched, after)
}

} // verus!

verus! {

/// Index of the last `c` in `s`, or -1.
pub open spec fn last_index(s: Seq<char>, c: char) -> int
    decreases s.len(),
{
    if s.len() == 0 {
        -1
    } else if s.last() == c {
        s.len() - 1
    } else {
        last_index(s.drop_last(), c)
    }
}

/// A path split at its last `'/'` into directory and file name; a path without `'/'`
/// lies in the repository root.
pub open spec fn spec_split_path_parts(path: Seq<char>) -> (Seq<char>, Seq<char>) {
    let k = last_index(path, '/');
    if k >= 0 {
        (path.take(k), path.skip(k + 1))
    } else {
        ("(repo root)"@, path)
    }
}

/// Splits a path into its directory and its file name (see `spec_split_path_parts`).
pub fn split_path_parts(path: &str) -> (r: (&str, &str))
    ensures
        (r.0@, r.1@) == spec_split_path_parts(path@),
{
    let cs = to_chars(path);
    let mut i: usize = cs.len();
    proof {
        assert(cs@.take(i as int) =~= cs@);
    }
    while i > 0 && cs[i - 1] != '/'
        invariant
            cs@ == path@,
            i <= cs@.len(),
            last_index(cs@, '/') == last_index(cs@.take(i as int), '/'),
        decreases i,
    {
        proof {
            assert(cs@.take(i as int).drop_last() =~= cs@.take(i - 1));
        }
        i = i - 1;
    }
    if i == 0 {
        proof {
            assert(cs@.take(0) =~= Seq::<char>::empty());
        }
        ("(repo root)", path)
    } else {
        let k = i - 1;
        proof {
            assert(cs@.take(i as int).last() == cs@[k as int]);
        }
        let n = cs.len();
        let off_k = byte_offset(path, &cs, k);
        let off_i = byte_offset(path, &cs, i);
        let off_n = byte_offset(path, &cs, n);
        let dir = substr(path, 0, k, 0, off_k);
        let name = substr(path, i, n, off_i, off_n);
        proof {
            assert(path@.take(0) =~= Seq::<char>::empty());
            assert(path@.subrange(0, k as int) =~= path@.take(k as int));
            assert(path@.subrange(i as int, n as int) =~= path@.skip(i as int));
        }
        (dir, name)
    }
}

/// The first character of a diff line, when it is one of `+`, `-`, `@` and space.
pub open spec fn is_diff_prefix(c: char) -> bool {
    c == '+' || c == '-' || c == '@' || c == ' '
}

/// A diff line split after its prefix character, or into an empty prefix and the whole
/// line when it has none.
pub open spec fn spec_split_diff_prefix(line: Seq<char>) -> (Seq<char>, Seq<char>) {
    if line.len() > 0 && is_diff_prefix(line[0]) {
        (line.take(1), line.skip(1))
    } else {
        (Seq::empty(), line)
    }
}

/// Splits the prefix character off a diff line (see `spec_split_diff_prefix`).
pub fn split_diff_prefix(line: &str) -> (r: (&str, &str))
    ensures
        (r.0@, r.1@) == spec_split_diff_prefix(line@),
{
    let cs = to_chars(line);
    if cs.len() > 0 && (cs[0] == '+' || cs[0] == '-' || cs[0] == '@' || cs[0] == ' ') {
        let w = byte_offset(line, &cs, 1);
        split_at_char(line, 1, w)
    } else {
        let empty = "";
        proof {
            reveal_strlit("");
        }
        (empty, line)
    }
}

} // verus!
