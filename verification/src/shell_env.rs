use vstd::prelude::*;

verus! {

/// Index of the first `b` at or after `from` in `s`, or the length when there is none.
pub open spec fn byte_index(s: Seq<u8>, b: u8, from: int) -> int
    decreases s.len() - from,
{
    if from < 0 || from >= s.len() {
        s.len() as int
    } else if s[from] == b {
        from
    } else {
        byte_index(s, b, from + 1)
    }
}

pub proof fn lemma_byte_index(s: Seq<u8>, b: u8, from: int)
    requires
        0 <= from,
    ensures
        from <= byte_index(s, b, from) || byte_index(s, b, from) == s.len(),
        byte_index(s, b, from) <= s.len(),
        byte_index(s, b, from) < s.len() ==> s[byte_index(s, b, from)] == b,
        forall|k: int| from <= k < byte_index(s, b, from) ==> s[k] != b,
    decreases s.len() - from,
{
    if from < s.len() && s[from] != b {
        lemma_byte_index(s, b, from + 1);
    }
}

proof fn lemma_byte_index_at(s: Seq<u8>, b: u8, from: int, j: int)
    requires
        0 <= from <= j <= s.len(),
        forall|k: int| from <= k < j ==> s[k] != b,
        j < s.len() ==> s[j] == b,
    ensures
        byte_index(s, b, from) == j,
    decreases j - from,
{
    if from < j {
        lemma_byte_index_at(s, b, from + 1, j);
    }
}

/// The variable that one `NAME=value` entry sets: the bytes before its first `=` and
/// those after it, or nothing for an empty entry or one without `=`.
pub open spec fn env_entry(entry: Seq<u8>) -> Seq<(Seq<u8>, Seq<u8>)> {
    let k = byte_index(entry, 61u8, 0);
    if entry.len() == 0 || k >= entry.len() {
        Seq::empty()
    } else {
        seq![(entry.take(k), entry.skip(k + 1))]
    }
}

/// The variables set by the NUL-separated entries of `s` from byte `start` on (the output
/// of `env -0`).
pub open spec fn env_from(s: Seq<u8>, start: int) -> Seq<(Seq<u8>, Seq<u8>)>
    decreases s.len() - start,
{
    if start < 0 || start > s.len() {
        Seq::empty()
    } else {
        let j = byte_index(s, 0u8, start);
        proof {
            lemma_byte_index(s, 0u8, start);
        }
        env_entry(s.subrange(start, j)) + if j < s.len() {
            env_from(s, j + 1)
        } else {
            Seq::empty()
        }
    }
}

/// The variables listed by `env -0`: its output split at NUL bytes, each entry split at
/// its first `=`, entries that are empty or have no `=` left out.
pub open spec fn spec_parse_env_output(bytes: Seq<u8>) -> Seq<(Seq<u8>, Seq<u8>)> {
    env_from(bytes, 0)
}

/// A name and value by their bytes.
pub open spec fn pair_view(p: (Vec<u8>, Vec<u8>)) -> (Seq<u8>, Seq<u8>) {
    (p.0@, p.1@)
}

fn copy_range(s: &[u8], from: usize, to: usize) -> (r: Vec<u8>)
    requires
        from <= to <= s@.len(),
    ensures
        r@ == s@.subrange(from as int, to as int),
{
    let mut r: Vec<u8> = Vec::new();
    let mut i: usize = from;
    while i < to
        invariant
            from <= i <= to <= s@.len(),
            r@ == s@.subrange(from as int, i as int),
        decreases to - i,
    {
        r.push(s[i]);
        proof {
            assert(s@.subrange(from as int, i + 1) =~= s@.subrange(from as int, i as int).push(s@[i as int]));
        }
        i = i + 1;
    }
    r
}

fn push_entry(bytes: &[u8], start: usize, end: usize, r: &mut Vec<(Vec<u8>, Vec<u8>)>)
    requires
        start <= end <= bytes@.len(),
    ensures
        final(r)@.map_values(|p: (Vec<u8>, Vec<u8>)| pair_view(p)) == old(r)@.map_values(
            |p: (Vec<u8>, Vec<u8>)| pair_view(p),
        ) + env_entry(bytes@.subrange(start as int, end as int)),
{
    let ghost s = bytes@;
    let ghost before = r@.map_values(|p: (Vec<u8>, Vec<u8>)| pair_view(p));
    let ghost chunk = s.subrange(start as int, end as int);
    let mut k: usize = start;
    while k < end && bytes[k] != 61u8
        invariant
            s == bytes@,
            start <= k <= end <= s.len(),
            forall|q: int| start <= q < k ==> s[q] != 61u8,
        decreases end - k,
    {
        k = k + 1;
    }
    proof {
        lemma_byte_index_at(chunk, 61u8, 0, (k - start) as int);
    }
    if start < end && k < end {
        let name = copy_range(bytes, start, k);
        let value = copy_range(bytes, k + 1, end);
        proof {
            assert(name@ =~= chunk.take((k - start) as int));
            assert(value@ =~= chunk.skip((k - start) + 1));
        }
        r.push((name, value));
        proof {
            assert(r@.map_values(|p: (Vec<u8>, Vec<u8>)| pair_view(p)) =~= before + env_entry(chunk));
        }
    } else {
        proof {
            assert(env_entry(chunk) =~= Seq::<(Seq<u8>, Seq<u8>)>::empty());
            assert(r@.map_values(|p: (Vec<u8>, Vec<u8>)| pair_view(p)) =~= before + env_entry(chunk));
        }
    }
}

/// The variables listed in the output of `env -0` (see `spec_parse_env_output`).
pub fn parse_env_output(bytes: &[u8]) -> (r: Vec<(Vec<u8>, Vec<u8>)>)
    ensures
        r@.map_values(|p: (Vec<u8>, Vec<u8>)| pair_view(p)) == spec_parse_env_output(bytes@),
{
    let n = bytes.len();
    let mut r: Vec<(Vec<u8>, Vec<u8>)> = Vec::new();
    let mut start: usize = 0;
    let mut i: usize = 0;
    let ghost s = bytes@;
    proof {
        assert(r@.map_values(|p: (Vec<u8>, Vec<u8>)| pair_view(p)) + env_from(s, 0) =~= env_from(s, 0));
    }
    while i < n
        invariant
            s == bytes@,
            n == s.len(),
            start <= i <= n,
            forall|k: int| start <= k < i ==> s[k] != 0u8,
            r@.map_values(|p: (Vec<u8>, Vec<u8>)| pair_view(p)) + env_from(s, start as int) == env_from(s, 0),
        decreases n - i,
    {
        if bytes[i] == 0u8 {
            proof {
                lemma_byte_index_at(s, 0u8, start as int, i as int);
            }
            let ghost chunk = s.subrange(start as int, i as int);
            push_entry(bytes, start, i, &mut r);
            proof {
                assert(env_from(s, start as int) == env_entry(chunk) + env_from(s, i + 1));
                assert(r@.map_values(|p: (Vec<u8>, Vec<u8>)| pair_view(p)) + env_from(s, i + 1) =~= env_from(s, 0));
            }
            start = i + 1;
        }
        i = i + 1;
    }
    proof {
        lemma_byte_index_at(s, 0u8, start as int, n as int);
    }
    let ghost chunk = s.subrange(start as int, n as int);
    push_entry(bytes, start, n, &mut r);
    proof {
        assert(env_from(s, start as int) == env_entry(chunk) + Seq::<(Seq<u8>, Seq<u8>)>::empty());
        assert(r@.map_values(|p: (Vec<u8>, Vec<u8>)| pair_view(p)) =~= env_from(s, 0));
    }
    r
}

/// The variables that describe the shell process itself are not imported.
pub open spec fn spec_should_import_var(name: Seq<u8>) -> bool {
    !(name == "PWD"@.map_values(|c: char| c as u8) || name == "OLDPWD"@.map_values(|c: char| c as u8) || name
        == "SHLVL"@.map_values(|c: char| c as u8) || name == "_"@.map_values(|c: char| c as u8))
}

fn bytes_are(name: &Vec<u8>, text: &str) -> (b: bool)
    requires
        vstd::string::is_ascii(text),
    ensures
        b == (name@ == text@.map_values(|c: char| c as u8)),
{
    let t = text.as_bytes();
    proof {
        vstd::string::is_ascii_spec_bytes(text);
        assert(t@ =~= text@.map_values(|c: char| c as u8));
    }
    if name.len() != t.len() {
        return false;
    }
    let mut i: usize = 0;
    while i < t.len()
        invariant
            name@.len() == t@.len(),
            t@ == text@.map_values(|c: char| c as u8),
            i <= t@.len(),
            forall|k: int| 0 <= k < i ==> name@[k] == t@[k],
        decreases t@.len() - i,
    {
        if name[i] != t[i] {
            proof {
                assert(name@[i as int] != t@[i as int]);
            }
            return false;
        }
        i = i + 1;
    }
    proof {
        assert(name@ =~= t@);
    }
    true
}

/// Whether a variable of the login shell is imported: all but `PWD`, `OLDPWD`, `SHLVL`
/// and `_`.
pub fn should_import_var(name: &Vec<u8>) -> (b: bool)
    ensures
        b == spec_should_import_var(name@),
{
    proof {
        reveal_strlit("PWD");
        reveal_strlit("OLDPWD");
        reveal_strlit("SHLVL");
        reveal_strlit("_");
    }
    !(bytes_are(name, "PWD") || bytes_are(name, "OLDPWD") || bytes_are(name, "SHLVL") || bytes_are(name, "_"))
}

/// The variables to import from the login shell, in order.
pub fn vars_to_import(vars: Vec<(Vec<u8>, Vec<u8>)>) -> (r: Vec<(Vec<u8>, Vec<u8>)>)
    ensures
        r@.map_values(|p: (Vec<u8>, Vec<u8>)| pair_view(p)) == vars@.map_values(
            |p: (Vec<u8>, Vec<u8>)| pair_view(p),
        ).filter(|p: (Seq<u8>, Seq<u8>)| spec_should_import_var(p.0)),
{
    let ghost all = vars@.map_values(|p: (Vec<u8>, Vec<u8>)| pair_view(p));
    let total = vars.len();
    let mut r: Vec<(Vec<u8>, Vec<u8>)> = Vec::new();
    let mut source = vars;
    let mut rest: Vec<(Vec<u8>, Vec<u8>)> = Vec::new();
    while source.len() > 0
        invariant
            all.len() == source@.len() + rest@.len(),
            forall|k: int| 0 <= k < source@.len() ==> pair_view(#[trigger] source@[k]) == all[k],
            forall|k: int| 0 <= k < rest@.len() ==> pair_view(#[trigger] rest@[k]) == all[all.len() - 1 - k],
        decreases source@.len(),
    {
        let v = source.pop().unwrap();
        rest.push(v);
    }
    let mut i: usize = 0;
    proof {
        assert(all.take(0) =~= Seq::<(Seq<u8>, Seq<u8>)>::empty());
        assert(all.take(0).filter(|p: (Seq<u8>, Seq<u8>)| spec_should_import_var(p.0)) =~= Seq::<
            (Seq<u8>, Seq<u8>),
        >::empty());
    }
    while rest.len() > 0
        invariant
            all.len() == total,
            all.len() == i + rest@.len(),
            forall|k: int| 0 <= k < rest@.len() ==> pair_view(#[trigger] rest@[k]) == all[all.len() - 1 - k],
            r@.map_values(|p: (Vec<u8>, Vec<u8>)| pair_view(p)) == all.take(i as int).filter(
                |p: (Seq<u8>, Seq<u8>)| spec_should_import_var(p.0),
            ),
        decreases rest@.len(),
    {
        let v = rest.pop().unwrap();
        proof {
            assert(pair_view(v) == all[i as int]);
            assert(all.take(i + 1).drop_last() =~= all.take(i as int));
            assert(all.take(i + 1).last() == all[i as int]);
            reveal(Seq::filter);
        }
        let ghost before = r@.map_values(|p: (Vec<u8>, Vec<u8>)| pair_view(p));
        if should_import_var(&v.0) {
            r.push(v);
            proof {
                assert(r@.map_values(|p: (Vec<u8>, Vec<u8>)| pair_view(p)) =~= before.push(all[i as int]));
            }
        } else {
            proof {
                assert(r@.map_values(|p: (Vec<u8>, Vec<u8>)| pair_view(p)) =~= before);
            }
        }
        i = i + 1;
    }
    proof {
        assert(all.take(i as int) =~= all);
    }
    r
}

/// The arguments that make a login shell print its environment, NUL-separated.
pub fn command_args_for_shell(_shell: &str) -> (r: [&'static str; 3])
    ensures
        r[0]@ == "-l"@,
        r[1]@ == "-c"@,
        r[2]@ == "env -0"@,
{
    ["-l", "-c", "env -0"]
}

} // verus!
