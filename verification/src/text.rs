use vstd::prelude::*;
use vstd::utf8::*;
use vstd::string::StringSliceAdditionalSpecFns;

verus! {

broadcast use vstd::utf8::encode_utf8_decode_utf8, vstd::utf8::encode_utf8_valid_utf8;

/// Number of bytes of the UTF-8 encoding of `s`.
pub open spec fn byte_len(s: Seq<char>) -> nat {
    encode_utf8(s).len()
}

/// UTF-8 encoding distributes over concatenation.
pub proof fn lemma_encode_concat(a: Seq<char>, b: Seq<char>)
    ensures
        encode_utf8(a + b) == encode_utf8(a) + encode_utf8(b),
    decreases a.len(),
{
    if a.len() == 0 {
        assert(a + b =~= b);
        assert(encode_utf8(a) =~= Seq::<u8>::empty());
        assert(encode_utf8(a) + encode_utf8(b) =~= encode_utf8(b));
    } else {
        lemma_encode_concat(a.drop_first(), b);
        assert((a + b).drop_first() =~= a.drop_first() + b);
        assert((a + b)[0] == a[0]);
        assert(encode_utf8(a + b) =~= encode_scalar(a[0] as u32) + (encode_utf8(a.drop_first())
            + encode_utf8(b)));
    }
}

/// The encoding of a single character is the encoding of its scalar.
pub proof fn lemma_encode_single(c: char)
    ensures
        encode_utf8(seq![c]) == encode_scalar(c as u32),
{
    let s = seq![c];
    assert(s.drop_first() =~= Seq::<char>::empty());
    assert(encode_utf8(s.drop_first()) =~= Seq::<u8>::empty());
    assert(encode_utf8(s) =~= encode_scalar(c as u32) + Seq::<u8>::empty());
}

/// Byte length of a prefix extended by one character.
pub proof fn lemma_byte_len_take_succ(s: Seq<char>, i: int)
    requires
        0 <= i < s.len(),
    ensures
        byte_len(s.take(i + 1)) == byte_len(s.take(i)) + encode_scalar(s[i] as u32).len(),
{
    assert(s.take(i + 1) =~= s.take(i) + seq![s[i]]);
    lemma_encode_concat(s.take(i), seq![s[i]]);
    lemma_encode_single(s[i]);
}

/// The end of an encoded prefix is a character boundary.
pub proof fn lemma_prefix_is_boundary(a: Seq<char>, b: Seq<char>)
    ensures
        is_char_boundary(encode_utf8(a + b), byte_len(a) as int),
    decreases a.len(),
{
    if a.len() == 0 {
    } else {
        let bytes = encode_utf8(a + b);
        encode_utf8_first_scalar(a + b);
        assert((a + b).drop_first() =~= a.drop_first() + b);
        assert(pop_first_scalar(bytes) =~= encode_utf8(a.drop_first() + b));
        lemma_encode_concat(a.drop_first(), b);
        lemma_prefix_is_boundary(a.drop_first(), b);
        assert(encode_utf8(a) =~= encode_scalar(a[0] as u32) + encode_utf8(a.drop_first()));
    }
}

/// Number of bytes in the UTF-8 encoding of `c`.
pub fn char_width(c: char) -> (w: usize)
    ensures
        w == encode_scalar(c as u32).len(),
        1 <= w <= 4,
{
    proof {
        char_is_scalar(c);
    }
    let u = c as u32;
    if u < 0x80 {
        1
    } else if u < 0x800 {
        2
    } else if u < 0x10000 {
        3
    } else {
        4
    }
}

/// The characters of `s`, in order.
pub fn to_chars(s: &str) -> (r: Vec<char>)
    ensures
        r@ == s@,
{
    let mut r: Vec<char> = Vec::new();
    for c in it: s.chars()
        invariant
            r@ == it.seq().take(it.index() as int),
    {
        r.push(c);
    }
    assert(r@ =~= s@);
    r
}

/// Splits `s` after its first `k` characters, whose encoding takes `off` bytes.
pub fn split_at_char<'a>(s: &'a str, k: usize, off: usize) -> (r: (&'a str, &'a str))
    requires
        k <= s@.len(),
        off == byte_len(s@.take(k as int)),
    ensures
        r.0@ == s@.take(k as int),
        r.1@ == s@.skip(k as int),
{
    let ghost a = s@.take(k as int);
    let ghost b = s@.skip(k as int);
    proof {
        assert(a + b =~= s@);
        lemma_prefix_is_boundary(a, b);
        lemma_encode_concat(a, b);
    }
    let (x, y) = s.split_at(off);
    proof {
        assert(x.spec_bytes() =~= encode_utf8(a));
        assert(y.spec_bytes() =~= encode_utf8(b));
        assert(decode_utf8(encode_utf8(x@)) == x@);
        assert(decode_utf8(encode_utf8(a)) == a);
        assert(decode_utf8(encode_utf8(y@)) == y@);
        assert(decode_utf8(encode_utf8(b)) == b);
    }
    (x, y)
}

} // verus!

verus! {

/// Byte length of a prefix never exceeds the byte length of a longer prefix.
pub proof fn lemma_byte_len_take_mono(s: Seq<char>, i: int, j: int)
    requires
        0 <= i <= j <= s.len(),
    ensures
        byte_len(s.take(i)) <= byte_len(s.take(j)),
        byte_len(s.take(j)) - byte_len(s.take(i)) == byte_len(s.subrange(i, j)),
{
    assert(s.take(j) =~= s.take(i) + s.subrange(i, j));
    lemma_encode_concat(s.take(i), s.subrange(i, j));
}

/// The whole sequence is its longest prefix.
pub proof fn lemma_take_full(s: Seq<char>)
    ensures
        s.take(s.len() as int) == s,
{
    assert(s.take(s.len() as int) =~= s);
}

/// Byte length of a string slice fits in `usize`.
pub fn str_byte_len(s: &str) -> (n: usize)
    ensures
        n == byte_len(s@),
{
    let b = s.as_bytes();
    b.len()
}

/// Byte offset of the first `k` characters of `cs`, the characters of `s`.
pub fn byte_offset(s: &str, cs: &Vec<char>, k: usize) -> (off: usize)
    requires
        cs@ == s@,
        k <= cs@.len(),
    ensures
        off == byte_len(s@.take(k as int)),
{
    let total = str_byte_len(s);
    let mut off: usize = 0;
    let mut i: usize = 0;
    proof {
        assert(s@.take(0) =~= Seq::<char>::empty());
    }
    while i < k
        invariant
            cs@ == s@,
            k <= cs@.len(),
            i <= k,
            off == byte_len(s@.take(i as int)),
            total == byte_len(s@),
        decreases k - i,
    {
        proof {
            lemma_byte_len_take_succ(s@, i as int);
            lemma_byte_len_take_mono(s@, i + 1, s@.len() as int);
            lemma_take_full(s@);
        }
        let w = char_width(cs[i]);
        off = off + w;
        i = i + 1;
    }
    off
}

/// The characters `from..to` of `s` as a slice of `s`.
pub fn substr<'a>(s: &'a str, from: usize, to: usize, off_from: usize, off_to: usize) -> (r: &'a str)
    requires
        from <= to <= s@.len(),
        off_from == byte_len(s@.take(from as int)),
        off_to == byte_len(s@.take(to as int)),
    ensures
        r@ == s@.subrange(from as int, to as int),
{
    let (_, rest) = split_at_char(s, from, off_from);
    proof {
        lemma_byte_len_take_mono(s@, from as int, to as int);
        assert(rest@.take((to - from) as int) =~= s@.subrange(from as int, to as int));
    }
    let (mid, _) = split_at_char(rest, to - from, off_to - off_from);
    mid
}

/// Index of the first `'\n'` at or after `from`, or the length when there is none.
pub open spec fn newline_index(s: Seq<char>, from: int) -> int
    decreases s.len() - from,
{
    if from < 0 || from >= s.len() {
        s.len() as int
    } else if s[from] == '\n' {
        from
    } else {
        newline_index(s, from + 1)
    }
}

/// A line without its line terminator: one trailing `'\r'` is dropped.
pub open spec fn strip_cr(line: Seq<char>) -> Seq<char> {
    if line.len() > 0 && line.last() == '\r' {
        line.drop_last()
    } else {
        line
    }
}

pub proof fn lemma_newline_index_bounds(s: Seq<char>, from: int)
    requires
        0 <= from,
    ensures
        from <= newline_index(s, from) <= s.len() || newline_index(s, from) == s.len(),
        newline_index(s, from) < s.len() ==> s[newline_index(s, from)] == '\n',
        forall|k: int| from <= k < newline_index(s, from) ==> s[k] != '\n',
    decreases s.len() - from,
{
    if from < s.len() && s[from] != '\n' {
        lemma_newline_index_bounds(s, from + 1);
    }
}

/// The lines of `s` as `str::lines` yields them: split at `'\n'`, each line without
/// its terminator and without a `'\r'` that stood right before a `'\n'`; a final line
/// terminator does not start an empty last line.
pub open spec fn spec_lines(s: Seq<char>) -> Seq<Seq<char>>
    decreases s.len(),
{
    if s.len() == 0 {
        Seq::empty()
    } else {
        let j = newline_index(s, 0);
        if j < s.len() {
            proof {
                lemma_newline_index_bounds(s, 0);
            }
            seq![strip_cr(s.take(j))] + spec_lines(s.skip(j + 1))
        } else {
            seq![s]
        }
    }
}

proof fn lemma_newline_index_at(s: Seq<char>, from: int, j: int)
    requires
        0 <= from <= j <= s.len(),
        j < s.len() ==> s[j] == '\n',
        forall|k: int| from <= k < j ==> s[k] != '\n',
    ensures
        newline_index(s, from) == j,
    decreases j - from,
{
    if from < j {
        lemma_newline_index_at(s, from + 1, j);
    }
}

/// The views of a sequence of string slices.
pub open spec fn views(v: Seq<&str>) -> Seq<Seq<char>> {
    v.map_values(|l: &str| l@)
}

/// The lines of `s`, as slices of `s`; see `spec_lines`.
pub fn split_lines(s: &str) -> (r: Vec<&str>)
    ensures
        views(r@) == spec_lines(s@),
{
    let cs = to_chars(s);
    let n = cs.len();
    let mut r: Vec<&str> = Vec::new();
    let mut start: usize = 0;
    let mut start_off: usize = 0;
    let mut i: usize = 0;
    let mut off: usize = 0;
    proof {
        assert(s@.take(0) =~= Seq::<char>::empty());
        assert(s@.skip(0) =~= s@);
        assert(views(r@) + spec_lines(s@.skip(0)) =~= spec_lines(s@));
    }
    let total = str_byte_len(s);
    while i < n
        invariant
            cs@ == s@,
            n == s@.len(),
            total == byte_len(s@),
            start <= i <= n,
            start_off == byte_len(s@.take(start as int)),
            off == byte_len(s@.take(i as int)),
            forall|k: int| start <= k < i ==> s@[k] != '\n',
            views(r@) + spec_lines(s@.skip(start as int)) == spec_lines(s@),
        decreases n - i,
    {
        proof {
            lemma_byte_len_take_succ(s@, i as int);
            lemma_byte_len_take_mono(s@, i + 1, s@.len() as int);
            lemma_take_full(s@);
        }
        let w = char_width(cs[i]);
        if cs[i] == '\n' {
            let end: usize = if i > start && cs[i - 1] == '\r' { i - 1 } else { i };
            let end_off: usize = if end < i {
                proof {
                    lemma_byte_len_take_succ(s@, (i - 1) as int);
                }
                off - 1
            } else {
                off
            };
            proof {
                if end < i {
                    assert(s@[(i - 1) as int] == '\r');
                    assert(encode_scalar('\r' as u32).len() == 1);
                }
            }
            let line = substr(s, start, end, start_off, end_off);
            proof {
                let t = s@.skip(start as int);
                let j = (i - start) as int;
                lemma_newline_index_at(t, 0, j);
                assert(t.take(j) =~= s@.subrange(start as int, i as int));
                assert(strip_cr(t.take(j)) =~= s@.subrange(start as int, end as int));
                assert(t.skip(j + 1) =~= s@.skip(i + 1));
                assert(views(r@.push(line)) =~= views(r@).push(line@));
                assert(spec_lines(t) == seq![strip_cr(t.take(j))] + spec_lines(t.skip(j + 1)));
                assert(views(r@.push(line)) + spec_lines(s@.skip(i + 1)) =~= views(r@)
                    + spec_lines(t));
            }
            r.push(line);
            start = i + 1;
            start_off = off + w;
        }
        off = off + w;
        i = i + 1;
    }
    if start < n {
        proof {
            lemma_take_full(s@);
        }
        let line = substr(s, start, n, start_off, off);
        proof {
            let t = s@.skip(start as int);
            lemma_newline_index_at(t, 0, t.len() as int);
            assert(t =~= s@.subrange(start as int, n as int));
            assert(spec_lines(t) == seq![t]);
            assert(views(r@.push(line)) =~= views(r@).push(line@));
            assert(views(r@.push(line)) =~= views(r@) + spec_lines(t));
        }
        r.push(line);
    } else {
        proof {
            assert(s@.skip(start as int) =~= Seq::<char>::empty());
            assert(views(r@) + Seq::<Seq<char>>::empty() =~= views(r@));
        }
    }
    r
}

} // verus!

verus! {

/// `needle` occurs in `hay` starting at character `i`.
pub open spec fn matches_at(hay: Seq<char>, needle: Seq<char>, i: int) -> bool {
    0 <= i && i + needle.len() <= hay.len() && hay.subrange(i, i + needle.len()) == needle
}

/// The first character index at or after `i` where `needle` occurs in `hay`, or -1.
pub open spec fn search_from(hay: Seq<char>, needle: Seq<char>, i: int) -> int
    decreases hay.len() - needle.len() - i + 1,
{
    if i < 0 || i > hay.len() - needle.len() {
        -1
    } else if matches_at(hay, needle, i) {
        i
    } else {
        search_from(hay, needle, i + 1)
    }
}

/// The first character index where `needle` occurs in `hay`, or -1.
pub open spec fn first_match(hay: Seq<char>, needle: Seq<char>) -> int {
    search_from(hay, needle, 0)
}

/// `needle` occurs somewhere in `hay` (as `str::contains`).
pub open spec fn contains_seq(hay: Seq<char>, needle: Seq<char>) -> bool {
    first_match(hay, needle) >= 0
}

/// The byte offset of the first occurrence of `needle` in `hay` (as `str::find`).
pub open spec fn spec_find(hay: Seq<char>, needle: Seq<char>) -> Option<nat> {
    if first_match(hay, needle) >= 0 {
        Some(byte_len(hay.take(first_match(hay, needle))))
    } else {
        None
    }
}

/// What `search_from` returns: the least matching index at or after `i`.
pub proof fn lemma_search_from(hay: Seq<char>, needle: Seq<char>, i: int)
    requires
        0 <= i,
    ensures
        search_from(hay, needle, i) == -1 || i <= search_from(hay, needle, i),
        search_from(hay, needle, i) >= 0 ==> matches_at(hay, needle, search_from(hay, needle, i)),
        forall|k: int|
            i <= k && (search_from(hay, needle, i) == -1 || k < search_from(hay, needle, i))
                ==> !matches_at(hay, needle, k),
    decreases hay.len() - needle.len() - i + 1,
{
    if i <= hay.len() - needle.len() && !matches_at(hay, needle, i) {
        lemma_search_from(hay, needle, i + 1);
    }
}

/// `contains_seq` means that the needle occurs at some index.
pub proof fn lemma_contains_seq(hay: Seq<char>, needle: Seq<char>)
    ensures
        contains_seq(hay, needle) <==> exists|k: int| matches_at(hay, needle, k),
{
    lemma_search_from(hay, needle, 0);
    if contains_seq(hay, needle) {
        assert(matches_at(hay, needle, first_match(hay, needle)));
    }
}

/// Whether `needle` occurs in `hay` at character index `i`.
pub fn matches_at_exec(hay: &Vec<char>, needle: &Vec<char>, i: usize) -> (b: bool)
    requires
        i + needle@.len() <= hay@.len(),
    ensures
        b == matches_at(hay@, needle@, i as int),
{
    let mut j: usize = 0;
    let hl = hay.len();
    while j < needle.len()
        invariant
            hl == hay@.len(),
            i + needle@.len() <= hay@.len(),
            j <= needle@.len(),
            forall|k: int| 0 <= k < j ==> hay@[i + k] == needle@[k],
        decreases needle@.len() - j,
    {
        if hay[i + j] != needle[j] {
            proof {
                assert(hay@.subrange(i as int, i + needle@.len())[j as int] != needle@[j as int]);
            }
            return false;
        }
        j = j + 1;
    }
    proof {
        assert(hay@.subrange(i as int, i + needle@.len()) =~= needle@);
    }
    true
}

/// The first character index where `needle` occurs in `hay`.
pub fn find_chars(hay: &Vec<char>, needle: &Vec<char>) -> (r: Option<usize>)
    ensures
        match r {
            Some(k) => first_match(hay@, needle@) == k as int,
            None => first_match(hay@, needle@) == -1,
        },
{
    if needle.len() > hay.len() {
        return None;
    }
    let last = hay.len() - needle.len();
    let mut i: usize = 0;
    loop
        invariant
            last == hay@.len() - needle@.len(),
            i <= last,
            search_from(hay@, needle@, 0) == search_from(hay@, needle@, i as int),
        decreases last - i,
    {
        if matches_at_exec(hay, needle, i) {
            return Some(i);
        }
        if i == last {
            proof {
                assert(search_from(hay@, needle@, i + 1) == -1);
            }
            return None;
        }
        i = i + 1;
    }
}

/// Whether `needle` occurs in `hay`.
pub fn contains_chars(hay: &Vec<char>, needle: &Vec<char>) -> (b: bool)
    ensures
        b == contains_seq(hay@, needle@),
{
    match find_chars(hay, needle) {
        Some(_) => true,
        None => false,
    }
}

/// The lowercase mapping of a string, as `str::to_lowercase` computes it.
pub uninterp spec fn spec_to_lowercase(s: Seq<char>) -> Seq<char>;

/// Calls `str::to_lowercase`. Its result is a function of the string alone (the
/// Unicode lowercase mapping, independent of locale); it is named `spec_to_lowercase`
/// and nothing more is claimed of it.
#[verifier::external_body]
pub(crate) fn to_lowercase(s: &str) -> (r: String)
    ensures
        r@ == spec_to_lowercase(s@),
{
    s.to_lowercase()
}

/// The text that `{:?}` gives for a string, as std's `Debug` for `str` writes it.
pub uninterp spec fn spec_debug_str(s: Seq<char>) -> Seq<char>;

/// Formats `s` with `{:?}` (std's `Debug` for `str`): in double quotes, each character
/// escaped as `char::escape_debug` does. The result is a function of the string alone;
/// it is named `spec_debug_str` and nothing more is claimed of it.
#[verifier::external_body]
pub(crate) fn debug_str(s: &str) -> (r: String)
    ensures
        r@ == spec_debug_str(s@),
{
    format!("{:?}", s)
}

/// Calls `String::push`: appends `c`.
#[verifier::external_body]
pub(crate) fn push_char(s: &mut String, c: char)
    ensures
        final(s)@ == old(s)@.push(c),
{
    s.push(c);
}

/// Appends all characters of `t` to `s`.
pub fn push_str(s: &mut String, t: &str)
    ensures
        final(s)@ == old(s)@ + t@,
{
    let ghost s0 = s@;
    for c in it: t.chars()
        invariant
            s@ == s0 + it.seq().take(it.index() as int),
    {
        push_char(s, c);
        proof {
            assert(s0 + it.seq().take(it.index() + 1) =~= (s0 + it.seq().take(it.index() as int)).push(c));
        }
    }
}

} // verus!

verus! {

/// The decimal digit for `d < 10`.
pub open spec fn digit_char(d: nat) -> char {
    if d == 0 {
        '0'
    } else if d == 1 {
        '1'
    } else if d == 2 {
        '2'
    } else if d == 3 {
        '3'
    } else if d == 4 {
        '4'
    } else if d == 5 {
        '5'
    } else if d == 6 {
        '6'
    } else if d == 7 {
        '7'
    } else if d == 8 {
        '8'
    } else {
        '9'
    }
}

/// The decimal representation of `n`, without leading zeros (as `usize::to_string`).
pub open spec fn decimal(n: nat) -> Seq<char>
    decreases n,
{
    if n < 10 {
        seq![digit_char(n)]
    } else {
        decimal(n / 10).push(digit_char(n % 10))
    }
}

/// `s` right-aligned in a field of `width` characters, padded with spaces on the left.
pub open spec fn pad_left(s: Seq<char>, width: nat) -> Seq<char> {
    if s.len() >= width {
        s
    } else {
        Seq::new((width - s.len()) as nat, |i: int| ' ') + s
    }
}

fn digit_exec(d: usize) -> (c: char)
    requires
        d < 10,
    ensures
        c == digit_char(d as nat),
{
    if d == 0 {
        '0'
    } else if d == 1 {
        '1'
    } else if d == 2 {
        '2'
    } else if d == 3 {
        '3'
    } else if d == 4 {
        '4'
    } else if d == 5 {
        '5'
    } else if d == 6 {
        '6'
    } else if d == 7 {
        '7'
    } else if d == 8 {
        '8'
    } else {
        '9'
    }
}

/// Appends the decimal representation of `n`.
pub fn push_decimal(s: &mut String, n: usize)
    ensures
        final(s)@ == old(s)@ + decimal(n as nat),
    decreases n,
{
    if n >= 10 {
        push_decimal(s, n / 10);
    }
    push_char(s, digit_exec(n % 10));
    proof {
        if n >= 10 {
            assert(old(s)@ + decimal(n as nat) =~= (old(s)@ + decimal((n / 10) as nat)).push(
                digit_char((n % 10) as nat),
            ));
        } else {
            assert(old(s)@ + decimal(n as nat) =~= old(s)@.push(digit_char((n % 10) as nat)));
        }
    }
}

/// The decimal representation of `n` (as `n.to_string()`).
pub fn decimal_string(n: usize) -> (r: String)
    ensures
        r@ == decimal(n as nat),
{
    let mut s = String::new();
    push_decimal(&mut s, n);
    proof {
        assert(Seq::<char>::empty() + decimal(n as nat) =~= decimal(n as nat));
    }
    s
}

/// The decimal representation of `n` right-aligned in `width` characters
/// (as `format!("{:>width$}", n)`).
pub fn decimal_padded(n: usize, width: usize) -> (r: String)
    ensures
        r@ == pad_left(decimal(n as nat), width as nat),
{
    let digits = decimal_string(n);
    let len = digits.as_str().unicode_len();
    let mut s = String::new();
    if len < width {
        let mut k: usize = 0;
        while k < width - len
            invariant
                len < width,
                k <= width - len,
                s@ == Seq::new(k as nat, |i: int| ' '),
            decreases width - len - k,
        {
            push_char(&mut s, ' ');
            k = k + 1;
            proof {
                assert(s@ =~= Seq::new(k as nat, |i: int| ' '));
            }
        }
    }
    push_str(&mut s, digits.as_str());
    proof {
        if len >= width {
            assert(Seq::<char>::empty() + decimal(n as nat) =~= decimal(n as nat));
        }
    }
    s
}

} // verus!

verus! {

/// Whether `c` has the Unicode `White_Space` property (as `char::is_whitespace`).
pub open spec fn is_white_space(c: char) -> bool {
    let u = c as u32;
    ||| 0x09 <= u <= 0x0D
    ||| u == 0x20
    ||| u == 0x85
    ||| u == 0xA0
    ||| u == 0x1680
    ||| 0x2000 <= u <= 0x200A
    ||| u == 0x2028
    ||| u == 0x2029
    ||| u == 0x202F
    ||| u == 0x205F
    ||| u == 0x3000
}

/// Whether `c` is whitespace.
pub fn is_whitespace(c: char) -> (b: bool)
    ensures
        b == is_white_space(c),
{
    let u = c as u32;
    (0x09 <= u && u <= 0x0D) || u == 0x20 || u == 0x85 || u == 0xA0 || u == 0x1680 || (0x2000 <= u
        && u <= 0x200A) || u == 0x2028 || u == 0x2029 || u == 0x202F || u == 0x205F || u == 0x3000
}

/// Number of leading whitespace characters of `s`.
pub open spec fn leading_ws(s: Seq<char>) -> nat
    decreases s.len(),
{
    if s.len() > 0 && is_white_space(s[0]) {
        1 + leading_ws(s.drop_first())
    } else {
        0
    }
}

/// Number of trailing whitespace characters of `s`.
pub open spec fn trailing_ws(s: Seq<char>) -> nat
    decreases s.len(),
{
    if s.len() > 0 && is_white_space(s.last()) {
        1 + trailing_ws(s.drop_last())
    } else {
        0
    }
}

/// `s` without leading and trailing whitespace (as `str::trim`).
pub open spec fn spec_trim(s: Seq<char>) -> Seq<char> {
    if leading_ws(s) >= s.len() {
        Seq::empty()
    } else {
        s.subrange(leading_ws(s) as int, s.len() - trailing_ws(s))
    }
}

proof fn lemma_leading_ws(s: Seq<char>, i: int)
    requires
        0 <= i <= s.len(),
        forall|k: int| 0 <= k < i ==> is_white_space(s[k]),
        i < s.len() ==> !is_white_space(s[i]),
    ensures
        leading_ws(s) == i,
    decreases i,
{
    if i > 0 {
        lemma_leading_ws(s.drop_first(), i - 1);
    }
}

proof fn lemma_trailing_ws(s: Seq<char>, i: int)
    requires
        0 <= i <= s.len(),
        forall|k: int| s.len() - i <= k < s.len() ==> is_white_space(s[k]),
        i < s.len() ==> !is_white_space(s[s.len() - 1 - i]),
    ensures
        trailing_ws(s) == i,
    decreases i,
{
    if i > 0 {
        lemma_trailing_ws(s.drop_last(), i - 1);
    }
}

/// `s` without leading and trailing whitespace, as a slice of `s`.
pub fn trim(s: &str) -> (r: &str)
    ensures
        r@ == spec_trim(s@),
{
    let cs = to_chars(s);
    let n = cs.len();
    let mut a: usize = 0;
    while a < n && is_whitespace(cs[a])
        invariant
            cs@ == s@,
            n == s@.len(),
            a <= n,
            forall|k: int| 0 <= k < a ==> is_white_space(s@[k]),
        decreases n - a,
    {
        a = a + 1;
    }
    proof {
        lemma_leading_ws(s@, a as int);
    }
    if a == n {
        let off = byte_offset(s, &cs, n);
        return substr(s, n, n, off, off);
    }
    let mut b: usize = n;
    while b > a && is_whitespace(cs[b - 1])
        invariant
            cs@ == s@,
            n == s@.len(),
            a < n,
            !is_white_space(s@[a as int]),
            a <= b <= n,
            forall|k: int| b <= k < n ==> is_white_space(s@[k]),
        decreases b,
    {
        b = b - 1;
    }
    proof {
        lemma_trailing_ws(s@, (n - b) as int);
    }
    let oa = byte_offset(s, &cs, a);
    let ob = byte_offset(s, &cs, b);
    substr(s, a, b, oa, ob)
}

} // verus!

verus! {

/// Lexicographic order of character sequences by code point (the order of `String`s).
pub open spec fn seq_lt(a: Seq<char>, b: Seq<char>) -> bool
    decreases a.len(),
{
    if a.len() == 0 {
        b.len() > 0
    } else if b.len() == 0 {
        false
    } else if a[0] == b[0] {
        seq_lt(a.drop_first(), b.drop_first())
    } else {
        (a[0] as u32) < (b[0] as u32)
    }
}

/// The order is irreflexive.
pub proof fn lemma_seq_lt_irreflexive(a: Seq<char>)
    ensures
        !seq_lt(a, a),
    decreases a.len(),
{
    if a.len() > 0 {
        lemma_seq_lt_irreflexive(a.drop_first());
    }
}

/// Two distinct sequences are ordered one way or the other, and never both ways.
pub proof fn lemma_seq_lt_total(a: Seq<char>, b: Seq<char>)
    ensures
        a != b ==> (seq_lt(a, b) || seq_lt(b, a)),
        !(seq_lt(a, b) && seq_lt(b, a)),
        a == b ==> !seq_lt(a, b),
    decreases a.len(),
{
    if a == b {
        lemma_seq_lt_irreflexive(a);
    }
    if a.len() > 0 && b.len() > 0 {
        if a[0] == b[0] {
            lemma_seq_lt_total(a.drop_first(), b.drop_first());
            if a != b {
                assert(a =~= seq![a[0]] + a.drop_first());
                assert(b =~= seq![b[0]] + b.drop_first());
            }
        } else {
            vstd::utf8::char_u32_cast(a[0], a[0] as u32);
            vstd::utf8::char_u32_cast(b[0], b[0] as u32);
        }
    } else if a.len() == 0 && b.len() == 0 {
        assert(a =~= b);
    }
}

/// The order is transitive.
pub proof fn lemma_seq_lt_transitive(a: Seq<char>, b: Seq<char>, c: Seq<char>)
    requires
        seq_lt(a, b),
        seq_lt(b, c),
    ensures
        seq_lt(a, c),
    decreases a.len(),
{
    if a.len() > 0 && b.len() > 0 && c.len() > 0 {
        if a[0] == b[0] && b[0] == c[0] {
            lemma_seq_lt_transitive(a.drop_first(), b.drop_first(), c.drop_first());
        }
    }
}

/// Whether `a` comes before `b`.
pub fn lt_chars(a: &Vec<char>, b: &Vec<char>) -> (r: bool)
    ensures
        r == seq_lt(a@, b@),
{
    let mut i: usize = 0;
    proof {
        assert(a@.skip(0) =~= a@);
        assert(b@.skip(0) =~= b@);
    }
    while i < a.len() && i < b.len() && a[i] == b[i]
        invariant
            i <= a@.len(),
            i <= b@.len(),
            forall|k: int| 0 <= k < i ==> a@[k] == b@[k],
            seq_lt(a@, b@) == seq_lt(a@.skip(i as int), b@.skip(i as int)),
        decreases a@.len() - i,
    {
        proof {
            assert(a@.skip(i as int).drop_first() =~= a@.skip(i + 1));
            assert(b@.skip(i as int).drop_first() =~= b@.skip(i + 1));
        }
        i = i + 1;
    }
    proof {
        if i < a@.len() {
            assert(a@.skip(i as int)[0] == a@[i as int]);
        }
        if i < b@.len() {
            assert(b@.skip(i as int)[0] == b@[i as int]);
        }
    }
    if i == a.len() {
        i < b.len()
    } else if i == b.len() {
        false
    } else {
        (a[i] as u32) < (b[i] as u32)
    }
}

} // verus!

verus! {

/// Index of the first `c` at or after `from`, or the length when there is none.
pub open spec fn char_index(s: Seq<char>, c: char, from: int) -> int
    decreases s.len() - from,
{
    if from < 0 || from >= s.len() {
        s.len() as int
    } else if s[from] == c {
        from
    } else {
        char_index(s, c, from + 1)
    }
}

pub proof fn lemma_char_index(s: Seq<char>, c: char, from: int)
    requires
        0 <= from,
    ensures
        from <= char_index(s, c, from) <= s.len() || char_index(s, c, from) == s.len(),
        char_index(s, c, from) < s.len() ==> s[char_index(s, c, from)] == c,
        forall|k: int| from <= k < char_index(s, c, from) ==> s[k] != c,
    decreases s.len() - from,
{
    if from < s.len() && s[from] != c {
        lemma_char_index(s, c, from + 1);
    }
}

proof fn lemma_char_index_at(s: Seq<char>, c: char, from: int, j: int)
    requires
        0 <= from <= j <= s.len(),
        j < s.len() ==> s[j] == c,
        forall|k: int| from <= k < j ==> s[k] != c,
    ensures
        char_index(s, c, from) == j,
    decreases j - from,
{
    if from < j {
        lemma_char_index_at(s, c, from + 1, j);
    }
}

/// The pieces of `s` between occurrences of `sep` (as `str::split` with a character):
/// always at least one piece.
pub open spec fn spec_split(s: Seq<char>, sep: char) -> Seq<Seq<char>>
    decreases s.len(),
{
    let j = char_index(s, sep, 0);
    if j < s.len() {
        proof {
            lemma_char_index(s, sep, 0);
        }
        seq![s.take(j)] + spec_split(s.skip(j + 1), sep)
    } else {
        seq![s]
    }
}

/// The pieces of `s` between occurrences of `sep`, as slices of `s`; see `spec_split`.
pub fn split_char<'a>(s: &'a str, sep: char) -> (r: Vec<&'a str>)
    ensures
        views(r@) == spec_split(s@, sep),
        r@.len() >= 1,
{
    let cs = to_chars(s);
    let n = cs.len();
    let mut r: Vec<&str> = Vec::new();
    let mut start: usize = 0;
    let mut start_off: usize = 0;
    let mut i: usize = 0;
    let mut off: usize = 0;
    proof {
        assert(s@.take(0) =~= Seq::<char>::empty());
        assert(s@.skip(0) =~= s@);
        assert(views(r@) + spec_split(s@.skip(0), sep) =~= spec_split(s@, sep));
    }
    let total = str_byte_len(s);
    while i < n
        invariant
            cs@ == s@,
            n == s@.len(),
            total == byte_len(s@),
            start <= i <= n,
            start_off == byte_len(s@.take(start as int)),
            off == byte_len(s@.take(i as int)),
            forall|k: int| start <= k < i ==> s@[k] != sep,
            views(r@) + spec_split(s@.skip(start as int), sep) == spec_split(s@, sep),
        decreases n - i,
    {
        proof {
            lemma_byte_len_take_succ(s@, i as int);
            lemma_byte_len_take_mono(s@, i + 1, s@.len() as int);
            lemma_take_full(s@);
        }
        let w = char_width(cs[i]);
        if cs[i] == sep {
            let piece = substr(s, start, i, start_off, off);
            proof {
                let t = s@.skip(start as int);
                let j = (i - start) as int;
                lemma_char_index_at(t, sep, 0, j);
                assert(t.take(j) =~= s@.subrange(start as int, i as int));
                assert(t.skip(j + 1) =~= s@.skip(i + 1));
                assert(views(r@.push(piece)) =~= views(r@).push(piece@));
                assert(spec_split(t, sep) == seq![t.take(j)] + spec_split(t.skip(j + 1), sep));
                assert(views(r@.push(piece)) + spec_split(s@.skip(i + 1), sep) =~= views(r@)
                    + spec_split(t, sep));
            }
            r.push(piece);
            start = i + 1;
            start_off = off + w;
        }
        off = off + w;
        i = i + 1;
    }
    proof {
        lemma_take_full(s@);
    }
    let piece = substr(s, start, n, start_off, off);
    proof {
        let t = s@.skip(start as int);
        lemma_char_index_at(t, sep, 0, t.len() as int);
        assert(t =~= s@.subrange(start as int, n as int));
        assert(spec_split(t, sep) == seq![t]);
        assert(views(r@.push(piece)) =~= views(r@).push(piece@));
        assert(views(r@.push(piece)) =~= views(r@) + spec_split(t, sep));
    }
    r.push(piece);
    r
}

} // verus!

verus! {

/// Whether the two character sequences are equal.
pub fn chars_equal(a: &Vec<char>, b: &Vec<char>) -> (r: bool)
    ensures
        r == (a@ == b@),
{
    if a.len() != b.len() {
        return false;
    }
    let mut i: usize = 0;
    while i < a.len()
        invariant
            a@.len() == b@.len(),
            i <= a@.len(),
            forall|k: int| 0 <= k < i ==> a@[k] == b@[k],
        decreases a@.len() - i,
    {
        if a[i] != b[i] {
            return false;
        }
        i = i + 1;
    }
    proof {
        assert(a@ =~= b@);
    }
    true
}

/// Whether the two strings are equal.
pub fn str_equal(a: &str, b: &str) -> (r: bool)
    ensures
        r == (a@ == b@),
{
    chars_equal(&to_chars(a), &to_chars(b))
}

} // verus!
