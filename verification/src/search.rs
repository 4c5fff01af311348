use vstd::prelude::*;
use crate::text::{
    byte_offset, contains_chars, decimal, decimal_padded, pad_left, contains_seq, find_chars, lemma_search_from, spec_find, spec_lines,
    spec_to_lowercase, split_lines, to_chars, to_lowercase, views,
};

verus! {

/// Lines of context shown on each side of a matching line.
pub const SEARCH_CONTEXT_RADIUS: usize = 5;

/// Delay before a changed query is searched, in milliseconds.
pub const SEARCH_DEBOUNCE_MS: u64 = 300;

/// A block of consecutive diff lines around one or more matching lines.
#[derive(Debug, Clone, PartialEq, Eq)]
pub struct MatchContext {
    pub start_line: usize,
    pub end_line: usize,
    pub lines: Vec<ContextLine>,
}

/// One line of a match context.
#[derive(Debug, Clone, PartialEq, Eq)]
pub struct ContextLine {
    /// Zero-based index of the line in the diff.
    pub line_number: usize,
    /// The one-based line number, right-aligned in four columns.
    pub line_number_display: String,
    pub text: String,
    pub is_match: bool,
}

/// An optional string slice by its view.
pub open spec fn opt_view(o: Option<&str>) -> Option<Seq<char>> {
    match o {
        Some(s) => Some(s@),
        None => None,
    }
}

/// An optional byte offset as a natural number.
pub open spec fn opt_nat(o: Option<usize>) -> Option<nat> {
    match o {
        Some(k) => Some(k as nat),
        None => None,
    }
}

/// Byte offset of the first occurrence of `needle_lower` in the lowercased `haystack`.
pub fn find_case_insensitive(haystack: &str, needle_lower: &str) -> (r: Option<usize>)
    ensures
        opt_nat(r) == spec_find(spec_to_lowercase(haystack@), needle_lower@),
{
    let lower = to_lowercase(haystack);
    let ls = lower.as_str();
    let cs = to_chars(ls);
    let ns = to_chars(needle_lower);
    match find_chars(&cs, &ns) {
        Some(k) => {
            proof {
                lemma_search_from(cs@, ns@, 0);
            }
            let off = byte_offset(ls, &cs, k);
            Some(off)
        },
        None => None,
    }
}

/// Indices `0..n` of the lines that contain `needle`, in ascending order.
pub open spec fn matching_lines(lines: Seq<Seq<char>>, needle: Seq<char>, n: int) -> Seq<usize>
    decreases n,
{
    if n <= 0 {
        Seq::empty()
    } else if contains_seq(lines[n - 1], needle) {
        matching_lines(lines, needle, n - 1).push((n - 1) as usize)
    } else {
        matching_lines(lines, needle, n - 1)
    }
}

/// Indices of the lines of `text` (see `spec_lines`) that contain `needle`.
pub open spec fn line_indices_containing(text: Seq<char>, needle: Seq<char>) -> Seq<usize> {
    matching_lines(spec_lines(text), needle, spec_lines(text).len() as int)
}

/// The matching line indices of a diff for a query: case-sensitively in the raw text;
/// otherwise in the lowercased text for the lowercased query, taking both from the
/// caller when the caller gives both.
pub open spec fn spec_match_line_indices(
    raw_diff: Seq<char>,
    raw_diff_lower: Option<Seq<char>>,
    query: Seq<char>,
    query_lower: Option<Seq<char>>,
    case_sensitive: bool,
) -> Seq<usize> {
    if query.len() == 0 {
        Seq::empty()
    } else if case_sensitive {
        line_indices_containing(raw_diff, query)
    } else {
        match (raw_diff_lower, query_lower) {
            (Some(dl), Some(ql)) => line_indices_containing(dl, ql),
            _ => line_indices_containing(
                spec_to_lowercase(raw_diff),
                match query_lower {
                    Some(ql) => ql,
                    None => spec_to_lowercase(query),
                },
            ),
        }
    }
}

fn line_indices_containing_exec(text: &str, needle: &str) -> (r: Vec<usize>)
    ensures
        r@ == line_indices_containing(text@, needle@),
{
    let lines = split_lines(text);
    let ns = to_chars(needle);
    let mut r: Vec<usize> = Vec::new();
    let mut i: usize = 0;
    while i < lines.len()
        invariant
            views(lines@) == spec_lines(text@),
            ns@ == needle@,
            i <= lines@.len(),
            r@ == matching_lines(views(lines@), needle@, i as int),
        decreases lines@.len() - i,
    {
        let cs = to_chars(lines[i]);
        if contains_chars(&cs, &ns) {
            r.push(i);
        }
        i = i + 1;
    }
    r
}

/// Zero-based indices of the diff lines that contain the query; see
/// `spec_match_line_indices`.
pub fn find_match_line_indices_with_lower(
    raw_diff: &str,
    raw_diff_lower: Option<&str>,
    query: &str,
    query_lower: Option<&str>,
    case_sensitive: bool,
) -> (r: Vec<usize>)
    ensures
        r@ == spec_match_line_indices(
            raw_diff@,
            opt_view(raw_diff_lower),
            query@,
            opt_view(query_lower),
            case_sensitive,
        ),
{
    if query.is_empty() {
        return Vec::new();
    }
    if case_sensitive {
        return line_indices_containing_exec(raw_diff, query);
    }
    if let (Some(diff_lower), Some(needle_lower)) = (raw_diff_lower, query_lower) {
        return line_indices_containing_exec(diff_lower, needle_lower);
    }
    let needle_lower = match query_lower {
        Some(q) => q.to_owned(),
        None => to_lowercase(query),
    };
    let diff_lower = to_lowercase(raw_diff);
    line_indices_containing_exec(diff_lower.as_str(), needle_lower.as_str())
}

} // verus!

verus! {

/// `s` is strictly increasing.
pub open spec fn strictly_increasing(s: Seq<usize>) -> bool {
    forall|i: int, j: int| 0 <= i < j < s.len() ==> s[i] < s[j]
}

/// Inserts `x` into the strictly increasing `s`, keeping it strictly increasing.
pub open spec fn sorted_insert(s: Seq<usize>, x: usize) -> Seq<usize>
    decreases s.len(),
{
    if s.len() == 0 {
        seq![x]
    } else if x < s[0] {
        seq![x] + s
    } else if x == s[0] {
        s
    } else {
        seq![s[0]] + sorted_insert(s.drop_first(), x)
    }
}

/// The distinct values of `s` in ascending order (as `sort_unstable` then `dedup`).
pub open spec fn sort_dedup(s: Seq<usize>) -> Seq<usize>
    decreases s.len(),
{
    if s.len() == 0 {
        Seq::empty()
    } else {
        sorted_insert(sort_dedup(s.drop_last()), s.last())
    }
}

proof fn lemma_sorted_insert(s: Seq<usize>, x: usize, p: int)
    requires
        strictly_increasing(s),
        0 <= p <= s.len(),
        forall|k: int| 0 <= k < p ==> s[k] < x,
        p < s.len() ==> x <= s[p],
    ensures
        sorted_insert(s, x) == if p < s.len() && s[p] == x {
            s
        } else {
            s.take(p) + seq![x] + s.skip(p)
        },
    decreases s.len(),
{
    if s.len() == 0 {
        assert(s.take(p) + seq![x] + s.skip(p) =~= seq![x]);
    } else if x < s[0] {
        assert(p == 0);
        assert(s.take(p) + seq![x] + s.skip(p) =~= seq![x] + s);
    } else if x == s[0] {
        assert(p == 0);
    } else {
        let t = s.drop_first();
        assert(p >= 1);
        lemma_sorted_insert(t, x, p - 1);
        if p < s.len() && s[p] == x {
            assert(seq![s[0]] + t =~= s);
        } else {
            assert(seq![s[0]] + (t.take(p - 1) + seq![x] + t.skip(p - 1)) =~= s.take(p) + seq![x]
                + s.skip(p));
        }
    }
}

/// Distinct values of `v` in ascending order.
pub fn sort_dedup_exec(v: &[usize]) -> (r: Vec<usize>)
    ensures
        r@ == sort_dedup(v@),
        strictly_increasing(r@),
{
    let mut r: Vec<usize> = Vec::new();
    let mut i: usize = 0;
    while i < v.len()
        invariant
            i <= v@.len(),
            r@ == sort_dedup(v@.take(i as int)),
            strictly_increasing(r@),
        decreases v@.len() - i,
    {
        let x = v[i];
        let mut p: usize = 0;
        while p < r.len() && r[p] < x
            invariant
                p <= r@.len(),
                forall|k: int| 0 <= k < p ==> r@[k] < x,
            decreases r@.len() - p,
        {
            p = p + 1;
        }
        proof {
            lemma_sorted_insert(r@, x, p as int);
            assert(v@.take(i + 1).drop_last() =~= v@.take(i as int));
            assert(v@.take(i + 1).last() == x);
        }
        if p < r.len() && r[p] == x {
        } else {
            let ghost before = r@;
            r.insert(p, x);
            proof {
                assert(r@ =~= before.take(p as int) + seq![x] + before.skip(p as int));
            }
        }
        i = i + 1;
    }
    proof {
        assert(v@.take(v@.len() as int) =~= v@);
    }
    r
}

} // verus!

verus! {

/// First line of the window around match line `m`: `m - radius`, or 0.
pub open spec fn window_start(m: usize, radius: usize) -> int {
    if m >= radius {
        m - radius
    } else {
        0
    }
}

/// Last line of the window around match line `m`: `m + radius`, but at most the last
/// line of the `len` lines.
pub open spec fn window_end(m: usize, radius: usize, len: nat) -> int {
    if m + radius <= len - 1 {
        m + radius
    } else {
        len - 1
    }
}

/// The ascending distinct match lines `ms` cut into groups: a match joins the group of
/// the match before it when its window starts at most one line after that match's
/// window ends.
pub open spec fn group_members(ms: Seq<usize>, radius: usize, len: nat) -> Seq<Seq<usize>>
    decreases ms.len(),
{
    if ms.len() == 0 {
        Seq::empty()
    } else if ms.len() == 1 {
        seq![seq![ms[0]]]
    } else {
        let gs = group_members(ms.drop_last(), radius, len);
        let m = ms.last();
        if window_start(m, radius) <= window_end(ms[ms.len() - 2], radius, len) + 1 {
            gs.update(gs.len() - 1, gs.last().push(m))
        } else {
            gs.push(seq![m])
        }
    }
}

/// `ctx` shows lines `start..=end` of `lines`, marking those in `members`.
pub open spec fn context_fits(
    ctx: MatchContext,
    lines: Seq<Seq<char>>,
    start: int,
    end: int,
    members: Seq<usize>,
) -> bool {
    &&& ctx.start_line == start
    &&& ctx.end_line == end
    &&& ctx.lines@.len() == (if start <= end {
        end - start + 1
    } else {
        0
    })
    &&& forall|k: int|
        0 <= k < ctx.lines@.len() ==> {
            let l = #[trigger] ctx.lines@[k];
            &&& l.line_number == start + k
            &&& l.line_number_display@ == pad_left(decimal((start + k + 1) as nat), 4)
            &&& l.text@ == lines[start + k]
            &&& l.is_match == members.contains((start + k) as usize)
        }
}

/// `ctx` is the context of the match group `members`: from the window start of its
/// first match to the window end of its last.
pub open spec fn group_context_fits(
    ctx: MatchContext,
    lines: Seq<Seq<char>>,
    members: Seq<usize>,
    radius: usize,
) -> bool {
    context_fits(
        ctx,
        lines,
        window_start(members[0], radius),
        window_end(members.last(), radius, lines.len()),
        members,
    )
}

/// The contexts of the match lines of `lines`: one per match group, in order.
pub open spec fn spec_contexts(
    result: Seq<MatchContext>,
    lines: Seq<Seq<char>>,
    matches: Seq<usize>,
    radius: usize,
) -> bool {
    if lines.len() == 0 || matches.len() == 0 {
        result.len() == 0
    } else {
        let gs = group_members(sort_dedup(matches), radius, lines.len());
        &&& result.len() == gs.len()
        &&& forall|i: int|
            0 <= i < result.len() ==> group_context_fits(
                #[trigger] result[i],
                lines,
                gs[i],
                radius,
            )
    }
}

proof fn lemma_group_members(ms: Seq<usize>, radius: usize, len: nat)
    requires
        ms.len() > 0,
    ensures
        group_members(ms, radius, len).len() > 0,
        group_members(ms, radius, len).last().len() > 0,
        group_members(ms, radius, len).last().last() == ms.last(),
    decreases ms.len(),
{
    if ms.len() > 1 {
        lemma_group_members(ms.drop_last(), radius, len);
    }
}

fn contains_usize(v: &Vec<usize>, x: usize) -> (b: bool)
    ensures
        b == v@.contains(x),
{
    let mut i: usize = 0;
    while i < v.len()
        invariant
            i <= v@.len(),
            forall|k: int| 0 <= k < i ==> v@[k] != x,
        decreases v@.len() - i,
    {
        if v[i] == x {
            return true;
        }
        i = i + 1;
    }
    false
}

fn build_match_context(lines: &[&str], start_line: usize, end_line: usize, members: &Vec<usize>) -> (ctx:
    MatchContext)
    requires
        start_line <= end_line ==> end_line < lines@.len(),
    ensures
        context_fits(ctx, views(lines@), start_line as int, end_line as int, members@),
{
    let mut out: Vec<ContextLine> = Vec::new();
    let nl = lines.len();
    if start_line <= end_line {
        let mut n: usize = start_line;
        while n <= end_line
            invariant
                nl == lines@.len(),
                start_line <= end_line < lines@.len(),
                start_line <= n <= end_line + 1,
                out@.len() == n - start_line,
                forall|k: int|
                    0 <= k < out@.len() ==> {
                        let l = #[trigger] out@[k];
                        &&& l.line_number == start_line + k
                        &&& l.line_number_display@ == pad_left(
                            decimal((start_line + k + 1) as nat),
                            4,
                        )
                        &&& l.text@ == views(lines@)[start_line + k]
                        &&& l.is_match == members@.contains((start_line + k) as usize)
                    },
            decreases end_line + 1 - n,
        {
            let line = ContextLine {
                line_number: n,
                line_number_display: decimal_padded(n + 1, 4),
                text: lines[n].to_owned(),
                is_match: contains_usize(members, n),
            };
            out.push(line);
            n = n + 1;
        }
    }
    MatchContext { start_line, end_line, lines: out }
}

fn window_start_exec(m: usize, radius: usize) -> (s: usize)
    ensures
        s == window_start(m, radius),
{
    if m >= radius {
        m - radius
    } else {
        0
    }
}

fn window_end_exec(m: usize, radius: usize, len: usize) -> (e: usize)
    requires
        len >= 1,
        m + radius <= usize::MAX,
    ensures
        e == window_end(m, radius, len as nat),
{
    if m + radius <= len - 1 {
        m + radius
    } else {
        len - 1
    }
}

/// Groups the match lines into contexts of `context_radius` lines on each side,
/// merging groups whose windows overlap or touch; see `spec_contexts`.
#[verifier::rlimit(50)]
pub fn extract_match_contexts_from_lines(
    lines: &[&str],
    match_line_indices: &[usize],
    context_radius: usize,
) -> (r: Vec<MatchContext>)
    requires
        forall|i: int|
            0 <= i < match_line_indices@.len() ==> match_line_indices@[i] + context_radius
                <= usize::MAX,
    ensures
        spec_contexts(r@, views(lines@), match_line_indices@, context_radius),
{
    if lines.len() == 0 || match_line_indices.len() == 0 {
        return Vec::new();
    }
    let sorted = sort_dedup_exec(match_line_indices);
    let len = lines.len();
    let ghost ms = sort_dedup(match_line_indices@);
    let ghost ls = views(lines@);
    proof {
        lemma_sort_dedup_members(match_line_indices@);
        assert(ms.len() > 0);
        assert(ms.contains(ms[0]));
        assert forall|x: usize| ms.contains(x) implies x + context_radius <= usize::MAX by {
            assert(match_line_indices@.contains(x));
            let k = choose|k: int| 0 <= k < match_line_indices@.len() && match_line_indices@[k] == x;
        }
    }
    let first = sorted[0];
    let mut start_line = window_start_exec(first, context_radius);
    let mut end_line = window_end_exec(first, context_radius, len);
    let mut current: Vec<usize> = Vec::new();
    current.push(first);
    let mut contexts: Vec<MatchContext> = Vec::new();
    let mut idx: usize = 1;
    proof {
        assert(ms.take(1) =~= seq![ms[0]]);
    }
    while idx < sorted.len()
        invariant
            sorted@ == ms,
            strictly_increasing(ms),
            forall|x: usize| ms.contains(x) ==> x + context_radius <= usize::MAX,
            len == lines@.len(),
            len >= 1,
            ls == views(lines@),
            1 <= idx <= ms.len(),
            contexts@.len() + 1 == group_members(ms.take(idx as int), context_radius, len as nat).len(),
            forall|j: int|
                0 <= j < contexts@.len() ==> group_context_fits(
                    #[trigger] contexts@[j],
                    ls,
                    group_members(ms.take(idx as int), context_radius, len as nat)[j],
                    context_radius,
                ),
            current@ == group_members(ms.take(idx as int), context_radius, len as nat).last(),
            current@.len() > 0,
            current@.last() == ms[idx - 1],
            start_line == window_start(current@[0], context_radius),
            end_line == window_end(current@.last(), context_radius, len as nat),
        decreases ms.len() - idx,
    {
        let line_number = sorted[idx];
        proof {
            assert(ms.contains(ms[idx as int]));
        }
        let candidate_start = window_start_exec(line_number, context_radius);
        let candidate_end = window_end_exec(line_number, context_radius, len);
        let ghost t = ms.take(idx + 1);
        let ghost gs_prev = group_members(ms.take(idx as int), context_radius, len as nat);
        proof {
            lemma_group_step(ms, idx as int, context_radius, len as nat);
        }
        if candidate_start <= end_line + 1 {
            end_line = if end_line >= candidate_end { end_line } else { candidate_end };
            current.push(line_number);
            proof {
                let gs = group_members(t, context_radius, len as nat);
                assert(gs == gs_prev.update(gs_prev.len() - 1, gs_prev.last().push(line_number)));
                assert(current@ =~= gs.last());
                assert(forall|j: int| 0 <= j < contexts@.len() ==> gs[j] == gs_prev[j]);
            }
        } else {
            proof {
                assert(start_line <= end_line ==> end_line < lines@.len());
            }
            let ctx = build_match_context(lines, start_line, end_line, &current);
            contexts.push(ctx);
            start_line = candidate_start;
            end_line = candidate_end;
            current = Vec::new();
            current.push(line_number);
            proof {
                let gs = group_members(t, context_radius, len as nat);
                assert(gs == gs_prev.push(seq![line_number]));
                assert(current@ =~= gs.last());
                assert(forall|j: int| 0 <= j < contexts@.len() - 1 ==> gs[j] == gs_prev[j]);
                assert(group_context_fits(contexts@[contexts@.len() - 1], ls, gs_prev.last(), context_radius));
            }
        }
        idx = idx + 1;
    }
    let ctx = build_match_context(lines, start_line, end_line, &current);
    contexts.push(ctx);
    proof {
        assert(ms.take(ms.len() as int) =~= ms);
    }
    contexts
}

proof fn lemma_group_step(ms: Seq<usize>, idx: int, radius: usize, len: nat)
    requires
        1 <= idx < ms.len(),
        strictly_increasing(ms),
    ensures
        ({
            let prev = group_members(ms.take(idx), radius, len);
            let gs = group_members(ms.take(idx + 1), radius, len);
            &&& prev.len() > 0
            &&& prev.last().len() > 0
            &&& prev.last().last() == ms[idx - 1]
            &&& if window_start(ms[idx], radius) <= window_end(ms[idx - 1], radius, len) + 1 {
                gs == prev.update(prev.len() - 1, prev.last().push(ms[idx]))
            } else {
                gs == prev.push(seq![ms[idx]])
            }
        }),
        window_end(ms[idx - 1], radius, len) <= window_end(ms[idx], radius, len),
{
    let t = ms.take(idx + 1);
    assert(t.drop_last() =~= ms.take(idx));
    assert(t.last() == ms[idx]);
    assert(t[t.len() - 2] == ms[idx - 1]);
    assert(ms.take(idx).last() == ms[idx - 1]);
    lemma_group_members(ms.take(idx), radius, len);
}

/// Every value of `sort_dedup(s)` is a value of `s`, and the result is strictly
/// increasing; it is non-empty when `s` is.
pub proof fn lemma_sort_dedup_members(s: Seq<usize>)
    ensures
        forall|x: usize| #[trigger] sort_dedup(s).contains(x) <==> s.contains(x),
        strictly_increasing(sort_dedup(s)),
        s.len() > 0 ==> sort_dedup(s).len() > 0,
    decreases s.len(),
{
    if s.len() > 0 {
        lemma_sort_dedup_members(s.drop_last());
        lemma_sorted_insert_members(sort_dedup(s.drop_last()), s.last());
        assert forall|x: usize| s.contains(x) <==> (s.drop_last().contains(x) || x == s.last()) by {
            if s.contains(x) {
                let k = choose|k: int| 0 <= k < s.len() && s[k] == x;
                if k < s.len() - 1 {
                    assert(s.drop_last()[k] == x);
                }
            }
            if s.drop_last().contains(x) {
                let k = choose|k: int| 0 <= k < s.len() - 1 && s.drop_last()[k] == x;
                assert(s[k] == x);
            }
        }
    }
}

proof fn lemma_sorted_insert_members(s: Seq<usize>, x: usize)
    requires
        strictly_increasing(s),
    ensures
        forall|y: usize| #[trigger] sorted_insert(s, x).contains(y) <==> (s.contains(y) || y == x),
        strictly_increasing(sorted_insert(s, x)),
        sorted_insert(s, x).len() > 0,
        s.len() > 0 ==> sorted_insert(s, x)[0] == if x < s[0] { x } else { s[0] },
    decreases s.len(),
{
    if s.len() == 0 {
        assert(sorted_insert(s, x) == seq![x]);
        assert(seq![x][0] == x);
        assert(seq![x].contains(x));
    } else if x < s[0] {
        let r = seq![x] + s;
        assert forall|y: usize| r.contains(y) <==> (s.contains(y) || y == x) by {
            if r.contains(y) {
                let k = choose|k: int| 0 <= k < r.len() && r[k] == y;
                if k > 0 {
                    assert(s[k - 1] == y);
                }
            }
            if s.contains(y) {
                let k = choose|k: int| 0 <= k < s.len() && s[k] == y;
                assert(r[k + 1] == y);
            }
            if y == x {
                assert(r[0] == y);
            }
        }
    } else if x == s[0] {
        assert(s.contains(s[0]));
    } else {
        let t = s.drop_first();
        lemma_sorted_insert_members(t, x);
        let ti = sorted_insert(t, x);
        let r = seq![s[0]] + ti;
        assert forall|y: usize| r.contains(y) <==> (s.contains(y) || y == x) by {
            if r.contains(y) {
                let k = choose|k: int| 0 <= k < r.len() && r[k] == y;
                if k > 0 {
                    assert(ti[k - 1] == y);
                    assert(ti.contains(y));
                    if t.contains(y) {
                        let j = choose|j: int| 0 <= j < t.len() && t[j] == y;
                        assert(s[j + 1] == y);
                        assert(s.contains(y));
                    }
                } else {
                    assert(s[0] == y);
                    assert(s.contains(y));
                }
            }
            if s.contains(y) {
                let k = choose|k: int| 0 <= k < s.len() && s[k] == y;
                if k > 0 {
                    assert(t[k - 1] == y);
                    assert(t.contains(y));
                    assert(ti.contains(y));
                    let j = choose|j: int| 0 <= j < ti.len() && ti[j] == y;
                    assert(r[j + 1] == y);
                    assert(r.contains(y));
                } else {
                    assert(r[0] == y);
                    assert(r.contains(y));
                }
            }
            if y == x {
                assert(sorted_insert(t, x).contains(x));
                assert(ti.contains(x));
                let j = choose|j: int| 0 <= j < ti.len() && ti[j] == x;
                assert(r[j + 1] == x);
                assert(r.contains(x));
            }
        }
        assert forall|i: int, j: int| 0 <= i < j < r.len() implies r[i] < r[j] by {
            if i == 0 {
                assert(ti.contains(r[j]));
                if t.contains(r[j]) {
                    let k = choose|k: int| 0 <= k < t.len() && t[k] == r[j];
                    assert(s[k + 1] == r[j]);
                }
            }
        }
    }
}

} // verus!

verus! {

/// The match contexts of a diff text, over its lines (see `spec_lines`).
pub fn extract_match_contexts(raw_diff: &str, match_line_indices: &[usize], context_radius: usize) -> (r:
    Vec<MatchContext>)
    requires
        forall|i: int|
            0 <= i < match_line_indices@.len() ==> match_line_indices@[i] + context_radius
                <= usize::MAX,
    ensures
        spec_contexts(r@, spec_lines(raw_diff@), match_line_indices@, context_radius),
{
    let lines = split_lines(raw_diff);
    extract_match_contexts_from_lines(lines.as_slice(), match_line_indices, context_radius)
}

/// The matches of the search in one file's diff.
pub struct FileMatches {
    /// The blocks of context around the matching lines.
    pub contexts: Vec<MatchContext>,
    /// How many lines match.
    pub total_matches: usize,
    /// `total_matches` in decimal.
    pub total_matches_display: String,
}

/// What searching one file's diff found.
pub enum FileSearchOutcome {
    /// No line matches: the file is left out of the results.
    NoMatch,
    Matches(FileMatches),
    /// A matching line lies so far down that the end of its context does not fit in a
    /// `usize`.
    OutOfRange,
}

/// Searches one file's diff `raw_diff` (with its lowercased text `raw_diff_lower`, when
/// the search ignores case and it is at hand) for `query` (lowercased as `query_lower`):
/// the matching lines (see `spec_match_line_indices`), and, when there are any, the
/// blocks of `SEARCH_CONTEXT_RADIUS` lines of context around them and their count.
pub fn search_file_diff(
    raw_diff: &str,
    raw_diff_lower: Option<&str>,
    query: &str,
    query_lower: Option<&str>,
    case_sensitive: bool,
) -> (r: FileSearchOutcome)
    ensures
        ({
            let ms = spec_match_line_indices(
                raw_diff@,
                opt_view(raw_diff_lower),
                query@,
                opt_view(query_lower),
                case_sensitive,
            );
            if ms.len() == 0 {
                r is NoMatch
            } else if forall|i: int| 0 <= i < ms.len() ==> ms[i] + SEARCH_CONTEXT_RADIUS <= usize::MAX {
                r matches FileSearchOutcome::Matches(m) && spec_contexts(
                    m.contexts@,
                    spec_lines(raw_diff@),
                    ms,
                    SEARCH_CONTEXT_RADIUS,
                ) && m.total_matches == ms.len() && m.total_matches_display@ == decimal(ms.len())
            } else {
                r is OutOfRange
            }
        }),
{
    let indices = find_match_line_indices_with_lower(raw_diff, raw_diff_lower, query, query_lower, case_sensitive);
    if indices.len() == 0 {
        return FileSearchOutcome::NoMatch;
    }
    let mut i: usize = 0;
    while i < indices.len()
        invariant
            i <= indices@.len(),
            indices@.len() > 0,
            indices@ == spec_match_line_indices(
                raw_diff@,
                opt_view(raw_diff_lower),
                query@,
                opt_view(query_lower),
                case_sensitive,
            ),
            forall|k: int| 0 <= k < i ==> indices@[k] + SEARCH_CONTEXT_RADIUS <= usize::MAX,
        decreases indices@.len() - i,
    {
        if indices[i] > usize::MAX - SEARCH_CONTEXT_RADIUS {
            proof {
                assert(!(indices@[i as int] + SEARCH_CONTEXT_RADIUS <= usize::MAX));
            }
            return FileSearchOutcome::OutOfRange;
        }
        i = i + 1;
    }
    let contexts = extract_match_contexts(raw_diff, indices.as_slice(), SEARCH_CONTEXT_RADIUS);
    let total = indices.len();
    let display = crate::text::decimal_string(total);
    FileSearchOutcome::Matches(FileMatches { contexts, total_matches: total, total_matches_display: display })
}

} // verus!

verus! {

/// `window_start` and `window_end` grow with the match line.
proof fn lemma_window_mono(a: usize, b: usize, radius: usize, len: nat)
    requires
        a <= b,
    ensures
        window_start(a, radius) <= window_start(b, radius),
        window_end(a, radius, len) <= window_end(b, radius, len),
{
}

/// The groups of ascending distinct matches: none is empty, each is ascending, their
/// members are exactly the matches, consecutive members of a group have windows that
/// overlap or touch, and consecutive groups have windows at least one line apart.
proof fn lemma_group_laws(ms: Seq<usize>, radius: usize, len: nat)
    requires
        strictly_increasing(ms),
    ensures
        ({
            let gs = group_members(ms, radius, len);
            &&& forall|i: int| 0 <= i < gs.len() ==> (#[trigger] gs[i]).len() > 0
            &&& forall|i: int| 0 <= i < gs.len() ==> strictly_increasing(#[trigger] gs[i])
            &&& forall|i: int, j: int|
                0 <= i < gs.len() && 0 <= j < gs[i].len() - 1 ==> window_start(#[trigger] gs[i][j + 1], radius)
                    <= window_end(gs[i][j], radius, len) + 1
            &&& forall|i: int|
                0 <= i < gs.len() - 1 ==> window_start(#[trigger] gs[i + 1][0], radius) > window_end(
                    gs[i].last(),
                    radius,
                    len,
                ) + 1
            &&& forall|x: usize|
                ms.contains(x) <==> exists|i: int, j: int|
                    0 <= i < gs.len() && 0 <= j < gs[i].len() && #[trigger] gs[i][j] == x
        }),
    decreases ms.len(),
{
    let gs = group_members(ms, radius, len);
    if ms.len() == 0 {
    } else if ms.len() == 1 {
        assert forall|x: usize| ms.contains(x) <==> exists|i: int, j: int|
            0 <= i < gs.len() && 0 <= j < gs[i].len() && #[trigger] gs[i][j] == x by {
            if ms.contains(x) {
                assert(gs[0][0] == x);
            }
        }
    } else {
        let t = ms.drop_last();
        assert(strictly_increasing(t));
        lemma_group_laws(t, radius, len);
        lemma_group_members(t, radius, len);
        let prev = group_members(t, radius, len);
        let m = ms.last();
        let p = ms[ms.len() - 2];
        assert(t.last() == p);
        assert(p < m);
        assert forall|x: usize| ms.contains(x) <==> (t.contains(x) || x == m) by {
            if ms.contains(x) {
                let k = choose|k: int| 0 <= k < ms.len() && ms[k] == x;
                if k < ms.len() - 1 {
                    assert(t[k] == x);
                }
            }
            if t.contains(x) {
                let k = choose|k: int| 0 <= k < t.len() && t[k] == x;
                assert(ms[k] == x);
            }
        }
        assert forall|i: int, j: int| 0 <= i < prev.len() && 0 <= j < prev[i].len() implies #[trigger] prev[i][j] < m by {
            assert(t.contains(prev[i][j]));
            let k = choose|k: int| 0 <= k < t.len() && t[k] == prev[i][j];
            assert(ms[k] == t[k]);
        }
        if window_start(m, radius) <= window_end(p, radius, len) + 1 {
            let l = prev.len() - 1;
            assert(gs == prev.update(l, prev[l].push(m)));
            assert forall|i: int| 0 <= i < gs.len() implies strictly_increasing(#[trigger] gs[i]) by {
                if i == l {
                    assert forall|a: int, b: int| 0 <= a < b < gs[i].len() implies gs[i][a] < gs[i][b] by {
                        if b == gs[i].len() - 1 {
                            assert(gs[i][b] == m);
                            assert(gs[i][a] == prev[l][a]);
                        } else {
                            assert(gs[i][a] == prev[l][a]);
                            assert(gs[i][b] == prev[l][b]);
                        }
                    }
                }
            }
            assert forall|i: int, j: int|
                0 <= i < gs.len() && 0 <= j < gs[i].len() - 1 implies window_start(#[trigger] gs[i][j + 1], radius)
                    <= window_end(gs[i][j], radius, len) + 1 by {
                if i == l {
                    if j == gs[i].len() - 2 {
                        assert(gs[i][j] == prev[l].last());
                        assert(gs[i][j + 1] == m);
                    } else {
                        assert(gs[i][j] == prev[l][j]);
                        assert(gs[i][j + 1] == prev[l][j + 1]);
                    }
                }
            }
            assert forall|i: int| 0 <= i < gs.len() - 1 implies window_start(#[trigger] gs[i + 1][0], radius)
                > window_end(gs[i].last(), radius, len) + 1 by {
                assert(gs[i] == prev[i]);
                if i + 1 == l {
                    assert(gs[i + 1][0] == prev[l][0]);
                } else {
                    assert(gs[i + 1] == prev[i + 1]);
                }
            }
            assert forall|x: usize| ms.contains(x) <==> exists|i: int, j: int|
                0 <= i < gs.len() && 0 <= j < gs[i].len() && #[trigger] gs[i][j] == x by {
                if t.contains(x) {
                    let (i, j) = choose|i: int, j: int|
                        0 <= i < prev.len() && 0 <= j < prev[i].len() && #[trigger] prev[i][j] == x;
                    assert(gs[i][j] == x);
                }
                if x == m {
                    assert(gs[l][prev[l].len() as int] == x);
                }
                if exists|i: int, j: int| 0 <= i < gs.len() && 0 <= j < gs[i].len() && #[trigger] gs[i][j] == x {
                    let (i, j) = choose|i: int, j: int|
                        0 <= i < gs.len() && 0 <= j < gs[i].len() && #[trigger] gs[i][j] == x;
                    if !(i == l && j == prev[l].len()) {
                        assert(prev[i][j] == x);
                    }
                }
            }
        } else {
            assert(gs == prev.push(seq![m]));
            assert forall|i: int| 0 <= i < gs.len() implies strictly_increasing(#[trigger] gs[i]) by {
                if i < prev.len() {
                    assert(gs[i] == prev[i]);
                }
            }
            assert forall|i: int| 0 <= i < gs.len() - 1 implies window_start(#[trigger] gs[i + 1][0], radius)
                > window_end(gs[i].last(), radius, len) + 1 by {
                assert(gs[i] == prev[i]);
                if i + 1 < prev.len() {
                    assert(gs[i + 1] == prev[i + 1]);
                }
            }
            assert forall|i: int, j: int|
                0 <= i < gs.len() && 0 <= j < gs[i].len() - 1 implies window_start(#[trigger] gs[i][j + 1], radius)
                    <= window_end(gs[i][j], radius, len) + 1 by {
                assert(gs[i] == prev[i]);
            }
            assert forall|x: usize| ms.contains(x) <==> exists|i: int, j: int|
                0 <= i < gs.len() && 0 <= j < gs[i].len() && #[trigger] gs[i][j] == x by {
                if t.contains(x) {
                    let (i, j) = choose|i: int, j: int|
                        0 <= i < prev.len() && 0 <= j < prev[i].len() && #[trigger] prev[i][j] == x;
                    assert(gs[i][j] == x);
                }
                if x == m {
                    assert(gs[prev.len() as int][0] == x);
                }
                if exists|i: int, j: int| 0 <= i < gs.len() && 0 <= j < gs[i].len() && #[trigger] gs[i][j] == x {
                    let (i, j) = choose|i: int, j: int|
                        0 <= i < gs.len() && 0 <= j < gs[i].len() && #[trigger] gs[i][j] == x;
                    if i < prev.len() {
                        assert(prev[i][j] == x);
                    }
                }
            }
        }
    }
}

} // verus!

verus! {

/// What the match contexts of a diff promise: consecutive contexts never overlap nor
/// touch (overlapping or adjacent windows are merged into one context), every match line
/// that exists in the diff is shown in a context and marked there, and only match lines
/// are marked.
pub proof fn lemma_match_contexts(
    result: Seq<MatchContext>,
    lines: Seq<Seq<char>>,
    matches: Seq<usize>,
    radius: usize,
)
    requires
        spec_contexts(result, lines, matches, radius),
    ensures
        forall|i: int|
            0 <= i < result.len() - 1 ==> (#[trigger] result[i]).end_line + 1 < result[i + 1].start_line,
        forall|m: usize|
            #[trigger] matches.contains(m) && m < lines.len() ==> exists|i: int|
                0 <= i < result.len() && result[i].start_line <= m <= result[i].end_line
                    && (#[trigger] result[i]).lines@[m - result[i].start_line].is_match
                    && result[i].lines@[m - result[i].start_line].line_number == m,
        forall|i: int, k: int|
            0 <= i < result.len() && 0 <= k < result[i].lines@.len() && (#[trigger] result[i].lines@[k]).is_match
                ==> matches.contains(result[i].lines@[k].line_number),
{
    if lines.len() > 0 && matches.len() > 0 {
        let ms = sort_dedup(matches);
        let len = lines.len();
        lemma_sort_dedup_members(matches);
        lemma_group_laws(ms, radius, len);
        let gs = group_members(ms, radius, len);
        assert forall|i: int| 0 <= i < result.len() - 1 implies (#[trigger] result[i]).end_line + 1
            < result[i + 1].start_line by {
            assert(group_context_fits(result[i], lines, gs[i], radius));
            assert(group_context_fits(result[i + 1], lines, gs[i + 1], radius));
            assert(gs[i + 1].len() > 0);
        }
        assert forall|m: usize| #[trigger] matches.contains(m) && m < lines.len() implies exists|i: int|
            0 <= i < result.len() && result[i].start_line <= m <= result[i].end_line
                && (#[trigger] result[i]).lines@[m - result[i].start_line].is_match
                && result[i].lines@[m - result[i].start_line].line_number == m by {
            assert(ms.contains(m));
            let (i, j) = choose|i: int, j: int| 0 <= i < gs.len() && 0 <= j < gs[i].len() && #[trigger] gs[i][j] == m;
            let g = gs[i];
            assert(strictly_increasing(g));
            assert(g[0] <= m) by {
                if j > 0 {
                    assert(g[0] < g[j]);
                }
            }
            assert(m <= g.last()) by {
                if j < g.len() - 1 {
                    assert(g[j] < g[g.len() - 1]);
                }
            }
            lemma_window_mono(g[0], m, radius, len);
            lemma_window_mono(m, g.last(), radius, len);
            assert(group_context_fits(result[i], lines, g, radius));
            let start = result[i].start_line;
            let k = m - start;
            assert(0 <= k < result[i].lines@.len());
            let l = result[i].lines@[k];
            assert(l.line_number == start + k);
            assert(g.contains(m));
            assert(l.is_match);
        }
        assert forall|i: int, k: int|
            0 <= i < result.len() && 0 <= k < result[i].lines@.len() && (#[trigger] result[i].lines@[k]).is_match
            implies matches.contains(result[i].lines@[k].line_number) by {
            assert(group_context_fits(result[i], lines, gs[i], radius));
            let start = result[i].start_line;
            let l = result[i].lines@[k];
            let x = (start + k) as usize;
            assert(gs[i].contains(x));
            let j = choose|j: int| 0 <= j < gs[i].len() && gs[i][j] == x;
            assert(gs[i][j] == x);
            assert(ms.contains(x));
            assert(l.line_number == x);
        }
    }
}

} // verus!
