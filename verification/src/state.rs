use vstd::prelude::*;
use crate::config::ThemePreference;
use crate::text::{contains_chars, contains_seq, spec_to_lowercase, spec_trim, to_chars, to_lowercase, trim, views};
use crate::views::last_index;

verus! {

/// Whether the application shows its dark or its light theme.
#[derive(Debug, Clone, Copy, PartialEq, Eq, Structural)]
pub enum ThemeMode {
    Dark,
    Light,
}

impl ThemeMode {
    /// The mode for a preference; following the system means dark.
    pub fn from_preference(preference: ThemePreference) -> (m: Self)
        ensures
            m == match preference {
                ThemePreference::Light => ThemeMode::Light,
                _ => ThemeMode::Dark,
            },
    {
        match preference {
            ThemePreference::Dark => ThemeMode::Dark,
            ThemePreference::Light => ThemeMode::Light,
            ThemePreference::System => ThemeMode::Dark,
        }
    }

    /// The preference that keeps this mode.
    pub fn preference(self) -> (p: ThemePreference)
        ensures
            p == match self {
                ThemeMode::Dark => ThemePreference::Dark,
                ThemeMode::Light => ThemePreference::Light,
            },
    {
        match self {
            ThemeMode::Dark => ThemePreference::Dark,
            ThemeMode::Light => ThemePreference::Light,
        }
    }

    /// Switches between dark and light.
    pub fn toggle(&mut self)
        ensures
            *final(self) != *old(self),
    {
        *self = match *self {
            ThemeMode::Dark => ThemeMode::Light,
            ThemeMode::Light => ThemeMode::Dark,
        };
    }

    /// Whether the mode is dark.
    pub fn is_dark(self) -> (b: bool)
        ensures
            b == (self == ThemeMode::Dark),
    {
        matches!(self, ThemeMode::Dark)
    }
}

/// A mode survives being saved as a preference and read back, and toggling twice
/// restores it.
pub proof fn lemma_theme_mode_round_trip(m: ThemeMode)
    ensures
        (match m {
            ThemeMode::Dark => ThemePreference::Dark,
            ThemeMode::Light => ThemePreference::Light,
        }) == (if m == ThemeMode::Dark {
            ThemePreference::Dark
        } else {
            ThemePreference::Light
        }),
        (match (match m {
            ThemeMode::Dark => ThemePreference::Dark,
            ThemeMode::Light => ThemePreference::Light,
        }) {
            ThemePreference::Light => ThemeMode::Light,
            _ => ThemeMode::Dark,
        }) == m,
{
}

/// The commit message being written.
pub struct CommitComposer {
    pub summary: String,
    pub submitting: bool,
    pub error: Option<String>,
}

impl CommitComposer {
    /// An empty message, not being submitted.
    pub fn new() -> (c: Self)
        ensures
            c.summary@ == Seq::<char>::empty(),
            !c.submitting,
            c.error is None,
    {
        CommitComposer { summary: String::new(), submitting: false, error: None }
    }

    /// A commit can be made when none is under way, something is staged and the summary
    /// is not blank.
    pub fn can_submit(&self, staged_count: usize) -> (b: bool)
        ensures
            b == (!self.submitting && staged_count > 0 && spec_trim(self.summary@).len() > 0),
    {
        !self.submitting && staged_count > 0 && !trim(self.summary.as_str()).is_empty()
    }
}

/// `p` starts `s`.
pub open spec fn starts_with(s: Seq<char>, p: Seq<char>) -> bool {
    p.len() <= s.len() && s.take(p.len() as int) == p
}

fn starts_with_chars(s: &Vec<char>, p: &Vec<char>) -> (b: bool)
    ensures
        b == starts_with(s@, p@),
{
    if p.len() > s.len() {
        return false;
    }
    let mut i: usize = 0;
    while i < p.len()
        invariant
            p@.len() <= s@.len(),
            i <= p@.len(),
            forall|k: int| 0 <= k < i ==> s@[k] == p@[k],
        decreases p@.len() - i,
    {
        if s[i] != p[i] {
            proof {
                assert(s@.take(p@.len() as int)[i as int] != p@[i as int]);
            }
            return false;
        }
        i = i + 1;
    }
    proof {
        assert(s@.take(p@.len() as int) =~= p@);
    }
    true
}

/// The first `n` items whose key, lowercased, starts with `fl`.
pub open spec fn prefix_hits(items: Seq<Seq<char>>, keys: Seq<Seq<char>>, fl: Seq<char>, n: int) -> Seq<Seq<char>>
    decreases n,
{
    if n <= 0 {
        Seq::empty()
    } else if starts_with(spec_to_lowercase(keys[n - 1]), fl) {
        prefix_hits(items, keys, fl, n - 1).push(items[n - 1])
    } else {
        prefix_hits(items, keys, fl, n - 1)
    }
}

/// The first `n` items whose key does not start with `fl` once lowercased but whose
/// lowercased text contains it.
pub open spec fn other_hits(
    items: Seq<Seq<char>>,
    keys: Seq<Seq<char>>,
    fl: Seq<char>,
    n: int,
) -> Seq<Seq<char>>
    decreases n,
{
    if n <= 0 {
        Seq::empty()
    } else if !starts_with(spec_to_lowercase(keys[n - 1]), fl) && contains_seq(spec_to_lowercase(items[n - 1]), fl) {
        other_hits(items, keys, fl, n - 1).push(items[n - 1])
    } else {
        other_hits(items, keys, fl, n - 1)
    }
}

/// The items that match the filter: all of them for an empty filter; else those whose
/// key starts with the lowercased filter (once lowercased), then the others that contain
/// it, each group in the items' order.
pub open spec fn filter_items(items: Seq<Seq<char>>, keys: Seq<Seq<char>>, filter: Seq<char>) -> Seq<Seq<char>> {
    if filter.len() == 0 {
        items
    } else {
        let fl = spec_to_lowercase(filter);
        prefix_hits(items, keys, fl, items.len() as int) + other_hits(items, keys, fl, items.len() as int)
    }
}

/// Filters `items` (with `keys[i]` the key of `items[i]`) as `filter_items` says.
fn filter_by_keys<'a>(items: &Vec<&'a str>, keys: &Vec<&'a str>, filter: &str) -> (r: Vec<&'a str>)
    requires
        items@.len() == keys@.len(),
    ensures
        views(r@) == filter_items(views(items@), views(keys@), filter@),
{
    if filter.is_empty() {
        let mut r: Vec<&str> = Vec::new();
        let mut i: usize = 0;
        while i < items.len()
            invariant
                i <= items@.len(),
                views(r@) == views(items@).take(i as int),
            decreases items@.len() - i,
        {
            let ghost before = views(r@);
            r.push(items[i]);
            proof {
                assert(views(r@) =~= before.push(items@[i as int]@));
                assert(views(r@) =~= views(items@).take(i + 1));
            }
            i = i + 1;
        }
        proof {
            assert(views(items@).take(i as int) =~= views(items@));
        }
        return r;
    }
    let fl_s = to_lowercase(filter);
    let fl = to_chars(fl_s.as_str());
    let ghost is = views(items@);
    let ghost ks = views(keys@);
    let mut prefix: Vec<&str> = Vec::new();
    let mut rest: Vec<&str> = Vec::new();
    let mut i: usize = 0;
    while i < items.len()
        invariant
            items@.len() == keys@.len(),
            is == views(items@),
            ks == views(keys@),
            fl@ == spec_to_lowercase(filter@),
            i <= items@.len(),
            views(prefix@) == prefix_hits(is, ks, fl@, i as int),
            views(rest@) == other_hits(is, ks, fl@, i as int),
        decreases items@.len() - i,
    {
        let key_lower = to_lowercase(keys[i]);
        let kl = to_chars(key_lower.as_str());
        if starts_with_chars(&kl, &fl) {
            prefix.push(items[i]);
            proof {
                assert(views(prefix@) =~= prefix_hits(is, ks, fl@, i as int).push(is[i as int]));
            }
        } else {
            let item_lower = to_lowercase(items[i]);
            let il = to_chars(item_lower.as_str());
            if contains_chars(&il, &fl) {
                rest.push(items[i]);
                proof {
                    assert(views(rest@) =~= other_hits(is, ks, fl@, i as int).push(is[i as int]));
                }
            }
        }
        i = i + 1;
    }
    let ghost p0 = views(prefix@);
    let mut j: usize = 0;
    while j < rest.len()
        invariant
            j <= rest@.len(),
            views(prefix@) == p0 + views(rest@).take(j as int),
        decreases rest@.len() - j,
    {
        let ghost before = views(prefix@);
        prefix.push(rest[j]);
        proof {
            assert(views(prefix@) =~= before.push(rest@[j as int]@));
            assert(views(prefix@) =~= p0 + views(rest@).take(j + 1));
        }
        j = j + 1;
    }
    proof {
        assert(views(rest@).take(j as int) =~= views(rest@));
    }
    prefix
}

/// The string slices of `v`.
fn slices<'a>(v: &'a Vec<String>) -> (r: Vec<&'a str>)
    ensures
        views(r@) == crate::git::cli::string_views(v@),
{
    let mut r: Vec<&str> = Vec::new();
    let mut i: usize = 0;
    while i < v.len()
        invariant
            i <= v@.len(),
            views(r@) == crate::git::cli::string_views(v@).take(i as int),
        decreases v@.len() - i,
    {
        let ghost before = views(r@);
        r.push(v[i].as_str());
        proof {
            assert(views(r@) =~= before.push(v@[i as int]@));
            assert(views(r@) =~= crate::git::cli::string_views(v@).take(i + 1));
        }
        i = i + 1;
    }
    proof {
        assert(crate::git::cli::string_views(v@).take(i as int) =~= crate::git::cli::string_views(v@));
    }
    r
}

/// The branch picker: the branches (most recent first), the current branch, and what
/// the user typed to filter them.
pub struct BranchPicker {
    pub branches: Vec<String>,
    pub current: String,
    pub filter: String,
    pub selected_index: usize,
    pub error: Option<String>,
}

impl BranchPicker {
    /// A picker over `branches` with an empty filter.
    pub fn new(branches: Vec<String>, current: String) -> (p: Self)
        ensures
            p.branches == branches,
            p.current == current,
            p.filter@ == Seq::<char>::empty(),
            p.selected_index == 0,
            p.error is None,
    {
        BranchPicker { branches, current, filter: String::new(), selected_index: 0, error: None }
    }

    /// The branches that match the filter: those whose lowercased name starts with the
    /// lowercased filter, then those that merely contain it, each in recency order.
    pub fn filtered_branches(&self) -> (r: Vec<&str>)
        ensures
            views(r@) == filter_items(
                crate::git::cli::string_views(self.branches@),
                crate::git::cli::string_views(self.branches@),
                self.filter@,
            ),
    {
        let items = slices(&self.branches);
        filter_by_keys(&items, &items, self.filter.as_str())
    }

    /// Whether the picker offers to create a branch named by the filter, as its first
    /// item: the filter is not empty and names no listed branch.
    pub fn should_show_create(&self) -> (r: bool)
        ensures
            r == shows_create(*self),
    {
        !self.filter.as_str().is_empty() && !crate::sidebar::contains_string(&self.branches, &self.filter)
    }
}

/// Whether the picker `p` lists a "create" item first: its filter is not empty and
/// names none of its branches.
pub open spec fn shows_create(p: BranchPicker) -> bool {
    p.filter@.len() > 0 && !crate::git::cli::string_views(p.branches@).contains(p.filter@)
}

/// The last `/`-separated part of a path: the repository's name.
pub open spec fn repo_name(path: Seq<char>) -> Seq<char> {
    path.skip(last_index(path, '/') + 1)
}

/// The repositories other than `current`, in order.
pub open spec fn others(repos: Seq<Seq<char>>, current: Seq<char>, n: int) -> Seq<Seq<char>>
    decreases n,
{
    if n <= 0 {
        Seq::empty()
    } else if repos[n - 1] == current {
        others(repos, current, n - 1)
    } else {
        others(repos, current, n - 1).push(repos[n - 1])
    }
}

/// The names of the repositories.
pub open spec fn repo_names(repos: Seq<Seq<char>>) -> Seq<Seq<char>> {
    repos.map_values(|r: Seq<char>| repo_name(r))
}

fn repo_name_exec<'a>(path: &'a str) -> (r: &'a str)
    ensures
        r@ == repo_name(path@),
{
    let cs = to_chars(path);
    let n = cs.len();
    let mut i: usize = n;
    proof {
        assert(cs@.take(i as int) =~= cs@);
    }
    while i > 0 && cs[i - 1] != '/'
        invariant
            cs@ == path@,
            n == cs@.len(),
            i <= n,
            last_index(cs@, '/') == last_index(cs@.take(i as int), '/'),
        decreases i,
    {
        proof {
            assert(cs@.take(i as int).drop_last() =~= cs@.take(i - 1));
        }
        i = i - 1;
    }
    proof {
        if i == 0 {
            assert(cs@.take(0) =~= Seq::<char>::empty());
        } else {
            assert(cs@.take(i as int).last() == cs@[i - 1]);
        }
    }
    let off_i = crate::text::byte_offset(path, &cs, i);
    let off_n = crate::text::byte_offset(path, &cs, n);
    let r = crate::text::substr(path, i, n, off_i, off_n);
    proof {
        assert(path@.subrange(i as int, n as int) =~= path@.skip(i as int));
    }
    r
}

/// The project picker: the recent repositories, the one open now, and the filter.
pub struct ProjectPicker {
    pub repos: Vec<String>,
    pub current: String,
    pub filter: String,
    pub selected_index: usize,
}

impl ProjectPicker {
    /// A picker over `repos` with an empty filter.
    pub fn new(repos: Vec<String>, current: String) -> (p: Self)
        ensures
            p.repos == repos,
            p.current == current,
            p.filter@ == Seq::<char>::empty(),
            p.selected_index == 0,
    {
        ProjectPicker { repos, current, filter: String::new(), selected_index: 0 }
    }

    /// The recent repositories other than the open one that match the filter: those
    /// whose lowercased name starts with the lowercased filter, then those whose
    /// lowercased path contains it, each in recency order.
    pub fn filtered_repos(&self) -> (r: Vec<&str>)
        ensures
            ({
                let o = others(
                    crate::git::cli::string_views(self.repos@),
                    self.current@,
                    self.repos@.len() as int,
                );
                views(r@) == filter_items(o, repo_names(o), self.filter@)
            }),
    {
        let ghost rs = crate::git::cli::string_views(self.repos@);
        let mut non_current: Vec<&str> = Vec::new();
        let mut names: Vec<&str> = Vec::new();
        let mut i: usize = 0;
        while i < self.repos.len()
            invariant
                rs == crate::git::cli::string_views(self.repos@),
                i <= self.repos@.len(),
                views(non_current@) == others(rs, self.current@, i as int),
                views(names@) == repo_names(views(non_current@)),
            decreases self.repos@.len() - i,
        {
            if !(self.repos[i] == self.current) {
                let r = self.repos[i].as_str();
                let ghost nc_before = views(non_current@);
                let ghost names_before = views(names@);
                non_current.push(r);
                let nm = repo_name_exec(r);
                names.push(nm);
                proof {
                    assert(views(non_current@) =~= nc_before.push(r@));
                    assert(views(names@) =~= names_before.push(nm@));
                    assert(views(non_current@) =~= others(rs, self.current@, i as int).push(rs[i as int]));
                    assert(views(names@) =~= repo_names(views(non_current@)));
                }
            }
            i = i + 1;
        }
        filter_by_keys(&non_current, &names, self.filter.as_str())
    }
}

} // verus!

verus! {

/// What the search view needs of one file's search result.
pub struct SearchResultSummary {
    pub file_path: String,
    /// Number of matching lines in the file.
    pub total_matches: usize,
    /// Number of context blocks shown for the file.
    pub context_count: usize,
}

/// The number of matching lines over the results.
pub open spec fn total_matches(rs: Seq<SearchResultSummary>) -> nat
    decreases rs.len(),
{
    if rs.len() == 0 {
        0
    } else {
        total_matches(rs.drop_last()) + rs.last().total_matches as nat
    }
}

/// The number of context blocks over the results.
pub open spec fn total_contexts(rs: Seq<SearchResultSummary>) -> nat
    decreases rs.len(),
{
    if rs.len() == 0 {
        0
    } else {
        total_contexts(rs.drop_last()) + rs.last().context_count as nat
    }
}

/// `suffix` unless `n` is one.
pub open spec fn plural(n: nat, suffix: Seq<char>) -> Seq<char> {
    if n == 1 {
        Seq::empty()
    } else {
        suffix
    }
}

/// The three summary lines of a search: overall, files, and context blocks.
pub open spec fn search_summaries(
    query: Seq<char>,
    searching: bool,
    files: nat,
    matches: nat,
    contexts: nat,
) -> (Seq<char>, Seq<char>, Seq<char>) {
    if query.len() == 0 {
        ("Search all diffs"@, "0 files"@, Seq::empty())
    } else if searching {
        ("Searching for "@ + crate::text::spec_debug_str(query) + "…"@, "0 files"@, Seq::empty())
    } else {
        (
            crate::text::spec_debug_str(query) + " • "@ + crate::text::decimal(files) + " file"@ + plural(files, "s"@)
                + " • "@ + crate::text::decimal(matches) + " match"@ + plural(matches, "es"@),
            crate::text::decimal(files) + " file"@ + plural(files, "s"@),
            crate::text::decimal(contexts) + " context block"@ + plural(contexts, "s"@) + " • "@
                + crate::text::decimal(matches) + " total match"@ + plural(matches, "es"@),
        )
    }
}

/// The state of the project-wide search.
pub struct ProjectSearch {
    pub query: String,
    pub case_sensitive: bool,
    /// The lowercased query, empty for a case-sensitive search.
    pub query_lower: String,
    pub results: Vec<SearchResultSummary>,
    pub searching: bool,
    pub request_id: u64,
    /// When the queued search is due, in milliseconds on the caller's clock.
    pub pending_run_at: Option<u64>,
    pub is_open: bool,
    pub input_focused: bool,
    pub cached_summary: String,
    pub cached_file_summary: String,
    pub cached_result_summary: String,
}

fn plural_exec(n: usize, suffix: &str) -> (r: &str)
    ensures
        r@ == plural(n as nat, suffix@),
{
    if n == 1 {
        proof {
            reveal_strlit("");
        }
        ""
    } else {
        suffix
    }
}

fn sum_counts(rs: &Vec<SearchResultSummary>) -> (r: (usize, usize))
    requires
        total_matches(rs@) <= usize::MAX,
        total_contexts(rs@) <= usize::MAX,
    ensures
        r.0 == total_matches(rs@),
        r.1 == total_contexts(rs@),
{
    let mut m: usize = 0;
    let mut c: usize = 0;
    let mut i: usize = 0;
    proof {
        assert(rs@.take(0) =~= Seq::<SearchResultSummary>::empty());
    }
    while i < rs.len()
        invariant
            i <= rs@.len(),
            m == total_matches(rs@.take(i as int)),
            c == total_contexts(rs@.take(i as int)),
            total_matches(rs@) <= usize::MAX,
            total_contexts(rs@) <= usize::MAX,
        decreases rs@.len() - i,
    {
        proof {
            assert(rs@.take(i + 1).drop_last() =~= rs@.take(i as int));
            lemma_totals_mono(rs@, i + 1);
        }
        m = m + rs[i].total_matches;
        c = c + rs[i].context_count;
        i = i + 1;
    }
    proof {
        assert(rs@.take(i as int) =~= rs@);
    }
    (m, c)
}

proof fn lemma_totals_mono(rs: Seq<SearchResultSummary>, k: int)
    requires
        0 <= k <= rs.len(),
    ensures
        total_matches(rs.take(k)) <= total_matches(rs),
        total_contexts(rs.take(k)) <= total_contexts(rs),
    decreases rs.len(),
{
    if k < rs.len() {
        assert(rs.drop_last().take(k) =~= rs.take(k));
        lemma_totals_mono(rs.drop_last(), k);
    } else {
        assert(rs.take(k) =~= rs);
    }
}

impl ProjectSearch {
    /// An open search with an empty query, its input focused.
    pub fn new() -> (s: Self)
        ensures
            s.query@ == Seq::<char>::empty(),
            !s.case_sensitive,
            s.query_lower@ == Seq::<char>::empty(),
            s.results@.len() == 0,
            !s.searching,
            s.request_id == 0,
            s.pending_run_at is None,
            s.is_open,
            s.input_focused,
            s.cached_summary@ == Seq::<char>::empty(),
            s.cached_file_summary@ == "0 files"@,
            s.cached_result_summary@ == Seq::<char>::empty(),
    {
        ProjectSearch {
            query: String::new(),
            case_sensitive: false,
            query_lower: String::new(),
            results: Vec::new(),
            searching: false,
            request_id: 0,
            pending_run_at: None,
            is_open: true,
            input_focused: true,
            cached_summary: String::new(),
            cached_file_summary: "0 files".to_owned(),
            cached_result_summary: String::new(),
        }
    }

    /// Recomputes the three summary lines (see `search_summaries`).
    pub fn rebuild_cached_summaries(&mut self)
        requires
            total_matches(old(self).results@) <= usize::MAX,
            total_contexts(old(self).results@) <= usize::MAX,
        ensures
            (final(self).cached_summary@, final(self).cached_file_summary@, final(self).cached_result_summary@)
                == search_summaries(
                old(self).query@,
                old(self).searching,
                old(self).results@.len(),
                total_matches(old(self).results@),
                total_contexts(old(self).results@),
            ),
            final(self).query == old(self).query,
            final(self).case_sensitive == old(self).case_sensitive,
            final(self).query_lower == old(self).query_lower,
            final(self).results == old(self).results,
            final(self).searching == old(self).searching,
            final(self).request_id == old(self).request_id,
            final(self).is_open == old(self).is_open,
            final(self).input_focused == old(self).input_focused,
            final(self).pending_run_at == old(self).pending_run_at,
            *final(self) == (ProjectSearch {
                cached_summary: final(self).cached_summary,
                cached_file_summary: final(self).cached_file_summary,
                cached_result_summary: final(self).cached_result_summary,
                ..*old(self)
            }),
    {
        proof {
            reveal_strlit("Search all diffs");
            reveal_strlit("0 files");
            reveal_strlit("");
        }
        if self.query.as_str().is_empty() {
            self.cached_summary = "Search all diffs".to_owned();
            self.cached_file_summary = "0 files".to_owned();
            self.cached_result_summary = String::new();
            return;
        }
        if self.searching {
            let mut s = "Searching for ".to_owned();
            let q = crate::text::debug_str(self.query.as_str());
            crate::text::push_str(&mut s, q.as_str());
            crate::text::push_str(&mut s, "…");
            self.cached_summary = s;
            self.cached_file_summary = "0 files".to_owned();
            self.cached_result_summary = String::new();
            return;
        }
        let file_count = self.results.len();
        let (match_count, context_count) = sum_counts(&self.results);
        let mut summary = crate::text::debug_str(self.query.as_str());
        crate::text::push_str(&mut summary, " • ");
        crate::text::push_decimal(&mut summary, file_count);
        crate::text::push_str(&mut summary, " file");
        crate::text::push_str(&mut summary, plural_exec(file_count, "s"));
        crate::text::push_str(&mut summary, " • ");
        crate::text::push_decimal(&mut summary, match_count);
        crate::text::push_str(&mut summary, " match");
        crate::text::push_str(&mut summary, plural_exec(match_count, "es"));
        let mut files = crate::text::decimal_string(file_count);
        crate::text::push_str(&mut files, " file");
        crate::text::push_str(&mut files, plural_exec(file_count, "s"));
        let mut blocks = crate::text::decimal_string(context_count);
        crate::text::push_str(&mut blocks, " context block");
        crate::text::push_str(&mut blocks, plural_exec(context_count, "s"));
        crate::text::push_str(&mut blocks, " • ");
        crate::text::push_decimal(&mut blocks, match_count);
        crate::text::push_str(&mut blocks, " total match");
        crate::text::push_str(&mut blocks, plural_exec(match_count, "es"));
        self.cached_summary = summary;
        self.cached_file_summary = files;
        self.cached_result_summary = blocks;
    }

    /// Takes new results; the search is over.
    pub fn set_results(&mut self, results: Vec<SearchResultSummary>)
        requires
            total_matches(results@) <= usize::MAX,
            total_contexts(results@) <= usize::MAX,
        ensures
            final(self).results@ == results@,
            !final(self).searching,
            final(self).query == old(self).query,
            (final(self).cached_summary@, final(self).cached_file_summary@, final(self).cached_result_summary@)
                == search_summaries(
                old(self).query@,
                false,
                results@.len(),
                total_matches(results@),
                total_contexts(results@),
            ),
            *final(self) == (ProjectSearch {
                results: final(self).results,
                searching: false,
                cached_summary: final(self).cached_summary,
                cached_file_summary: final(self).cached_file_summary,
                cached_result_summary: final(self).cached_result_summary,
                ..*old(self)
            }),
            final(self).results == results,
    {
        self.results = results;
        self.searching = false;
        self.rebuild_cached_summaries();
    }

    /// Drops the results; the search is over.
    pub fn clear_results(&mut self)
        ensures
            final(self).results@.len() == 0,
            !final(self).searching,
            final(self).query == old(self).query,
            (final(self).cached_summary@, final(self).cached_file_summary@, final(self).cached_result_summary@)
                == search_summaries(old(self).query@, false, 0, 0, 0),
            *final(self) == (ProjectSearch {
                results: final(self).results,
                searching: false,
                cached_summary: final(self).cached_summary,
                cached_file_summary: final(self).cached_file_summary,
                cached_result_summary: final(self).cached_result_summary,
                ..*old(self)
            }),
    {
        self.results = Vec::new();
        self.searching = false;
        proof {
            assert(total_matches(self.results@) == 0);
            assert(total_contexts(self.results@) == 0);
        }
        self.rebuild_cached_summaries();
    }

    /// Sets the lowercased query: empty for a case-sensitive search.
    pub fn update_query_lower(&mut self)
        ensures
            final(self).query_lower@ == if old(self).case_sensitive {
                Seq::<char>::empty()
            } else {
                spec_to_lowercase(old(self).query@)
            },
            final(self).query == old(self).query,
            final(self).case_sensitive == old(self).case_sensitive,
            final(self).results == old(self).results,
            final(self).searching == old(self).searching,
            *final(self) == (ProjectSearch { query_lower: final(self).query_lower, ..*old(self) }),
    {
        self.query_lower = if self.case_sensitive {
            String::new()
        } else {
            to_lowercase(self.query.as_str())
        };
    }

    /// Whether one of the results is for the file at `path`.
    pub fn is_matching_path(&self, path: &String) -> (b: bool)
        ensures
            b == exists|k: int| 0 <= k < self.results@.len() && #[trigger] self.results@[k].file_path@ == path@,
    {
        let mut i: usize = 0;
        while i < self.results.len()
            invariant
                i <= self.results@.len(),
                forall|k: int| 0 <= k < i ==> #[trigger] self.results@[k].file_path@ != path@,
            decreases self.results@.len() - i,
        {
            if self.results[i].file_path == *path {
                return true;
            }
            i = i + 1;
        }
        false
    }

    /// The index of the last result for the file at `path`, if any.
    pub fn result_index(&self, path: &String) -> (r: Option<usize>)
        ensures
            match r {
                Some(k) => k < self.results@.len() && self.results@[k as int].file_path@ == path@ && forall|j: int|
                    k < j < self.results@.len() ==> #[trigger] self.results@[j].file_path@ != path@,
                None => forall|j: int| 0 <= j < self.results@.len() ==> #[trigger] self.results@[j].file_path@ != path@,
            },
    {
        let mut i: usize = self.results.len();
        while i > 0
            invariant
                i <= self.results@.len(),
                forall|j: int| i <= j < self.results@.len() ==> #[trigger] self.results@[j].file_path@ != path@,
            decreases i,
        {
            if self.results[i - 1].file_path == *path {
                return Some(i - 1);
            }
            i = i - 1;
        }
        None
    }

    /// The id of the next search request (wrapping around).
    pub fn next_request(&mut self) -> (id: u64)
        ensures
            id == final(self).request_id,
            final(self).request_id == (if old(self).request_id == u64::MAX {
                0
            } else {
                (old(self).request_id + 1) as u64
            }),
            final(self).query == old(self).query,
            final(self).results == old(self).results,
            *final(self) == (ProjectSearch { request_id: final(self).request_id, ..*old(self) }),
    {
        self.request_id = self.request_id.wrapping_add(1);
        self.request_id
    }
}

} // verus!

verus! {

impl ProjectSearch {
    /// Whether the counts of the results add up within `usize`.
    pub fn totals_fit(&self) -> (b: bool)
        ensures
            b == (total_matches(self.results@) <= usize::MAX && total_contexts(self.results@) <= usize::MAX),
    {
        let mut m: usize = 0;
        let mut c: usize = 0;
        let mut i: usize = 0;
        proof {
            assert(self.results@.take(0) =~= Seq::<SearchResultSummary>::empty());
        }
        while i < self.results.len()
            invariant
                i <= self.results@.len(),
                m == total_matches(self.results@.take(i as int)),
                c == total_contexts(self.results@.take(i as int)),
            decreases self.results@.len() - i,
        {
            proof {
                assert(self.results@.take(i + 1).drop_last() =~= self.results@.take(i as int));
                lemma_totals_mono(self.results@, i + 1);
            }
            let a = m.checked_add(self.results[i].total_matches);
            let b = c.checked_add(self.results[i].context_count);
            match (a, b) {
                (Some(x), Some(y)) => {
                    m = x;
                    c = y;
                },
                _ => {
                    return false;
                },
            }
            i = i + 1;
        }
        proof {
            assert(self.results@.take(i as int) =~= self.results@);
        }
        true
    }
}

/// Which pane has the keyboard.
#[derive(Debug, Clone, Copy, PartialEq, Eq, Structural)]
pub enum ActivePane {
    Sidebar,
    Diff,
}

/// The two tabs of the sidebar.
#[derive(Debug, Clone, Copy, PartialEq, Eq, Structural)]
pub enum SidebarTab {
    Changes,
    History,
}

/// Where the keyboard works in the history tab.
#[derive(Debug, Clone, Copy, PartialEq, Eq, Structural)]
pub enum HistoryFocus {
    CommitList,
    FileList,
    DiffView,
}

/// Where the keyboard works in the changes tab.
#[derive(Debug, Clone, Copy, PartialEq, Eq, Structural)]
pub enum ChangesFocus {
    FileList,
    DiffView,
}

/// Whether a status message reports a success or a failure.
#[derive(Debug, Clone, Copy, PartialEq, Eq, Structural)]
pub enum StatusTone {
    Success,
    Error,
}

/// A short message shown in the status bar.
#[derive(Debug, Clone)]
pub struct StatusMessage {
    pub text: String,
    pub tone: StatusTone,
}

/// A commit of the history list.
#[derive(Debug, Clone)]
pub struct Commit {
    pub hash: String,
    pub short_hash: String,
    pub author: String,
    pub date: String,
    pub message: String,
}

impl Commit {
    /// A copy of the commit.
    pub fn copy(&self) -> (c: Commit)
        ensures
            c == *self,
    {
        Commit {
            hash: self.hash.clone(),
            short_hash: self.short_hash.clone(),
            author: self.author.clone(),
            date: self.date.clone(),
            message: self.message.clone(),
        }
    }
}

/// The two buttons of the discard dialog.
#[derive(Debug, Clone, Copy, PartialEq, Eq, Structural)]
pub enum DiscardButton {
    Cancel,
    Discard,
}

/// The open discard dialog: the files whose changes would be thrown away.
#[derive(Debug, Clone)]
pub struct DiscardConfirm {
    pub paths: Vec<String>,
    pub focused_button: DiscardButton,
}

/// The open context menu of a sidebar row.
#[derive(Debug, Clone)]
pub struct SidebarContextMenu {
    pub path: String,
    pub is_dir: bool,
    pub row_index: usize,
}

/// What the project search pane shows.
#[derive(Debug, Clone, Copy, PartialEq, Eq, Structural)]
pub enum SearchPane {
    /// The prompt to type a query.
    Prompt,
    /// A note that the search runs.
    Searching,
    /// A note that nothing matched.
    NoMatches,
    /// The results.
    Results,
}

impl ProjectSearch {
    /// What the search pane shows: the prompt without a query, a note while searching or
    /// when nothing matched, else the results.
    pub fn pane(&self) -> (p: SearchPane)
        ensures
            p == if self.query@.len() == 0 {
                SearchPane::Prompt
            } else if self.searching {
                SearchPane::Searching
            } else if self.results@.len() == 0 {
                SearchPane::NoMatches
            } else {
                SearchPane::Results
            },
    {
        if self.query.as_str().is_empty() {
            SearchPane::Prompt
        } else if self.searching {
            SearchPane::Searching
        } else if self.results.len() == 0 {
            SearchPane::NoMatches
        } else {
            SearchPane::Results
        }
    }

    /// The line under "No matches found": `for` and the quoted query.
    pub fn no_matches_detail(&self) -> (r: String)
        ensures
            r@ == "for "@ + crate::text::spec_debug_str(self.query@),
    {
        let mut r = "for ".to_owned();
        let quoted = crate::text::debug_str(self.query.as_str());
        crate::text::push_str(&mut r, quoted.as_str());
        r
    }
}

} // verus!
