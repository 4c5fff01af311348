use vstd::prelude::*;

verus! {

/// `path` lies inside the directory `dir`: it starts with `dir` followed by `/`.
pub open spec fn within_dir(path: Seq<char>, dir: Seq<char>) -> bool {
    dir.len() < path.len() && path.take(dir.len() as int) == dir && path[dir.len() as int] == '/'
}

/// Whether `path` lies inside the directory `dir`.
pub fn is_path_within_dir(path: &str, dir: &str) -> (b: bool)
    ensures
        b == within_dir(path@, dir@),
{
    let p = crate::text::to_chars(path);
    let d = crate::text::to_chars(dir);
    if d.len() >= p.len() {
        return false;
    }
    let mut i: usize = 0;
    while i < d.len()
        invariant
            p@ == path@,
            d@ == dir@,
            d@.len() < p@.len(),
            i <= d@.len(),
            forall|k: int| 0 <= k < i ==> p@[k] == d@[k],
        decreases d@.len() - i,
    {
        if p[i] != d[i] {
            proof {
                assert(p@.take(d@.len() as int)[i as int] != d@[i as int]);
            }
            return false;
        }
        i = i + 1;
    }
    proof {
        assert(p@.take(d@.len() as int) =~= d@);
    }
    p[d.len()] == '/'
}

/// Whether `v` holds a string equal to `s`.
pub fn contains_string(v: &Vec<String>, s: &String) -> (b: bool)
    ensures
        b == crate::git::cli::string_views(v@).contains(s@),
{
    let mut i: usize = 0;
    while i < v.len()
        invariant
            i <= v@.len(),
            forall|k: int| 0 <= k < i ==> v@[k]@ != s@,
        decreases v@.len() - i,
    {
        if v[i] == *s {
            proof {
                assert(crate::git::cli::string_views(v@)[i as int] == s@);
            }
            return true;
        }
        i = i + 1;
    }
    proof {
        if crate::git::cli::string_views(v@).contains(s@) {
            let k = choose|k: int| 0 <= k < v@.len() && crate::git::cli::string_views(v@)[k] == s@;
            assert(v@[k]@ == s@);
        }
    }
    false
}

} // verus!

verus! {

/// What a sidebar row stands for: the repository root, a directory or a file, by path.
#[derive(Debug, Clone)]
pub enum SidebarTarget {
    Root,
    Dir(String),
    File(String),
}

/// A sidebar target by its values.
pub enum TargetView {
    Root,
    Dir(Seq<char>),
    File(Seq<char>),
}

impl View for SidebarTarget {
    type V = TargetView;

    open spec fn view(&self) -> TargetView {
        match self {
            SidebarTarget::Root => TargetView::Root,
            SidebarTarget::Dir(p) => TargetView::Dir(p@),
            SidebarTarget::File(p) => TargetView::File(p@),
        }
    }
}

/// The values of a list of targets.
pub open spec fn target_views(v: Seq<SidebarTarget>) -> Seq<TargetView> {
    v.map_values(|t: SidebarTarget| t@)
}

/// Whether two targets are the same.
pub fn same_target(a: &SidebarTarget, b: &SidebarTarget) -> (r: bool)
    ensures
        r == (a@ == b@),
{
    match (a, b) {
        (SidebarTarget::Root, SidebarTarget::Root) => true,
        (SidebarTarget::Dir(x), SidebarTarget::Dir(y)) => *x == *y,
        (SidebarTarget::File(x), SidebarTarget::File(y)) => *x == *y,
        _ => false,
    }
}

/// A copy of a target.
pub fn copy_target(t: &SidebarTarget) -> (r: SidebarTarget)
    ensures
        r@ == t@,
{
    match t {
        SidebarTarget::Root => SidebarTarget::Root,
        SidebarTarget::Dir(p) => SidebarTarget::Dir(p.clone()),
        SidebarTarget::File(p) => SidebarTarget::File(p.clone()),
    }
}

/// A set of sidebar targets (the explicit selection).
pub struct TargetSet {
    items: Vec<SidebarTarget>,
}

impl View for TargetSet {
    type V = Set<TargetView>;

    closed spec fn view(&self) -> Set<TargetView> {
        target_views(self.items@).to_set()
    }
}

impl TargetSet {
    #[verifier::type_invariant]
    closed spec fn distinct(self) -> bool {
        target_views(self.items@).no_duplicates()
    }

    /// The empty set.
    pub fn new() -> (r: Self)
        ensures
            r@ == Set::<TargetView>::empty(),
    {
        let r = TargetSet { items: Vec::new() };
        proof {
            assert(r@ =~= Set::<TargetView>::empty());
        }
        r
    }

    /// Whether `t` is in the set.
    pub fn contains(&self, t: &SidebarTarget) -> (b: bool)
        ensures
            b == self@.contains(t@),
    {
        let mut i: usize = 0;
        while i < self.items.len()
            invariant
                i <= self.items@.len(),
                forall|k: int| 0 <= k < i ==> self.items@[k]@ != t@,
            decreases self.items@.len() - i,
        {
            if same_target(&self.items[i], t) {
                proof {
                    assert(target_views(self.items@)[i as int] == t@);
                }
                return true;
            }
            i = i + 1;
        }
        proof {
            if self@.contains(t@) {
                let k = choose|k: int| 0 <= k < self.items@.len() && target_views(self.items@)[k] == t@;
                assert(self.items@[k]@ == t@);
            }
        }
        false
    }

    /// Adds `t`.
    pub fn insert(&mut self, t: SidebarTarget)
        ensures
            final(self)@ == old(self)@.insert(t@),
    {
        proof {
            use_type_invariant(&*self);
        }
        if !self.contains(&t) {
            let ghost before = target_views(self.items@);
            let ghost tv = t@;
            let mut v: Vec<SidebarTarget> = Vec::new();
            std::mem::swap(&mut v, &mut self.items);
            v.push(t);
            proof {
                assert(target_views(v@) =~= before.push(tv));
                assert(!before.contains(tv)) by {
                    if before.contains(tv) {
                        let k = choose|k: int| 0 <= k < before.len() && before[k] == tv;
                        assert(target_views(old(self).items@)[k] == tv);
                    }
                }
                assert forall|a: int, b: int| 0 <= a < v@.len() && 0 <= b < v@.len() && a != b implies target_views(v@)[a]
                    != target_views(v@)[b] by {
                    if a < before.len() && b < before.len() {
                        assert(target_views(v@)[a] == before[a] && target_views(v@)[b] == before[b]);
                    } else if a < before.len() {
                        assert(target_views(v@)[a] == before[a]);
                    } else if b < before.len() {
                        assert(target_views(v@)[b] == before[b]);
                    }
                }
            }
            self.items = v;
            proof {
                assert(target_views(self.items@) =~= before.push(tv));
                assert forall|a: TargetView| #[trigger] self@.contains(a) == old(self)@.insert(tv).contains(a) by {
                    if target_views(self.items@).contains(a) && a != tv {
                        let k = choose|k: int| 0 <= k < self.items@.len() && target_views(self.items@)[k] == a;
                        assert(before[k] == a);
                    }
                    if before.contains(a) {
                        let k = choose|k: int| 0 <= k < before.len() && before[k] == a;
                        assert(target_views(self.items@)[k] == a);
                    }
                    if a == tv {
                        assert(target_views(self.items@)[before.len() as int] == a);
                    }
                }
                assert(self@ =~= old(self)@.insert(tv));
            }
        } else {
            proof {
                assert(self@ =~= old(self)@.insert(t@));
            }
        }
    }

    /// Empties the set.
    pub fn clear(&mut self)
        ensures
            final(self)@ == Set::<TargetView>::empty(),
    {
        self.items = Vec::new();
        proof {
            assert(self@ =~= Set::<TargetView>::empty());
        }
    }

    /// The number of targets in the set.
    pub fn len(&self) -> (n: usize)
        ensures
            n == self@.len(),
    {
        proof {
            use_type_invariant(self);
            target_views(self.items@).unique_seq_to_set();
        }
        self.items.len()
    }

    /// Whether the set is empty.
    pub fn is_empty(&self) -> (b: bool)
        ensures
            b == (self@.len() == 0),
    {
        self.len() == 0
    }

    /// Keeps only the targets that occur in `keep`.
    pub fn retain_in(&mut self, keep: &Vec<SidebarTarget>)
        ensures
            final(self)@ == old(self)@.filter(|t: TargetView| target_views(keep@).contains(t)),
    {
        proof {
            use_type_invariant(&*self);
        }
        let ghost olds = target_views(self.items@);
        let mut out: Vec<SidebarTarget> = Vec::new();
        let mut i: usize = 0;
        while i < self.items.len()
            invariant
                olds == target_views(self.items@),
                olds.no_duplicates(),
                i <= self.items@.len(),
                target_views(out@) == olds.take(i as int).filter(|t: TargetView| target_views(keep@).contains(t)),
            decreases self.items@.len() - i,
        {
            let t = &self.items[i];
            let mut found = false;
            let mut j: usize = 0;
            while j < keep.len()
                invariant
                    j <= keep@.len(),
                    found == exists|q: int| 0 <= q < j && keep@[q]@ == t@,
                decreases keep@.len() - j,
            {
                if same_target(&keep[j], t) {
                    found = true;
                }
                j = j + 1;
            }
            proof {
                if found {
                    let q = choose|q: int| 0 <= q < keep@.len() && keep@[q]@ == t@;
                    assert(target_views(keep@)[q] == t@);
                }
                if target_views(keep@).contains(t@) {
                    let q = choose|q: int| 0 <= q < keep@.len() && target_views(keep@)[q] == t@;
                    assert(keep@[q]@ == t@);
                }
                reveal(Seq::filter);
                assert(olds.take(i + 1).drop_last() =~= olds.take(i as int));
                assert(olds.take(i + 1).last() == t@);
            }
            let ghost before = target_views(out@);
            if found {
                out.push(copy_target(t));
                proof {
                    assert(target_views(out@) =~= before.push(t@));
                }
            }
            i = i + 1;
        }
        proof {
            assert(olds.take(i as int) =~= olds);
            let f = olds.filter(|t: TargetView| target_views(keep@).contains(t));
            broadcast use vstd::seq_lib::group_filter_ensures;
            assert forall|a: int, b: int| 0 <= a < f.len() && 0 <= b < f.len() && a != b implies f[a] != f[b] by {
                lemma_filter_distinct(olds, |t: TargetView| target_views(keep@).contains(t));
            }
            assert forall|a: TargetView| #[trigger] f.to_set().contains(a) == old(self)@.filter(
                |t: TargetView| target_views(keep@).contains(t),
            ).contains(a) by {
                if f.contains(a) {
                    olds.lemma_filter_contains_rev(|t: TargetView| target_views(keep@).contains(t), a);
                    let k = choose|k: int| 0 <= k < f.len() && f[k] == a;
                    assert(target_views(keep@).contains(f[k]));
                }
                if old(self)@.filter(|t: TargetView| target_views(keep@).contains(t)).contains(a) {
                    let k = choose|k: int| 0 <= k < olds.len() && olds[k] == a;
                    assert(f.contains(olds[k]));
                }
            }
        }
        self.items = out;
        proof {
            assert(self@ =~= old(self)@.filter(|t: TargetView| target_views(keep@).contains(t)));
        }
    }
}

proof fn lemma_filter_distinct(s: Seq<TargetView>, pred: spec_fn(TargetView) -> bool)
    requires
        s.no_duplicates(),
    ensures
        s.filter(pred).no_duplicates(),
    decreases s.len(),
{
    reveal(Seq::filter);
    if s.len() > 0 {
        let t = s.drop_last();
        assert forall|a: int, b: int| 0 <= a < t.len() && 0 <= b < t.len() && a != b implies t[a] != t[b] by {
            assert(t[a] == s[a] && t[b] == s[b]);
        }
        lemma_filter_distinct(t, pred);
        if pred(s.last()) {
            broadcast use vstd::seq_lib::group_filter_ensures;
            assert(!t.filter(pred).contains(s.last())) by {
                if t.filter(pred).contains(s.last()) {
                    t.lemma_filter_contains_rev(pred, s.last());
                    assert(t.contains(s.last()));
                    let q = choose|q: int| 0 <= q < t.len() && t[q] == s.last();
                    assert(s[q] == s[s.len() - 1]);
                }
            }
        }
    }
}

} // verus!

verus! {

use crate::git::diff::{ChangedFile, FileDiff};
use crate::state::{
    ActivePane, BranchPicker, ChangesFocus, Commit, CommitComposer, DiscardConfirm, HistoryFocus,
    ProjectPicker, ProjectSearch, SidebarContextMenu, SidebarTab, StatusMessage, StatusTone, ThemeMode,
};
use crate::tree::{PathSet, SidebarRow};
use crate::config::{push_recent_repo, recent_after, ThemePreference};

/// The state of the application that its sidebar, selection and pickers work on.
pub struct State {
    pub files: Vec<ChangedFile>,
    pub selected_file: Option<usize>,
    pub selected_path: Option<String>,
    pub focused_sidebar_target: Option<SidebarTarget>,
    pub selected_sidebar_targets: TargetSet,
    pub selection_anchor_sidebar_target: Option<SidebarTarget>,
    pub expanded_dirs: PathSet,
    pub tree_root_expanded: bool,
    pub initialized_tree: bool,
    pub cached_rows: Vec<SidebarRow>,
    pub tree_dirty: bool,
    /// The name shown for the repository root.
    pub tree_root_name: String,
    pub project_search: Option<ProjectSearch>,
    pub branch_picker: Option<BranchPicker>,
    pub project_picker: Option<ProjectPicker>,
    pub commit_composer: Option<CommitComposer>,
    pub theme_mode: ThemeMode,
    pub refresh_in_flight: bool,
    pub refresh_queued: bool,
    pub active_diff_request: u64,
    /// The last error to show.
    pub error: Option<String>,
    /// The line to scroll to once the diff of a file has loaded.
    pub pending_diff_jump: Option<PendingDiffJump>,
    /// The repository's path, as shown and remembered.
    pub repo_path: String,
    /// The diff shown for the selected changed file.
    pub current_diff: Option<FileDiff>,
    pub status_message: Option<StatusMessage>,
    pub active_pane: ActivePane,
    pub changes_focus: ChangesFocus,
    /// Whether the Alt key is held.
    pub alt_pressed: bool,
    pub show_actions_panel: bool,
    pub discard_confirm: Option<DiscardConfirm>,
    pub sidebar_context_menu: Option<SidebarContextMenu>,
    pub current_branch: Option<String>,
    /// Recently opened repositories, the latest first.
    pub recent_repos: Vec<String>,
    pub sidebar_tab: SidebarTab,
    pub history_focus: HistoryFocus,
    /// The commits loaded so far, newest first.
    pub commits: Vec<Commit>,
    pub selected_commit: Option<usize>,
    /// The files changed by the selected commit.
    pub commit_files: Vec<ChangedFile>,
    pub commits_loading: bool,
    /// Whether the last page of commits has been loaded.
    pub commits_exhausted: bool,
    pub history_selected_file: Option<usize>,
    pub history_selected_path: Option<String>,
    pub history_diff: Option<FileDiff>,
    pub history_commit_header: Option<Commit>,
}

/// A line of a file's diff to scroll to once that diff has loaded.
#[derive(Debug, Clone)]
pub struct PendingDiffJump {
    pub path: String,
    pub line_number: usize,
}

/// The number of files with staged changes.
pub open spec fn count_staged(files: Seq<ChangedFile>) -> nat
    decreases files.len(),
{
    if files.len() == 0 {
        0
    } else {
        count_staged(files.drop_last()) + if files.last().staged {
            1nat
        } else {
            0nat
        }
    }
}

/// The number of files with unstaged changes.
pub open spec fn count_unstaged(files: Seq<ChangedFile>) -> nat
    decreases files.len(),
{
    if files.len() == 0 {
        0
    } else {
        count_unstaged(files.drop_last()) + if files.last().unstaged {
            1nat
        } else {
            0nat
        }
    }
}

proof fn lemma_count_bounds(files: Seq<ChangedFile>)
    ensures
        count_staged(files) <= files.len(),
        count_unstaged(files) <= files.len(),
    decreases files.len(),
{
    if files.len() > 0 {
        lemma_count_bounds(files.drop_last());
    }
}

/// The target of a row: a file row whose index names no file stands for the root.
pub open spec fn target_for_row(files: Seq<ChangedFile>, row: SidebarRow) -> TargetView {
    match row {
        SidebarRow::Root { .. } => TargetView::Root,
        SidebarRow::Dir { path, .. } => TargetView::Dir(path@),
        SidebarRow::File { index, .. } => if index < files.len() {
            TargetView::File(files[index as int].path@)
        } else {
            TargetView::Root
        },
    }
}

/// The project search filters the sidebar: it is open with a query and has results.
pub open spec fn search_filters(search: Option<ProjectSearch>) -> bool {
    match search {
        Some(s) => s.is_open && s.query@.len() > 0 && s.results@.len() > 0,
        None => false,
    }
}

/// One of the search results is for the file at `path`.
pub open spec fn is_result_path(s: ProjectSearch, path: Seq<char>) -> bool {
    exists|k: int| 0 <= k < s.results@.len() && #[trigger] s.results@[k].file_path@ == path
}

/// One of the search results lies inside the directory `dir`.
pub open spec fn has_result_within(s: ProjectSearch, dir: Seq<char>) -> bool {
    exists|k: int| 0 <= k < s.results@.len() && within_dir(#[trigger] s.results@[k].file_path@, dir)
}

/// Whether a row is shown: every row when the search does not filter; else the root,
/// the directories that contain a result, and the files that are results.
pub open spec fn row_shown(files: Seq<ChangedFile>, search: Option<ProjectSearch>, row: SidebarRow) -> bool {
    if !search_filters(search) {
        true
    } else {
        let s = search->Some_0;
        match row {
            SidebarRow::Root { .. } => true,
            SidebarRow::Dir { path, .. } => has_result_within(s, path@),
            SidebarRow::File { index, .. } => index < files.len() && is_result_path(s, files[index as int].path@),
        }
    }
}

/// The indices of the first `n` rows that are shown, in order.
pub open spec fn shown_indices(
    rows: Seq<SidebarRow>,
    files: Seq<ChangedFile>,
    search: Option<ProjectSearch>,
    n: int,
) -> Seq<int>
    decreases n,
{
    if n <= 0 {
        Seq::empty()
    } else if row_shown(files, search, rows[n - 1]) {
        shown_indices(rows, files, search, n - 1).push(n - 1)
    } else {
        shown_indices(rows, files, search, n - 1)
    }
}

impl State {
    /// The state the application starts in for the repository at `repo_path`, shown as
    /// `tree_root_name`: nothing loaded yet, a load of the changed files under way, the
    /// theme from `theme`, and `repo_path` moved to the front of `recent_repos`.
    pub fn boot(
        repo_path: String,
        tree_root_name: String,
        theme: ThemePreference,
        recent_repos: Vec<String>,
    ) -> (s: State)
        ensures
            s.repo_path@ == repo_path@,
            s.tree_root_name@ == tree_root_name@,
            s.theme_mode == (match theme {
                ThemePreference::Light => ThemeMode::Light,
                _ => ThemeMode::Dark,
            }),
            string_views(s.recent_repos@) == recent_after(string_views(recent_repos@), repo_path@),
            s.files@.len() == 0,
            s.selected_file is None,
            s.selected_path is None,
            s.focused_sidebar_target is None,
            s.selected_sidebar_targets@ == Set::<TargetView>::empty(),
            s.selection_anchor_sidebar_target is None,
            s.expanded_dirs@ == Set::<Seq<char>>::empty(),
            s.tree_root_expanded,
            !s.initialized_tree,
            s.cached_rows@.len() == 0,
            s.tree_dirty,
            s.project_search is None,
            s.branch_picker is None,
            s.project_picker is None,
            s.commit_composer is None,
            s.refresh_in_flight,
            !s.refresh_queued,
            s.active_diff_request == 0,
            s.error is None,
            s.pending_diff_jump is None,
            s.current_diff is None,
            s.status_message is None,
            s.active_pane == ActivePane::Sidebar,
            s.changes_focus == ChangesFocus::FileList,
            !s.alt_pressed,
            !s.show_actions_panel,
            s.discard_confirm is None,
            s.sidebar_context_menu is None,
            s.current_branch is None,
            s.sidebar_tab == SidebarTab::Changes,
            s.history_focus == HistoryFocus::CommitList,
            s.commits@.len() == 0,
            s.selected_commit is None,
            s.commit_files@.len() == 0,
            !s.commits_loading,
            !s.commits_exhausted,
            s.history_selected_file is None,
            s.history_selected_path is None,
            s.history_diff is None,
            s.history_commit_header is None,
    {
        let mut recent = recent_repos;
        push_recent_repo(&mut recent, repo_path.as_str());
        State {
            files: Vec::new(),
            selected_file: None,
            selected_path: None,
            focused_sidebar_target: None,
            selected_sidebar_targets: TargetSet::new(),
            selection_anchor_sidebar_target: None,
            expanded_dirs: PathSet::new(),
            tree_root_expanded: true,
            initialized_tree: false,
            cached_rows: Vec::new(),
            tree_dirty: true,
            tree_root_name,
            project_search: None,
            branch_picker: None,
            project_picker: None,
            commit_composer: None,
            theme_mode: ThemeMode::from_preference(theme),
            refresh_in_flight: true,
            refresh_queued: false,
            active_diff_request: 0,
            error: None,
            pending_diff_jump: None,
            repo_path,
            current_diff: None,
            status_message: None,
            active_pane: ActivePane::Sidebar,
            changes_focus: ChangesFocus::FileList,
            alt_pressed: false,
            show_actions_panel: false,
            discard_confirm: None,
            sidebar_context_menu: None,
            current_branch: None,
            recent_repos: recent,
            sidebar_tab: SidebarTab::Changes,
            history_focus: HistoryFocus::CommitList,
            commits: Vec::new(),
            selected_commit: None,
            commit_files: Vec::new(),
            commits_loading: false,
            commits_exhausted: false,
            history_selected_file: None,
            history_selected_path: None,
            history_diff: None,
            history_commit_header: None,
        }
    }

}

impl State {
    /// The rows of the sidebar that are visible: all of them, or, while the project
    /// search filters, those that lead to a result (see `row_shown`).
    pub open spec fn visible_indices(&self) -> Seq<int> {
        shown_indices(self.cached_rows@, self.files@, self.project_search, self.cached_rows@.len() as int)
    }

    /// Whether the project search is open.
    pub fn is_search_open(&self) -> (b: bool)
        ensures
            b == (self.project_search is Some && self.project_search->Some_0.is_open),
    {
        match &self.project_search {
            Some(s) => s.is_open,
            None => false,
        }
    }

    /// Whether the branch picker is open.
    pub fn is_branch_picker_open(&self) -> (b: bool)
        ensures
            b == self.branch_picker is Some,
    {
        self.branch_picker.is_some()
    }

    /// Whether the project picker is open.
    pub fn is_project_picker_open(&self) -> (b: bool)
        ensures
            b == self.project_picker is Some,
    {
        self.project_picker.is_some()
    }

    /// The number of files with staged changes.
    pub fn staged_file_count(&self) -> (n: usize)
        ensures
            n == count_staged(self.files@),
    {
        let mut n: usize = 0;
        let mut i: usize = 0;
        proof {
            assert(self.files@.take(0) =~= Seq::<ChangedFile>::empty());
        }
        while i < self.files.len()
            invariant
                i <= self.files@.len(),
                n == count_staged(self.files@.take(i as int)),
            decreases self.files@.len() - i,
        {
            proof {
                assert(self.files@.take(i + 1).drop_last() =~= self.files@.take(i as int));
                lemma_count_bounds(self.files@.take(i + 1));
            }
            if self.files[i].is_staged() {
                n = n + 1;
            }
            i = i + 1;
        }
        proof {
            assert(self.files@.take(i as int) =~= self.files@);
        }
        n
    }

    /// The number of files with unstaged changes.
    pub fn unstaged_file_count(&self) -> (n: usize)
        ensures
            n == count_unstaged(self.files@),
    {
        let mut n: usize = 0;
        let mut i: usize = 0;
        proof {
            assert(self.files@.take(0) =~= Seq::<ChangedFile>::empty());
        }
        while i < self.files.len()
            invariant
                i <= self.files@.len(),
                n == count_unstaged(self.files@.take(i as int)),
            decreases self.files@.len() - i,
        {
            proof {
                assert(self.files@.take(i + 1).drop_last() =~= self.files@.take(i as int));
                lemma_count_bounds(self.files@.take(i + 1));
            }
            if self.files[i].is_unstaged() {
                n = n + 1;
            }
            i = i + 1;
        }
        proof {
            assert(self.files@.take(i as int) =~= self.files@);
        }
        n
    }

    /// The number of explicitly selected targets.
    pub fn selected_file_count(&self) -> (n: usize)
        ensures
            n == self.selected_sidebar_targets@.len(),
    {
        self.selected_sidebar_targets.len()
    }

    /// Whether some target is explicitly selected.
    pub fn has_explicit_selection(&self) -> (b: bool)
        ensures
            b == (self.selected_sidebar_targets@.len() > 0),
    {
        !self.selected_sidebar_targets.is_empty()
    }

    /// Whether `target` is explicitly selected.
    pub fn is_sidebar_target_selected(&self, target: &SidebarTarget) -> (b: bool)
        ensures
            b == self.selected_sidebar_targets@.contains(target@),
    {
        self.selected_sidebar_targets.contains(target)
    }

    /// Drops the explicit selection and its anchor.
    pub fn clear_explicit_selection(&mut self)
        ensures
            final(self).selected_sidebar_targets@ == Set::<TargetView>::empty(),
            *final(self) == (State {
                selected_sidebar_targets: final(self).selected_sidebar_targets,
                selection_anchor_sidebar_target: None,
                ..*old(self)
            }),
    {
        self.selected_sidebar_targets.clear();
        self.selection_anchor_sidebar_target = None;
    }

    /// The target of a row (see `target_for_row`).
    pub fn sidebar_target_for_row(&self, row: &SidebarRow) -> (t: SidebarTarget)
        ensures
            t@ == target_for_row(self.files@, *row),
    {
        match row {
            SidebarRow::Root { .. } => SidebarTarget::Root,
            SidebarRow::Dir { path, .. } => SidebarTarget::Dir(path.clone()),
            SidebarRow::File { index, .. } => {
                if *index < self.files.len() {
                    SidebarTarget::File(self.files[*index].path.clone())
                } else {
                    SidebarTarget::Root
                }
            },
        }
    }

    fn search_filters_exec(&self) -> (b: bool)
        ensures
            b == search_filters(self.project_search),
    {
        match &self.project_search {
            Some(s) => s.is_open && !s.query.as_str().is_empty() && s.results.len() > 0,
            None => false,
        }
    }

    fn row_is_shown(&self, row: &SidebarRow) -> (b: bool)
        ensures
            b == row_shown(self.files@, self.project_search, *row),
    {
        if !self.search_filters_exec() {
            return true;
        }
        let s = match &self.project_search {
            Some(s) => s,
            None => {
                return true;
            },
        };
        match row {
            SidebarRow::Root { .. } => true,
            SidebarRow::Dir { name, path, depth, expanded } => {
                let mut i: usize = 0;
                while i < s.results.len()
                    invariant
                        self.project_search == Some(*s),
                        search_filters(self.project_search),
                        *row == (SidebarRow::Dir { name: *name, path: *path, depth: *depth, expanded: *expanded }),
                        i <= s.results@.len(),
                        forall|k: int| 0 <= k < i ==> !within_dir(#[trigger] s.results@[k].file_path@, path@),
                    decreases s.results@.len() - i,
                {
                    if is_path_within_dir(s.results[i].file_path.as_str(), path.as_str()) {
                        proof {
                            assert(within_dir(s.results@[i as int].file_path@, path@));
                        }
                        return true;
                    }
                    i = i + 1;
                }
                false
            },
            SidebarRow::File { index, .. } => {
                if *index < self.files.len() {
                    s.is_matching_path(&self.files[*index].path)
                } else {
                    false
                }
            },
        }
    }

    /// The visible rows of the sidebar, in order (see `visible_indices`).
    pub fn visible_cached_rows(&self) -> (r: Vec<&SidebarRow>)
        ensures
            r@.len() == self.visible_indices().len(),
            forall|k: int| 0 <= k < r@.len() ==> *r@[k] == self.cached_rows@[#[trigger] self.visible_indices()[k]],
    {
        let mut r: Vec<&SidebarRow> = Vec::new();
        let mut i: usize = 0;
        while i < self.cached_rows.len()
            invariant
                i <= self.cached_rows@.len(),
                r@.len() == shown_indices(self.cached_rows@, self.files@, self.project_search, i as int).len(),
                forall|k: int|
                    0 <= k < r@.len() ==> *r@[k] == self.cached_rows@[#[trigger] shown_indices(
                        self.cached_rows@,
                        self.files@,
                        self.project_search,
                        i as int,
                    )[k]],
            decreases self.cached_rows@.len() - i,
        {
            let row = &self.cached_rows[i];
            if self.row_is_shown(row) {
                r.push(row);
            }
            i = i + 1;
        }
        r
    }
}

} // verus!

verus! {

use crate::git::cli::string_views;

/// The targets of the visible rows, in order.
pub open spec fn visible_targets(st: State) -> Seq<TargetView> {
    st.visible_indices().map_values(|i: int| target_for_row(st.files@, st.cached_rows@[i]))
}

/// The targets that actions apply to: the visible selected targets when there is an
/// explicit selection, else the focused target, if any.
pub open spec fn targeted(st: State) -> Seq<TargetView> {
    if st.selected_sidebar_targets@.len() > 0 {
        visible_targets(st).filter(|t: TargetView| st.selected_sidebar_targets@.contains(t))
    } else {
        match st.focused_sidebar_target {
            Some(t) => seq![t@],
            None => Seq::empty(),
        }
    }
}

/// The paths of the first `n` files that lie inside the directory `dir`.
pub open spec fn paths_within(files: Seq<ChangedFile>, dir: Seq<char>, n: int) -> Seq<Seq<char>>
    decreases n,
{
    if n <= 0 {
        Seq::empty()
    } else if within_dir(files[n - 1].path@, dir) {
        paths_within(files, dir, n - 1).push(files[n - 1].path@)
    } else {
        paths_within(files, dir, n - 1)
    }
}

/// Some file is at `path`.
pub open spec fn has_file(files: Seq<ChangedFile>, path: Seq<char>) -> bool {
    exists|k: int| 0 <= k < files.len() && #[trigger] files[k].path@ == path
}

/// The paths of the files a target covers: every file for the root, the files inside a
/// directory, the file itself when it is one of the files.
pub open spec fn paths_for_target(files: Seq<ChangedFile>, t: TargetView) -> Seq<Seq<char>> {
    match t {
        TargetView::Root => files.map_values(|f: ChangedFile| f.path@),
        TargetView::Dir(p) => paths_within(files, p, files.len() as int),
        TargetView::File(p) => if has_file(files, p) {
            seq![p]
        } else {
            Seq::empty()
        },
    }
}

/// The paths covered by the targets, target after target.
pub open spec fn paths_for_targets(files: Seq<ChangedFile>, ts: Seq<TargetView>) -> Seq<Seq<char>>
    decreases ts.len(),
{
    if ts.len() == 0 {
        Seq::empty()
    } else {
        paths_for_targets(files, ts.drop_last()) + paths_for_target(files, ts.last())
    }
}

/// `s` with every repeated element after its first occurrence removed.
pub open spec fn dedup_first(s: Seq<Seq<char>>) -> Seq<Seq<char>>
    decreases s.len(),
{
    if s.len() == 0 {
        Seq::empty()
    } else if s.drop_last().contains(s.last()) {
        dedup_first(s.drop_last())
    } else {
        dedup_first(s.drop_last()).push(s.last())
    }
}

proof fn lemma_dedup_first(s: Seq<Seq<char>>)
    ensures
        forall|x: Seq<char>| #[trigger] dedup_first(s).contains(x) <==> s.contains(x),
        dedup_first(s).no_duplicates(),
    decreases s.len(),
{
    if s.len() > 0 {
        let t = s.drop_last();
        lemma_dedup_first(t);
        assert forall|x: Seq<char>| s.contains(x) <==> (t.contains(x) || x == s.last()) by {
            if s.contains(x) {
                let k = choose|k: int| 0 <= k < s.len() && s[k] == x;
                if k < s.len() - 1 {
                    assert(t[k] == x);
                }
            }
            if t.contains(x) {
                let k = choose|k: int| 0 <= k < t.len() && t[k] == x;
                assert(s[k] == x);
            }
            if x == s.last() {
                assert(s[s.len() - 1] == x);
            }
        }
        let d = dedup_first(t);
        if !t.contains(s.last()) {
            let r = d.push(s.last());
            assert forall|x: Seq<char>| #[trigger] r.contains(x) <==> (d.contains(x) || x == s.last()) by {
                if r.contains(x) {
                    let k = choose|k: int| 0 <= k < r.len() && r[k] == x;
                    if k < d.len() {
                        assert(d[k] == x);
                    }
                }
                if d.contains(x) {
                    let k = choose|k: int| 0 <= k < d.len() && d[k] == x;
                    assert(r[k] == x);
                }
                if x == s.last() {
                    assert(r[d.len() as int] == x);
                }
            }
            assert forall|a: int, b: int| 0 <= a < r.len() && 0 <= b < r.len() && a != b implies r[a] != r[b] by {
                if a < d.len() && b < d.len() {
                } else if a < d.len() {
                    assert(d.contains(d[a]));
                } else if b < d.len() {
                    assert(d.contains(d[b]));
                }
            }
        }
    }
}

/// The first file at `path` has staged changes.
pub open spec fn path_staged(files: Seq<ChangedFile>, path: Seq<char>) -> bool {
    exists|k: int|
        0 <= k < files.len() && #[trigger] files[k].path@ == path && files[k].staged && forall|j: int|
            0 <= j < k ==> files[j].path@ != path
}

impl State {
    /// The targets of the visible rows, in order.
    pub fn visible_sidebar_targets(&self) -> (r: Vec<SidebarTarget>)
        ensures
            target_views(r@) == visible_targets(*self),
    {
        let rows = self.visible_cached_rows();
        let mut r: Vec<SidebarTarget> = Vec::new();
        let mut i: usize = 0;
        while i < rows.len()
            invariant
                rows@.len() == self.visible_indices().len(),
                forall|k: int| 0 <= k < rows@.len() ==> *rows@[k] == self.cached_rows@[#[trigger] self.visible_indices()[k]],
                i <= rows@.len(),
                target_views(r@) == visible_targets(*self).take(i as int),
            decreases rows@.len() - i,
        {
            let t = self.sidebar_target_for_row(rows[i]);
            let ghost before = target_views(r@);
            let ghost tv = t@;
            r.push(t);
            proof {
                assert(*rows@[i as int] == self.cached_rows@[self.visible_indices()[i as int]]);
                assert(target_views(r@) =~= before.push(tv));
                assert(visible_targets(*self)[i as int] == tv);
                assert(target_views(r@) =~= visible_targets(*self).take(i + 1));
            }
            i = i + 1;
        }
        proof {
            assert(visible_targets(*self).take(i as int) =~= visible_targets(*self));
        }
        r
    }

    /// The position of the focused target among the visible rows, if it is visible.
    pub fn focused_sidebar_row_index(&self) -> (r: Option<usize>)
        ensures
            match r {
                Some(k) => self.focused_sidebar_target is Some && k < visible_targets(*self).len()
                    && visible_targets(*self)[k as int] == self.focused_sidebar_target->Some_0@ && forall|j: int|
                    0 <= j < k ==> visible_targets(*self)[j] != self.focused_sidebar_target->Some_0@,
                None => self.focused_sidebar_target is None || forall|j: int|
                    0 <= j < visible_targets(*self).len() ==> visible_targets(*self)[j]
                        != self.focused_sidebar_target->Some_0@,
            },
    {
        let target = match &self.focused_sidebar_target {
            Some(t) => t,
            None => {
                return None;
            },
        };
        let ts = self.visible_sidebar_targets();
        let mut i: usize = 0;
        while i < ts.len()
            invariant
                target_views(ts@) == visible_targets(*self),
                self.focused_sidebar_target == Some(*target),
                i <= ts@.len(),
                forall|j: int| 0 <= j < i ==> visible_targets(*self)[j] != target@,
            decreases ts@.len() - i,
        {
            if same_target(&ts[i], target) {
                proof {
                    assert(target_views(ts@)[i as int] == target@);
                }
                return Some(i);
            }
            proof {
                assert(target_views(ts@)[i as int] == ts@[i as int]@);
            }
            i = i + 1;
        }
        None
    }

    /// Keeps the selection, its anchor and the focus on visible targets only.
    pub fn retain_sidebar_selection(&mut self)
        ensures
            final(self).selected_sidebar_targets@ == old(self).selected_sidebar_targets@.filter(
                |t: TargetView| visible_targets(*old(self)).contains(t),
            ),
            final(self).selection_anchor_sidebar_target == match old(self).selection_anchor_sidebar_target {
                Some(a) => if visible_targets(*old(self)).contains(a@) {
                    Some(a)
                } else {
                    None
                },
                None => None,
            },
            final(self).focused_sidebar_target == match old(self).focused_sidebar_target {
                Some(a) => if visible_targets(*old(self)).contains(a@) {
                    Some(a)
                } else {
                    None
                },
                None => None,
            },
            final(self).files == old(self).files,
            final(self).cached_rows == old(self).cached_rows,
            final(self).project_search == old(self).project_search,
            final(self).expanded_dirs == old(self).expanded_dirs,
            final(self).tree_root_expanded == old(self).tree_root_expanded,
            final(self).tree_dirty == old(self).tree_dirty,
            final(self).selected_path == old(self).selected_path,
            final(self).selected_file == old(self).selected_file,
            final(self).tree_root_name == old(self).tree_root_name,
            *final(self) == (State {
                selected_sidebar_targets: final(self).selected_sidebar_targets,
                selection_anchor_sidebar_target: final(self).selection_anchor_sidebar_target,
                focused_sidebar_target: final(self).focused_sidebar_target,
                ..*old(self)
            }),
    {
        let visible = self.visible_sidebar_targets();
        self.selected_sidebar_targets.retain_in(&visible);
        let anchor_visible = match &self.selection_anchor_sidebar_target {
            Some(a) => contains_target(&visible, a),
            None => true,
        };
        if !anchor_visible {
            self.selection_anchor_sidebar_target = None;
        }
        let focus_visible = match &self.focused_sidebar_target {
            Some(a) => contains_target(&visible, a),
            None => true,
        };
        if !focus_visible {
            self.focused_sidebar_target = None;
        }
    }

    /// Focuses the selected file, or else the root when there are rows, unless something
    /// is focused already.
    pub fn ensure_sidebar_focus(&mut self)
        ensures
            focus_ensured(*old(self), final(self).focused_sidebar_target),
            *final(self) == (State { focused_sidebar_target: final(self).focused_sidebar_target, ..*old(self) }),
    {
        if self.focused_sidebar_target.is_some() {
            return;
        }
        self.focused_sidebar_target = match &self.selected_path {
            Some(p) => Some(SidebarTarget::File(p.clone())),
            None => if self.cached_rows.len() > 0 {
                Some(SidebarTarget::Root)
            } else {
                None
            },
        };
    }

    /// The targets that actions apply to (see `targeted`).
    pub fn targeted_sidebar_targets(&self) -> (r: Vec<SidebarTarget>)
        ensures
            target_views(r@) == targeted(*self),
    {
        if self.has_explicit_selection() {
            let visible = self.visible_sidebar_targets();
            let ghost vs = target_views(visible@);
            let mut r: Vec<SidebarTarget> = Vec::new();
            let mut i: usize = 0;
            while i < visible.len()
                invariant
                    vs == target_views(visible@),
                    i <= visible@.len(),
                    target_views(r@) == vs.take(i as int).filter(|t: TargetView| self.selected_sidebar_targets@.contains(t)),
                decreases visible@.len() - i,
            {
                let ghost before = target_views(r@);
                proof {
                    reveal(Seq::filter);
                    assert(vs.take(i + 1).drop_last() =~= vs.take(i as int));
                    assert(vs.take(i + 1).last() == visible@[i as int]@);
                }
                if self.selected_sidebar_targets.contains(&visible[i]) {
                    r.push(copy_target(&visible[i]));
                    proof {
                        assert(target_views(r@) =~= before.push(visible@[i as int]@));
                    }
                }
                i = i + 1;
            }
            proof {
                assert(vs.take(i as int) =~= vs);
            }
            r
        } else {
            let mut r: Vec<SidebarTarget> = Vec::new();
            match &self.focused_sidebar_target {
                Some(t) => {
                    r.push(copy_target(t));
                    proof {
                        assert(target_views(r@) =~= seq![t@]);
                    }
                },
                None => {
                    proof {
                        assert(target_views(r@) =~= Seq::<TargetView>::empty());
                    }
                },
            }
            r
        }
    }

    /// The paths of the files that `target` covers (see `paths_for_target`).
    pub fn file_paths_for_sidebar_target(&self, target: &SidebarTarget) -> (r: Vec<String>)
        ensures
            string_views(r@) == paths_for_target(self.files@, target@),
    {
        let mut r: Vec<String> = Vec::new();
        match target {
            SidebarTarget::Root => {
                let mut i: usize = 0;
                while i < self.files.len()
                    invariant
                        i <= self.files@.len(),
                        string_views(r@) == self.files@.take(i as int).map_values(|f: ChangedFile| f.path@),
                    decreases self.files@.len() - i,
                {
                    let ghost before = string_views(r@);
                    r.push(self.files[i].path.clone());
                    proof {
                        assert(string_views(r@) =~= before.push(self.files@[i as int].path@));
                        assert(self.files@.take(i + 1) =~= self.files@.take(i as int).push(self.files@[i as int]));
                        assert(string_views(r@) =~= self.files@.take(i + 1).map_values(|f: ChangedFile| f.path@));
                    }
                    i = i + 1;
                }
                proof {
                    assert(self.files@.take(i as int) =~= self.files@);
                }
            },
            SidebarTarget::Dir(dir) => {
                let mut i: usize = 0;
                while i < self.files.len()
                    invariant
                        *target == SidebarTarget::Dir(*dir),
                        i <= self.files@.len(),
                        string_views(r@) == paths_within(self.files@, dir@, i as int),
                    decreases self.files@.len() - i,
                {
                    let ghost before = string_views(r@);
                    if is_path_within_dir(self.files[i].path.as_str(), dir.as_str()) {
                        r.push(self.files[i].path.clone());
                        proof {
                            assert(string_views(r@) =~= before.push(self.files@[i as int].path@));
                        }
                    }
                    i = i + 1;
                }
            },
            SidebarTarget::File(path) => {
                let mut found = false;
                let mut i: usize = 0;
                while i < self.files.len()
                    invariant
                        i <= self.files@.len(),
                        found == exists|k: int| 0 <= k < i && #[trigger] self.files@[k].path@ == path@,
                    decreases self.files@.len() - i,
                {
                    if self.files[i].path == *path {
                        found = true;
                    }
                    i = i + 1;
                }
                if found {
                    r.push(path.clone());
                    proof {
                        assert(string_views(r@) =~= seq![path@]);
                    }
                } else {
                    proof {
                        assert(string_views(r@) =~= Seq::<Seq<char>>::empty());
                    }
                }
            },
        }
        r
    }

    /// The paths of the files that the targeted targets cover, each once, in the order
    /// of first appearance.
    pub fn targeted_file_paths(&self) -> (r: Vec<String>)
        ensures
            string_views(r@) == dedup_first(paths_for_targets(self.files@, targeted(*self))),
    {
        let targets = self.targeted_sidebar_targets();
        let ghost ts = target_views(targets@);
        let mut r: Vec<String> = Vec::new();
        let mut i: usize = 0;
        proof {
            assert(ts.take(0) =~= Seq::<TargetView>::empty());
        }
        while i < targets.len()
            invariant
                ts == target_views(targets@),
                ts == targeted(*self),
                i <= targets@.len(),
                string_views(r@) == dedup_first(paths_for_targets(self.files@, ts.take(i as int))),
            decreases targets@.len() - i,
        {
            let paths = self.file_paths_for_sidebar_target(&targets[i]);
            let ghost base = paths_for_targets(self.files@, ts.take(i as int));
            let ghost ps = string_views(paths@);
            proof {
                assert(ts.take(i + 1).drop_last() =~= ts.take(i as int));
                assert(ts.take(i + 1).last() == targets@[i as int]@);
                assert(paths_for_targets(self.files@, ts.take(i + 1)) == base + ps);
                assert(base + ps.take(0) =~= base);
            }
            let mut j: usize = 0;
            while j < paths.len()
                invariant
                    ps == string_views(paths@),
                    j <= paths@.len(),
                    string_views(r@) == dedup_first(base + ps.take(j as int)),
                decreases paths@.len() - j,
            {
                let ghost cur = base + ps.take(j as int);
                proof {
                    lemma_dedup_first(cur);
                    assert((base + ps.take(j + 1)).drop_last() =~= cur);
                    assert((base + ps.take(j + 1)).last() == ps[j as int]);
                }
                let ghost before = string_views(r@);
                if !contains_string(&r, &paths[j]) {
                    r.push(paths[j].clone());
                    proof {
                        assert(string_views(r@) =~= before.push(ps[j as int]));
                    }
                }
                j = j + 1;
            }
            proof {
                assert(ps.take(j as int) =~= ps);
            }
            i = i + 1;
        }
        proof {
            assert(ts.take(i as int) =~= ts);
        }
        r
    }

    /// Whether there are paths and the first file at each of them has staged changes.
    pub fn are_all_paths_staged(&self, paths: &Vec<String>) -> (b: bool)
        ensures
            b == (paths@.len() > 0 && forall|k: int| 0 <= k < paths@.len() ==> path_staged(self.files@, #[trigger] paths@[k]@)),
    {
        if paths.len() == 0 {
            return false;
        }
        let mut i: usize = 0;
        while i < paths.len()
            invariant
                i <= paths@.len(),
                forall|k: int| 0 <= k < i ==> path_staged(self.files@, #[trigger] paths@[k]@),
            decreases paths@.len() - i,
        {
            let mut j: usize = 0;
            while j < self.files.len() && !(self.files[j].path == paths[i])
                invariant
                    j <= self.files@.len(),
                    i < paths@.len(),
                    forall|q: int| 0 <= q < j ==> self.files@[q].path@ != paths@[i as int]@,
                decreases self.files@.len() - j,
            {
                j = j + 1;
            }
            if j == self.files.len() || !self.files[j].is_staged() {
                proof {
                    if path_staged(self.files@, paths@[i as int]@) {
                        let k = choose|k: int|
                            0 <= k < self.files@.len() && #[trigger] self.files@[k].path@ == paths@[i as int]@
                                && self.files@[k].staged && forall|q: int| 0 <= q < k ==> self.files@[q].path@ != paths@[i as int]@;
                        assert(k == j);
                    }
                }
                return false;
            }
            i = i + 1;
        }
        true
    }

    /// Whether every file that `target` covers has staged changes (and it covers some).
    pub fn sidebar_target_is_fully_staged(&self, target: &SidebarTarget) -> (b: bool)
        ensures
            b == (paths_for_target(self.files@, target@).len() > 0 && forall|k: int|
                0 <= k < paths_for_target(self.files@, target@).len() ==> path_staged(
                    self.files@,
                    #[trigger] paths_for_target(self.files@, target@)[k],
                )),
    {
        let paths = self.file_paths_for_sidebar_target(target);
        let b = self.are_all_paths_staged(&paths);
        proof {
            let pft = paths_for_target(self.files@, target@);
            assert forall|k: int| 0 <= k < pft.len() implies path_staged(self.files@, #[trigger] pft[k]) == path_staged(
                self.files@,
                paths@[k]@,
            ) by {
                assert(pft[k] == string_views(paths@)[k]);
            }
            if b {
                assert forall|k: int| 0 <= k < pft.len() implies path_staged(self.files@, #[trigger] pft[k]) by {
                    assert(pft[k] == string_views(paths@)[k]);
                    assert(path_staged(self.files@, paths@[k]@));
                }
            } else if pft.len() > 0 {
                let k = choose|k: int| 0 <= k < paths@.len() && !path_staged(self.files@, #[trigger] paths@[k]@);
                assert(pft[k] == string_views(paths@)[k]);
            }
        }
        b
    }
}

/// Whether `v` holds a target equal to `t`.
pub fn contains_target(v: &Vec<SidebarTarget>, t: &SidebarTarget) -> (b: bool)
    ensures
        b == target_views(v@).contains(t@),
{
    let mut i: usize = 0;
    while i < v.len()
        invariant
            i <= v@.len(),
            forall|k: int| 0 <= k < i ==> v@[k]@ != t@,
        decreases v@.len() - i,
    {
        if same_target(&v[i], t) {
            proof {
                assert(target_views(v@)[i as int] == t@);
            }
            return true;
        }
        i = i + 1;
    }
    proof {
        if target_views(v@).contains(t@) {
            let k = choose|k: int| 0 <= k < v@.len() && target_views(v@)[k] == t@;
            assert(v@[k]@ == t@);
        }
    }
    false
}

} // verus!

verus! {

use crate::tree::{
    dir_paths, empty_dir, height, model_collapse, model_insert, model_sort, row_views, visible_rows, DirNode,
    RowNode, TreeDir, expand_parent_dirs, parent_paths, file_entries, lemma_collapse_keeps_files,
    lemma_collapse_leaves_no_chain, lemma_insert_keeps_order, lemma_insert_keeps_paths,
    lemma_insert_keeps_simple_names, lemma_sort_keeps_order, lemma_sort_keeps_paths,
    lemma_sort_keeps_simple_names, no_lone_below, paths_below, simple_name, simple_names, well_formed,
    lemma_collapse_keeps_statuses, lemma_insert_keeps_statuses, lemma_rows_show_statuses,
    lemma_sort_keeps_statuses, rows_match, statuses_match,
};
use crate::text::spec_split;

/// The tree of the first `n` files, inserted in order, each under its index.
pub open spec fn insert_all(files: Seq<ChangedFile>, n: int) -> DirNode
    decreases n,
{
    if n <= 0 {
        empty_dir(Seq::empty(), Seq::empty())
    } else {
        model_insert(
            insert_all(files, n - 1),
            spec_split(files[n - 1].path@, '/'),
            Seq::empty(),
            (n - 1) as usize,
            files[n - 1].status,
        )
    }
}

/// Every directory part of the paths of the first `n` files is one non-empty path
/// component.
pub open spec fn components_simple(files: Seq<ChangedFile>, n: int) -> bool {
    forall|i: int, j: int|
        0 <= i < n && 0 <= j < spec_split(files[i].path@, '/').len() - 1 ==> simple_name(
            #[trigger] spec_split(files[i].path@, '/')[j],
        )
}

/// The tree built by inserting files is the root (no name, no path), in name order at
/// every level, with every directory's path its parent's path joined with its name,
/// and, when the directory parts of the paths are non-empty, every directory named by
/// one path component.
pub proof fn lemma_built_tree(files: Seq<ChangedFile>, n: int)
    requires
        0 <= n <= files.len(),
    ensures
        well_formed(insert_all(files, n)),
        paths_below(insert_all(files, n)),
        insert_all(files, n).name == Seq::<char>::empty(),
        insert_all(files, n).path == Seq::<char>::empty(),
        components_simple(files, n) ==> simple_names(insert_all(files, n)),
    decreases n,
{
    if n <= 0 {
        let e = empty_dir(Seq::empty(), Seq::empty());
        assert(well_formed(e));
        assert(paths_below(e));
        assert(simple_names(e));
    } else {
        let d = insert_all(files, n - 1);
        let parts = spec_split(files[n - 1].path@, '/');
        lemma_built_tree(files, n - 1);
        lemma_insert_keeps_order(d, parts, Seq::empty(), (n - 1) as usize, files[n - 1].status);
        lemma_insert_keeps_paths(d, parts, (n - 1) as usize, files[n - 1].status);
        if components_simple(files, n) {
            assert(components_simple(files, n - 1));
            assert forall|j: int| 0 <= j < parts.len() - 1 implies simple_name(#[trigger] parts[j]) by {
                assert(simple_name(spec_split(files[n - 1].path@, '/')[j]));
            }
            lemma_insert_keeps_simple_names(d, parts, Seq::empty(), (n - 1) as usize, files[n - 1].status);
        }
    }
}

/// Collapsing the chains of single-child directories of a tree built by inserting the
/// first `n` files, with or without sorting the files first, leaves no directory below
/// the root that holds a single subdirectory and nothing else, keeps the files directly
/// at the root, and, when the directory parts of the paths are non-empty, keeps every
/// file with its index and full path and every directory's path its parent's path
/// joined with its name.
pub proof fn lemma_collapse_built_tree(files: Seq<ChangedFile>, n: int, sorted: bool)
    requires
        0 <= n <= files.len(),
    ensures
        ({
            let t = if sorted {
                model_sort(insert_all(files, n))
            } else {
                insert_all(files, n)
            };
            &&& well_formed(model_collapse(t))
            &&& no_lone_below(model_collapse(t))
            &&& model_collapse(t).files == t.files
            &&& components_simple(files, n) ==> file_entries(model_collapse(t)) == file_entries(t)
                && paths_below(model_collapse(t))
        }),
{
    let b = insert_all(files, n);
    lemma_built_tree(files, n);
    let t = if sorted {
        model_sort(b)
    } else {
        b
    };
    if sorted {
        lemma_sort_keeps_order(b);
        lemma_sort_keeps_paths(b);
        if components_simple(files, n) {
            lemma_sort_keeps_simple_names(b);
        }
    }
    lemma_collapse_leaves_no_chain(t);
    if components_simple(files, n) {
        lemma_collapse_keeps_files(t);
    }
}

/// Every file of the tree built from the first `n` files carries the status of the
/// changed file it was inserted from, found by its index.
pub proof fn lemma_built_tree_statuses(files: Seq<ChangedFile>, n: int)
    requires
        0 <= n <= files.len(),
        files.len() <= usize::MAX,
    ensures
        statuses_match(insert_all(files, n), files),
    decreases n,
{
    if n > 0 {
        lemma_built_tree_statuses(files, n - 1);
        lemma_insert_keeps_statuses(
            insert_all(files, n - 1),
            spec_split(files[n - 1].path@, '/'),
            Seq::empty(),
            (n - 1) as usize,
            files[n - 1].status,
            files,
        );
    } else {
        assert(statuses_match(empty_dir(Seq::empty(), Seq::empty()), files));
    }
}

/// In the sidebar tree of the changed files, and in the rows shown for it, every file
/// carries the status of the changed file it stands for (`files[index]`). (The files
/// are those of a `Vec`, so their number fits in a `usize`.)
pub proof fn lemma_tree_shows_file_statuses(
    files: Seq<ChangedFile>,
    root_name: Seq<char>,
    root_expanded: bool,
    expanded: Set<Seq<char>>,
)
    requires
        files.len() <= usize::MAX,
    ensures
        statuses_match(model_tree(files), files),
        rows_match(model_rows(model_tree(files), root_name, root_expanded, expanded), files),
{
    let b = insert_all(files, files.len() as int);
    lemma_built_tree_statuses(files, files.len() as int);
    lemma_sort_keeps_statuses(b, files);
    lemma_collapse_keeps_statuses(model_sort(b), files);
    let t = model_tree(files);
    lemma_rows_show_statuses(t, expanded, 1, files);
    let head = seq![RowNode::Root { name: root_name, expanded: root_expanded }];
    let rest = if root_expanded && height(t) <= usize::MAX - 1 {
        visible_rows(t, expanded, 1)
    } else {
        Seq::empty()
    };
    let rows = model_rows(t, root_name, root_expanded, expanded);
    assert(rows == head + rest);
    assert forall|k: int| 0 <= k < rows.len() && (#[trigger] rows[k]) is File implies rows[k]->File_index
        < files.len() && rows[k]->File_status == files[rows[k]->File_index as int].status by {
        if k == 0 {
            assert(rows[k] == head[0]);
        } else {
            assert(rows[k] == rest[k - 1]);
        }
    }
}

/// The sidebar tree of the files: inserted, files sorted, single-child chains collapsed.
pub open spec fn model_tree(files: Seq<ChangedFile>) -> DirNode {
    model_collapse(model_sort(insert_all(files, files.len() as int)))
}

/// The rows of the sidebar: the root, then, when it is expanded, the visible rows of the
/// tree one level deep (a tree too deep to count its levels shows no rows below the
/// root).
pub open spec fn model_rows(
    tree: DirNode,
    root_name: Seq<char>,
    root_expanded: bool,
    expanded: Set<Seq<char>>,
) -> Seq<RowNode> {
    seq![RowNode::Root { name: root_name, expanded: root_expanded }] + if root_expanded && height(tree) <= usize::MAX
        - 1 {
        visible_rows(tree, expanded, 1)
    } else {
        Seq::empty()
    }
}

/// The directories of `all` inside the directory `path`.
pub open spec fn within_list(all: Seq<Seq<char>>, path: Seq<char>, n: int) -> Seq<Seq<char>>
    decreases n,
{
    if n <= 0 {
        Seq::empty()
    } else if within_dir(all[n - 1], path) {
        within_list(all, path, n - 1).push(all[n - 1])
    } else {
        within_list(all, path, n - 1)
    }
}

impl State {
    /// The sidebar tree of the files (see `model_tree`).
    pub fn build_tree(&self) -> (t: TreeDir)
        ensures
            t@ == model_tree(self.files@),
    {
        let mut root = TreeDir::root();
        let mut i: usize = 0;
        while i < self.files.len()
            invariant
                i <= self.files@.len(),
                root@ == insert_all(self.files@, i as int),
            decreases self.files@.len() - i,
        {
            root.insert_file(i, &self.files[i]);
            i = i + 1;
        }
        root.sort_files_recursive();
        root.collapse_single_child_dirs();
        root
    }

    /// Rebuilds the rows of the sidebar from the files (see `model_rows`).
    pub fn rebuild_cached_rows(&mut self)
        ensures
            row_views(final(self).cached_rows@) == model_rows(
                model_tree(old(self).files@),
                old(self).tree_root_name@,
                old(self).tree_root_expanded,
                old(self).expanded_dirs@,
            ),
            !final(self).tree_dirty,
            final(self).files == old(self).files,
            final(self).expanded_dirs == old(self).expanded_dirs,
            final(self).tree_root_expanded == old(self).tree_root_expanded,
            final(self).tree_root_name == old(self).tree_root_name,
            final(self).project_search == old(self).project_search,
            final(self).selected_sidebar_targets == old(self).selected_sidebar_targets,
            final(self).focused_sidebar_target == old(self).focused_sidebar_target,
            final(self).selected_path == old(self).selected_path,
            final(self).initialized_tree == old(self).initialized_tree,
            final(self).selection_anchor_sidebar_target == old(self).selection_anchor_sidebar_target,
            final(self).selected_file == old(self).selected_file,
            final(self).active_diff_request == old(self).active_diff_request,
            *final(self) == (State { cached_rows: final(self).cached_rows, tree_dirty: false, ..*old(self) }),
    {
        let tree = self.build_tree();
        let mut rows: Vec<SidebarRow> = Vec::new();
        rows.push(SidebarRow::Root { name: self.tree_root_name.clone(), expanded: self.tree_root_expanded });
        let ghost first = row_views(rows@);
        if self.tree_root_expanded && tree.height_at_most(usize::MAX - 1) {
            tree.collect_visible_rows(&self.expanded_dirs, 1, &mut rows);
        }
        proof {
            assert(first =~= seq![RowNode::Root { name: self.tree_root_name@, expanded: self.tree_root_expanded }]);
            assert(row_views(rows@) =~= model_rows(
                model_tree(self.files@),
                self.tree_root_name@,
                self.tree_root_expanded,
                self.expanded_dirs@,
            ));
        }
        self.cached_rows = rows;
        self.tree_dirty = false;
    }

    /// Rebuilds the rows if something changed since they were built.
    pub fn ensure_rows_cached(&mut self)
        ensures
            !final(self).tree_dirty,
            old(self).tree_dirty ==> row_views(final(self).cached_rows@) == model_rows(
                model_tree(old(self).files@),
                old(self).tree_root_name@,
                old(self).tree_root_expanded,
                old(self).expanded_dirs@,
            ),
            !old(self).tree_dirty ==> final(self).cached_rows == old(self).cached_rows,
            final(self).files == old(self).files,
            final(self).expanded_dirs == old(self).expanded_dirs,
            final(self).tree_root_expanded == old(self).tree_root_expanded,
            final(self).tree_root_name == old(self).tree_root_name,
            final(self).project_search == old(self).project_search,
            final(self).selected_sidebar_targets == old(self).selected_sidebar_targets,
            final(self).selection_anchor_sidebar_target == old(self).selection_anchor_sidebar_target,
            final(self).focused_sidebar_target == old(self).focused_sidebar_target,
            final(self).selected_path == old(self).selected_path,
            final(self).selected_file == old(self).selected_file,
            final(self).active_diff_request == old(self).active_diff_request,
            *final(self) == (State { cached_rows: final(self).cached_rows, tree_dirty: false, ..*old(self) }),
    {
        if self.tree_dirty {
            self.rebuild_cached_rows();
        }
    }

    /// The paths of all directories of the sidebar tree.
    pub fn all_dir_paths(&self) -> (r: Vec<String>)
        ensures
            string_views(r@) == dir_paths(model_tree(self.files@)),
    {
        let tree = self.build_tree();
        let mut all: Vec<String> = Vec::new();
        tree.collect_dir_paths(&mut all);
        proof {
            assert(string_views(all@) =~= dir_paths(model_tree(self.files@)));
        }
        all
    }

    /// The paths of the directories of the tree inside the directory `path`.
    pub fn descendant_dir_paths(&self, path: &str) -> (r: Vec<String>)
        ensures
            string_views(r@) == within_list(
                dir_paths(model_tree(self.files@)),
                path@,
                dir_paths(model_tree(self.files@)).len() as int,
            ),
    {
        let all = self.all_dir_paths();
        let ghost a = string_views(all@);
        let mut r: Vec<String> = Vec::new();
        let mut i: usize = 0;
        while i < all.len()
            invariant
                a == string_views(all@),
                i <= all@.len(),
                string_views(r@) == within_list(a, path@, i as int),
            decreases all@.len() - i,
        {
            let ghost before = string_views(r@);
            if is_path_within_dir(all[i].as_str(), path) {
                r.push(all[i].clone());
                proof {
                    assert(string_views(r@) =~= before.push(a[i as int]));
                }
            }
            i = i + 1;
        }
        r
    }

    /// Brings the expanded directories in line with the tree: on the first call every
    /// directory is expanded, later ones forget directories that no longer exist; the
    /// directories that contain the selected file are expanded, and the rows are marked
    /// for rebuilding.
    pub fn sync_tree_state(&mut self)
        ensures
            ({
                let kept = kept_dirs(*old(self));
                let sel = selection_path(*old(self));
                &&& final(self).expanded_dirs@ == match sel {
                    Some(p) => kept.union(parent_paths(p)),
                    None => kept,
                }
                &&& final(self).tree_root_expanded == (!old(self).initialized_tree || sel is Some
                    || old(self).tree_root_expanded)
            }),
            final(self).initialized_tree,
            final(self).tree_dirty,
            final(self).files == old(self).files,
            final(self).selected_path == old(self).selected_path,
            final(self).selected_file == old(self).selected_file,
            *final(self) == (State {
                expanded_dirs: final(self).expanded_dirs,
                tree_root_expanded: final(self).tree_root_expanded,
                initialized_tree: true,
                tree_dirty: true,
                ..*old(self)
            }),
    {
        self.settle_known_dirs();
        self.expand_to_selection();
        self.tree_dirty = true;
    }

    /// On the first call, expands every directory; later calls forget the expanded
    /// directories that no longer exist.
    fn settle_known_dirs(&mut self)
        ensures
            final(self).expanded_dirs@ == kept_dirs(*old(self)),
            *final(self) == (State {
                expanded_dirs: final(self).expanded_dirs,
                tree_root_expanded: !old(self).initialized_tree || old(self).tree_root_expanded,
                initialized_tree: true,
                ..*old(self)
            }),
    {
        let all = self.all_dir_paths();
        if !self.initialized_tree {
            self.expanded_dirs = PathSet::from_paths(all);
            self.tree_root_expanded = true;
            self.initialized_tree = true;
        } else {
            self.expanded_dirs.retain_known(&all);
        }
    }

    /// Expands the root and the directories that contain the selected file, if any.
    fn expand_to_selection(&mut self)
        ensures
            final(self).expanded_dirs@ == match selection_path(*old(self)) {
                Some(p) => old(self).expanded_dirs@.union(parent_paths(p)),
                None => old(self).expanded_dirs@,
            },
            *final(self) == (State {
                expanded_dirs: final(self).expanded_dirs,
                tree_root_expanded: selection_path(*old(self)) is Some || old(self).tree_root_expanded,
                ..*old(self)
            }),
    {
        match &self.selected_path {
            Some(p) => {
                self.tree_root_expanded = true;
                expand_parent_dirs(&mut self.expanded_dirs, p.as_str());
            },
            None => {
                match self.selected_file {
                    Some(i) => {
                        if i < self.files.len() {
                            self.tree_root_expanded = true;
                            expand_parent_dirs(&mut self.expanded_dirs, self.files[i].path.as_str());
                        }
                    },
                    None => {},
                }
            },
        }
    }

    /// Expands or collapses the root; recursively, also every directory.
    pub fn toggle_root(&mut self, recursive: bool)
        ensures
            final(self).tree_root_expanded == !old(self).tree_root_expanded,
            final(self).expanded_dirs@ == dirs_after_root_toggle(*old(self), recursive),
            final(self).tree_dirty,
            final(self).files == old(self).files,
            *final(self) == (State {
                expanded_dirs: final(self).expanded_dirs,
                tree_root_expanded: final(self).tree_root_expanded,
                tree_dirty: true,
                ..*old(self)
            }),
    {
        if self.tree_root_expanded {
            self.tree_root_expanded = false;
            if recursive {
                self.expanded_dirs.clear();
            }
        } else {
            self.tree_root_expanded = true;
            if recursive {
                let all = self.all_dir_paths();
                self.expanded_dirs = PathSet::from_paths(all);
            }
        }
        self.tree_dirty = true;
    }

    /// Expands or collapses the directory at `path`; recursively, also every directory
    /// inside it.
    pub fn toggle_dir(&mut self, path: &String, recursive: bool)
        ensures
            final(self).expanded_dirs@ == dirs_after_toggle(*old(self), path@, recursive),
            final(self).tree_dirty,
            final(self).files == old(self).files,
            final(self).tree_root_expanded == old(self).tree_root_expanded,
            *final(self) == (State { expanded_dirs: final(self).expanded_dirs, tree_dirty: true, ..*old(self) }),
    {
        let below = if recursive {
            self.descendant_dir_paths(path.as_str())
        } else {
            Vec::new()
        };
        let mut dirs = PathSet::new();
        std::mem::swap(&mut dirs, &mut self.expanded_dirs);
        toggle_in(&mut dirs, path, recursive, below);
        self.expanded_dirs = dirs;
        self.tree_dirty = true;
    }

    /// Asks for the changed files to be loaded: returns whether to start loading now;
    /// while a load is under way, one more is queued instead.
    pub fn queue_refresh(&mut self) -> (start: bool)
        ensures
            start == !old(self).refresh_in_flight,
            final(self).refresh_in_flight,
            final(self).refresh_queued == old(self).refresh_in_flight,
            final(self).files == old(self).files,
            *final(self) == (State {
                refresh_in_flight: true,
                refresh_queued: final(self).refresh_queued,
                ..*old(self)
            }),
    {
        if self.refresh_in_flight {
            self.refresh_queued = true;
            false
        } else {
            self.refresh_in_flight = true;
            self.refresh_queued = false;
            true
        }
    }

    /// Notes that a load finished: returns whether to start the queued one now.
    pub fn finish_refresh(&mut self) -> (start: bool)
        ensures
            start == old(self).refresh_queued,
            final(self).refresh_in_flight == old(self).refresh_queued,
            !final(self).refresh_queued,
            final(self).files == old(self).files,
            *final(self) == (State {
                refresh_in_flight: final(self).refresh_in_flight,
                refresh_queued: false,
                ..*old(self)
            }),
    {
        self.refresh_in_flight = false;
        if self.refresh_queued {
            self.refresh_queued = false;
            self.queue_refresh()
        } else {
            false
        }
    }

    /// The id of the next diff request (wrapping around).
    pub fn next_diff_request(&mut self) -> (id: u64)
        ensures
            id == final(self).active_diff_request,
            final(self).active_diff_request == (if old(self).active_diff_request == u64::MAX {
                0
            } else {
                (old(self).active_diff_request + 1) as u64
            }),
            *final(self) == (State { active_diff_request: final(self).active_diff_request, ..*old(self) }),
    {
        self.active_diff_request = self.active_diff_request.wrapping_add(1);
        self.active_diff_request
    }

    /// Shows `text` in the status bar, as a success or a failure.
    pub fn set_status_message(&mut self, text: String, tone: StatusTone)
        ensures
            *final(self) == (State {
                status_message: Some(StatusMessage { text, tone }),
                ..*old(self)
            }),
    {
        self.status_message = Some(StatusMessage { text, tone });
    }
}

/// `f` is the focus of `s` once one is ensured: the focus kept if there is one, else the
/// selected file, else the root when there are rows.
pub open spec fn focus_ensured(s: State, f: Option<SidebarTarget>) -> bool {
    &&& s.focused_sidebar_target is None ==> match s.selected_path {
        Some(p) => f matches Some(t) && t@ == TargetView::File(p@),
        None => if s.cached_rows@.len() > 0 {
            f matches Some(t) && t@ == TargetView::Root
        } else {
            f is None
        },
    }
    &&& s.focused_sidebar_target is Some ==> f == s.focused_sidebar_target
}

/// The expanded directories once the directory at `path` is toggled: collapsing it also
/// collapses, recursively, every directory inside it; expanding it recursively also
/// expands every directory inside it.
pub open spec fn dirs_after_toggle(s: State, path: Seq<char>, recursive: bool) -> Set<Seq<char>> {
    if s.expanded_dirs@.contains(path) {
        if recursive {
            s.expanded_dirs@.remove(path).filter(|p: Seq<char>| !within_dir(p, path))
        } else {
            s.expanded_dirs@.remove(path)
        }
    } else {
        if recursive {
            s.expanded_dirs@.insert(path).union(
                within_list(
                    dir_paths(model_tree(s.files@)),
                    path,
                    dir_paths(model_tree(s.files@)).len() as int,
                ).to_set(),
            )
        } else {
            s.expanded_dirs@.insert(path)
        }
    }
}

/// Expanding or collapsing a directory and then doing it again, not recursively, gives
/// back the directories that were expanded before.
pub proof fn lemma_toggle_dir_twice(s: State, t: State, path: Seq<char>)
    requires
        t.expanded_dirs@ == dirs_after_toggle(s, path, false),
    ensures
        dirs_after_toggle(t, path, false) == s.expanded_dirs@,
{
    if s.expanded_dirs@.contains(path) {
        assert(s.expanded_dirs@.remove(path).insert(path) =~= s.expanded_dirs@);
    } else {
        assert(s.expanded_dirs@.insert(path).remove(path) =~= s.expanded_dirs@);
    }
}

/// The expanded directories once the root is toggled: recursively, collapsing forgets
/// them all and expanding expands every directory.
pub open spec fn dirs_after_root_toggle(s: State, recursive: bool) -> Set<Seq<char>> {
    if !recursive {
        s.expanded_dirs@
    } else if s.tree_root_expanded {
        Set::<Seq<char>>::empty()
    } else {
        dir_paths(model_tree(s.files@)).to_set()
    }
}

/// The expanded directories kept when the tree is brought in line with the files: all of
/// them on the first time, else those that still exist.
pub open spec fn kept_dirs(s: State) -> Set<Seq<char>> {
    if !s.initialized_tree {
        dir_paths(model_tree(s.files@)).to_set()
    } else {
        s.expanded_dirs@.filter(|p: Seq<char>| dir_paths(model_tree(s.files@)).contains(p))
    }
}

/// The path of the selected file: the selected path, else that of the selected index.
pub open spec fn selection_path(s: State) -> Option<Seq<char>> {
    match s.selected_path {
        Some(p) => Some(p@),
        None => match s.selected_file {
            Some(i) => if i < s.files@.len() {
                Some(s.files@[i as int].path@)
            } else {
                None
            },
            None => None,
        },
    }
}

/// Collapses `path` in `dirs` if it is expanded (recursively, also every directory inside
/// it), else expands it and, recursively, the directories in `below`.
fn toggle_in(dirs: &mut PathSet, path: &String, recursive: bool, below: Vec<String>)
    ensures
        final(dirs)@ == if old(dirs)@.contains(path@) {
            if recursive {
                old(dirs)@.remove(path@).filter(|p: Seq<char>| !within_dir(p, path@))
            } else {
                old(dirs)@.remove(path@)
            }
        } else {
            if recursive {
                old(dirs)@.insert(path@).union(string_views(below@).to_set())
            } else {
                old(dirs)@.insert(path@)
            }
        },
{
    if dirs.contains(path) {
        dirs.remove(path);
        if recursive {
            dirs.remove_below(path);
        }
    } else {
        dirs.insert(path.clone());
        if recursive {
            dirs.extend(below);
        }
    }
}

/// The number after `x`, wrapping around to 0.
pub open spec fn wrapping_next(x: u64) -> u64 {
    if x == u64::MAX {
        0
    } else {
        (x + 1) as u64
    }
}

} // verus!
