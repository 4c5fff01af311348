use vstd::prelude::*;
use crate::git::diff::{ChangedFile, FileDiff};
use crate::search::SEARCH_DEBOUNCE_MS;
use crate::sidebar::{
    dirs_after_root_toggle, dirs_after_toggle, focus_ensured, kept_dirs, selection_path, wrapping_next, model_rows, model_tree, visible_targets,
    PendingDiffJump, SidebarTarget, State, TargetView,
};
use crate::tree::{parent_paths, row_views};
use crate::navigation::{file_selected, kept_if_visible, rows_rebuilt};
use crate::state::{search_summaries, total_contexts, total_matches, ActivePane, ChangesFocus, ProjectSearch, SearchResultSummary};
use crate::text::spec_to_lowercase;

verus! {

/// A project search to run: its request id, the query and whether case matters.
pub struct SearchRequest {
    pub request_id: u64,
    pub query: String,
    pub case_sensitive: bool,
}

/// The counts of the search's results add up within `usize`.
pub open spec fn search_totals_fit(search: Option<ProjectSearch>) -> bool {
    match search {
        Some(s) => total_matches(s.results@) <= usize::MAX && total_contexts(s.results@) <= usize::MAX,
        None => true,
    }
}

/// The first file at `path`: its index, or -1.
pub open spec fn file_index(files: Seq<ChangedFile>, path: Seq<char>, from: int) -> int
    decreases files.len() - from,
{
    if from < 0 || from >= files.len() {
        -1
    } else if files[from].path@ == path {
        from
    } else {
        file_index(files, path, from + 1)
    }
}

proof fn lemma_file_index(files: Seq<ChangedFile>, path: Seq<char>, from: int)
    requires
        0 <= from,
    ensures
        file_index(files, path, from) == -1 || (from <= file_index(files, path, from) < files.len()
            && files[file_index(files, path, from)].path@ == path),
        forall|k: int|
            from <= k < files.len() && (file_index(files, path, from) == -1 || k < file_index(files, path, from))
                ==> files[k].path@ != path,
    decreases files.len() - from,
{
    if from < files.len() && files[from].path@ != path {
        lemma_file_index(files, path, from + 1);
    }
}

/// The file to select after the files are reloaded: the one at the selected path, else
/// the selected index if it is still a file, else the first file.
pub open spec fn next_selection(files: Seq<ChangedFile>, selected_path: Option<String>, selected_file: Option<usize>) -> Option<int> {
    let by_path = match selected_path {
        Some(p) => file_index(files, p@, 0),
        None => -1,
    };
    if by_path >= 0 {
        Some(by_path)
    } else if selected_file matches Some(i) && i < files.len() {
        Some(selected_file->Some_0 as int)
    } else if files.len() > 0 {
        Some(0)
    } else {
        None
    }
}

/// The effects that reloading the files asks for.
pub struct FilesLoaded {
    /// The file that became selected and the id of the diff request for it.
    pub selected: Option<(usize, u64)>,
    /// Start loading the files again (a refresh was queued).
    pub start_refresh: bool,
}

/// Starts a due run of the search `s`: an empty query only clears the results; another
/// marks the search as running under a new request id and gives the request.
fn start_search_run(s: &mut ProjectSearch) -> (r: Option<SearchRequest>)
    requires
        total_matches(old(s).results@) <= usize::MAX,
        total_contexts(old(s).results@) <= usize::MAX,
    ensures
        ({
            let o = *old(s);
            let t = *final(s);
            if o.query@.len() == 0 {
                &&& r is None
                &&& t.results@.len() == 0
                &&& (t.cached_summary@, t.cached_file_summary@, t.cached_result_summary@) == search_summaries(
                    o.query@,
                    false,
                    0,
                    0,
                    0,
                )
                &&& t == (ProjectSearch {
                    pending_run_at: None,
                    results: t.results,
                    searching: false,
                    cached_summary: t.cached_summary,
                    cached_file_summary: t.cached_file_summary,
                    cached_result_summary: t.cached_result_summary,
                    ..o
                })
            } else {
                &&& r matches Some(q) && q.request_id == t.request_id && q.query@ == o.query@
                    && q.case_sensitive == o.case_sensitive
                &&& (t.cached_summary@, t.cached_file_summary@, t.cached_result_summary@) == search_summaries(
                    o.query@,
                    true,
                    o.results@.len(),
                    total_matches(o.results@),
                    total_contexts(o.results@),
                )
                &&& t == (ProjectSearch {
                    pending_run_at: None,
                    searching: true,
                    request_id: wrapping_next(o.request_id),
                    cached_summary: t.cached_summary,
                    cached_file_summary: t.cached_file_summary,
                    cached_result_summary: t.cached_result_summary,
                    ..o
                })
            }
        }),
{
    s.pending_run_at = None;
    if s.query.as_str().is_empty() {
        s.clear_results();
        return None;
    }
    s.searching = true;
    s.rebuild_cached_summaries();
    let id = s.next_request();
    let q = s.query.clone();
    let case = s.case_sensitive;
    Some(SearchRequest { request_id: id, query: q, case_sensitive: case })
}

/// The search queued again to run `SEARCH_DEBOUNCE_MS` after `now_ms`, if there is one.
pub open spec fn requeued(search: Option<ProjectSearch>, now_ms: u64) -> Option<ProjectSearch> {
    match search {
        Some(o) => Some(ProjectSearch { pending_run_at: Some((now_ms + SEARCH_DEBOUNCE_MS) as u64), searching: false, ..o }),
        None => None,
    }
}

/// `f` is `s` once the changed files `files` were taken: the error is cleared, the tree
/// is brought in line with them (see `sync_tree_state`), the rows are rebuilt, the
/// selection is trimmed to the visible rows and a row is focused.
#[verifier::opaque]
pub open spec fn files_taken(s: State, f: State, files: Vec<ChangedFile>) -> bool {
    let s1 = State { files, error: None, ..s };
    let sel = selection_path(s1);
    let root = !s1.initialized_tree || sel is Some || s1.tree_root_expanded;
    let dirs = match sel {
        Some(p) => kept_dirs(s1).union(parent_paths(p)),
        None => kept_dirs(s1),
    };
    let s2 = State {
        expanded_dirs: f.expanded_dirs,
        tree_root_expanded: root,
        initialized_tree: true,
        tree_dirty: true,
        ..s1
    };
    let focus0 = kept_if_visible(s.focused_sidebar_target, visible_targets(f));
    &&& rows_rebuilt(s2, State { focused_sidebar_target: focus0, ..f }, root, dirs)
    &&& focus_ensured(State { focused_sidebar_target: focus0, ..f }, f.focused_sidebar_target)
}

/// `f` is `s` once the changed files `files` were loaded at `now_ms`: they were taken
/// (see `files_taken`), a queued search was rescheduled, the load was finished (see
/// `finish_refresh`), and the file that `next_selection` picks was selected (see
/// `files_settled`), `selected` giving it.
pub open spec fn files_reloaded(s: State, f: State, files: Vec<ChangedFile>, now_ms: u64, selected: Option<(usize, u64)>) -> bool {
    exists|m: State|
        #[trigger] files_taken(s, m, files) && files_settled(
            State {
                project_search: requeued(m.project_search, now_ms),
                refresh_in_flight: m.refresh_queued,
                refresh_queued: false,
                ..m
            },
            f,
            next_selection(files@, s.selected_path, s.selected_file),
            selected,
        )
}

/// `f` is `s` once the file at `next` was selected (see `file_selected`), `selected`
/// giving it with the id of the request for its diff; with no file to select, the
/// selection, the explicit selection and the diff are cleared.
#[verifier::opaque]
pub open spec fn files_settled(s: State, f: State, next: Option<int>, selected: Option<(usize, u64)>) -> bool {
    match next {
        Some(i) => {
            &&& selected == Some((i as usize, f.active_diff_request))
            &&& file_selected(s, f, i as usize, Some(f.active_diff_request))
        },
        None => {
            &&& selected is None
            &&& f.selected_sidebar_targets@ == Set::<TargetView>::empty()
            &&& f == (State {
                selected_file: None,
                selected_path: None,
                current_diff: None,
                selected_sidebar_targets: f.selected_sidebar_targets,
                selection_anchor_sidebar_target: None,
                ..s
            })
        },
    }
}

impl State {
    /// The index of the first file at `path`.
    pub fn file_position(&self, path: &String) -> (r: Option<usize>)
        ensures
            match r {
                Some(k) => k as int == file_index(self.files@, path@, 0),
                None => file_index(self.files@, path@, 0) == -1,
            },
    {
        proof {
            lemma_file_index(self.files@, path@, 0);
        }
        let mut i: usize = 0;
        while i < self.files.len() && !(self.files[i].path == *path)
            invariant
                i <= self.files@.len(),
                forall|k: int| 0 <= k < i ==> self.files@[k].path@ != path@,
            decreases self.files@.len() - i,
        {
            i = i + 1;
        }
        if i < self.files.len() {
            proof {
                let f = file_index(self.files@, path@, 0);
                if f == -1 || f > i {
                } else if f < i {
                    assert(self.files@[f].path@ != path@);
                }
            }
            Some(i)
        } else {
            proof {
                let f = file_index(self.files@, path@, 0);
                if f != -1 {
                    assert(self.files@[f].path@ != path@);
                }
            }
            None
        }
    }

    /// The file to select after the files were reloaded (see `next_selection`).
    fn next_selected_file(&self) -> (next: Option<usize>)
        ensures
            match next_selection(self.files@, self.selected_path, self.selected_file) {
                Some(i) => next matches Some(k) && k as int == i && 0 <= i < self.files@.len(),
                None => next is None,
            },
    {
        let by_path = match &self.selected_path {
            Some(p) => self.file_position(p),
            None => None,
        };
        proof {
            if self.selected_path is Some {
                lemma_file_index(self.files@, self.selected_path->Some_0@, 0);
            }
        }
        match by_path {
            Some(i) => Some(i),
            None => match self.selected_file {
                Some(i) => if i < self.files.len() {
                    Some(i)
                } else if self.files.len() > 0 {
                    Some(0)
                } else {
                    None
                },
                None => if self.files.len() > 0 {
                    Some(0)
                } else {
                    None
                },
            },
        }
    }

    /// Selects the file at `next`, or clears the selection and the diff when there is
    /// none (see `files_settled`).
    fn settle_selection(&mut self, next: Option<usize>) -> (selected: Option<(usize, u64)>)
        requires
            next matches Some(i) ==> i < old(self).files@.len(),
        ensures
            files_settled(
                *old(self),
                *final(self),
                match next {
                    Some(i) => Some(i as int),
                    None => None,
                },
                selected,
            ),
    {
        reveal(files_settled);
        match next {
            Some(i) => {
                let id = self.select_file(i);
                match id {
                    Some(id) => Some((i, id)),
                    None => None,
                }
            },
            None => {
                self.selected_file = None;
                self.selected_path = None;
                self.current_diff = None;
                self.clear_explicit_selection();
                None
            },
        }
    }

    /// Takes the changed files `files` (see `files_taken`).
    fn take_files(&mut self, files: Vec<ChangedFile>)
        ensures
            files_taken(*old(self), *final(self), files),
            final(self).files == files,
            final(self).selected_path == old(self).selected_path,
            final(self).selected_file == old(self).selected_file,
            final(self).project_search == old(self).project_search,
            final(self).refresh_queued == old(self).refresh_queued,
    {
        reveal(files_taken);
        self.files = files;
        self.error = None;
        self.sync_tree_state();
        self.rebuild_rows_keeping_visible();
        self.ensure_sidebar_focus();
    }

    /// Queues a search of the project: it runs `SEARCH_DEBOUNCE_MS` after `now_ms`.
    pub fn queue_project_search(&mut self, now_ms: u64)
        requires
            now_ms + SEARCH_DEBOUNCE_MS <= u64::MAX,
        ensures
            match old(self).project_search {
                Some(s) => final(self).project_search == Some(
                    ProjectSearch { pending_run_at: Some((now_ms + SEARCH_DEBOUNCE_MS) as u64), searching: false, ..s },
                ),
                None => final(self).project_search is None,
            },
            *final(self) == (State { project_search: final(self).project_search, ..*old(self) }),
    {
        match self.project_search.take() {
            Some(mut s) => {
                s.pending_run_at = Some(now_ms + SEARCH_DEBOUNCE_MS);
                s.searching = false;
                self.project_search = Some(s);
            },
            None => {},
        }
    }

    /// Runs the queued search when it is due at `now_ms`: gives the request to make; a
    /// due search with an empty query only clears the results.
    pub fn maybe_run_project_search(&mut self, now_ms: u64) -> (r: Option<SearchRequest>)
        requires
            search_totals_fit(old(self).project_search),
        ensures
            match old(self).project_search {
                Some(s) => if s.pending_run_at matches Some(at) && now_ms >= at {
                    &&& *final(self) == (State { project_search: final(self).project_search, ..*old(self) })
                    &&& final(self).project_search matches Some(t) && if s.query@.len() == 0 {
                        &&& r is None
                        &&& t.results@.len() == 0
                        &&& (t.cached_summary@, t.cached_file_summary@, t.cached_result_summary@)
                            == search_summaries(s.query@, false, 0, 0, 0)
                        &&& t == (ProjectSearch {
                            pending_run_at: None,
                            results: t.results,
                            searching: false,
                            cached_summary: t.cached_summary,
                            cached_file_summary: t.cached_file_summary,
                            cached_result_summary: t.cached_result_summary,
                            ..s
                        })
                    } else {
                        &&& r matches Some(q) && q.request_id == t.request_id && q.query@ == s.query@
                            && q.case_sensitive == s.case_sensitive
                        &&& (t.cached_summary@, t.cached_file_summary@, t.cached_result_summary@) == search_summaries(
                            s.query@,
                            true,
                            s.results@.len(),
                            total_matches(s.results@),
                            total_contexts(s.results@),
                        )
                        &&& t == (ProjectSearch {
                            pending_run_at: None,
                            searching: true,
                            request_id: wrapping_next(s.request_id),
                            cached_summary: t.cached_summary,
                            cached_file_summary: t.cached_file_summary,
                            cached_result_summary: t.cached_result_summary,
                            ..s
                        })
                    }
                } else {
                    r is None && *final(self) == *old(self)
                },
                None => r is None && *final(self) == *old(self),
            },
    {
        let mut s = match self.project_search.take() {
            Some(s) => s,
            None => {
                return None;
            },
        };
        let due = match s.pending_run_at {
            Some(at) => now_ms >= at,
            None => false,
        };
        if !due {
            self.project_search = Some(s);
            return None;
        }
        let r = start_search_run(&mut s);
        self.project_search = Some(s);
        r
    }

    /// The user changed the query: an empty query clears the results, another queues a
    /// search.
    pub fn project_search_query_changed(&mut self, query: String, now_ms: u64)
        requires
            now_ms + SEARCH_DEBOUNCE_MS <= u64::MAX,
        ensures
            *final(self) == (State { project_search: final(self).project_search, ..*old(self) }),
            match old(self).project_search {
                Some(s) => final(self).project_search matches Some(t) && t.query == query && t.query_lower@ == (
                if s.case_sensitive {
                    Seq::<char>::empty()
                } else {
                    spec_to_lowercase(query@)
                }) && if query@.len() == 0 {
                    &&& t.results@.len() == 0
                    &&& (t.cached_summary@, t.cached_file_summary@, t.cached_result_summary@) == search_summaries(
                        query@,
                        false,
                        0,
                        0,
                        0,
                    )
                    &&& t == (ProjectSearch {
                        query: t.query,
                        query_lower: t.query_lower,
                        input_focused: true,
                        pending_run_at: None,
                        results: t.results,
                        searching: false,
                        cached_summary: t.cached_summary,
                        cached_file_summary: t.cached_file_summary,
                        cached_result_summary: t.cached_result_summary,
                        ..s
                    })
                } else {
                    t == (ProjectSearch {
                        query: t.query,
                        query_lower: t.query_lower,
                        input_focused: true,
                        pending_run_at: Some((now_ms + SEARCH_DEBOUNCE_MS) as u64),
                        searching: false,
                        ..s
                    })
                },
                None => final(self).project_search is None,
            },
    {
        match self.project_search.take() {
            Some(mut s) => {
                s.query = query;
                s.input_focused = true;
                s.update_query_lower();
                if s.query.as_str().is_empty() {
                    s.pending_run_at = None;
                    s.clear_results();
                    self.project_search = Some(s);
                    return;
                }
                self.project_search = Some(s);
            },
            None => {},
        }
        self.queue_project_search(now_ms);
    }

    /// Results (or an error) arrived for search request `request_id`: results of an
    /// older request are dropped. Gives the file to select when the selected file has no
    /// result: the first result's file.
    pub fn project_search_results(
        &mut self,
        request_id: u64,
        result: Result<Vec<SearchResultSummary>, String>,
    ) -> (r: Option<usize>)
        requires
            match result {
                Ok(v) => total_matches(v@) <= usize::MAX && total_contexts(v@) <= usize::MAX,
                Err(_) => true,
            },
        ensures
            match old(self).project_search {
                Some(s) => if s.request_id != request_id {
                    r is None && *final(self) == *old(self)
                } else {
                    match result {
                        Ok(v) => {
                            &&& *final(self) == (State { project_search: final(self).project_search, ..*old(self) })
                            &&& final(self).project_search matches Some(t) && t == (ProjectSearch {
                            results: v,
                            searching: false,
                            cached_summary: t.cached_summary,
                            cached_file_summary: t.cached_file_summary,
                            cached_result_summary: t.cached_result_summary,
                            ..s
                        }) && (t.cached_summary@, t.cached_file_summary@, t.cached_result_summary@) == search_summaries(
                            s.query@,
                            false,
                            v@.len(),
                            total_matches(v@),
                            total_contexts(v@),
                        ) && match r {
                            Some(k) => v@.len() > 0 && k as int == file_index(old(self).files@, v@[0].file_path@, 0)
                                && !(old(self).selected_path matches Some(p) && exists|j: int|
                                0 <= j < v@.len() && #[trigger] v@[j].file_path@ == p@),
                            None => (old(self).selected_path matches Some(p) && exists|j: int|
                                0 <= j < v@.len() && #[trigger] v@[j].file_path@ == p@) || v@.len() == 0
                                || file_index(old(self).files@, v@[0].file_path@, 0) == -1,
                        }
                        },
                        Err(e) => {
                            &&& r is None
                            &&& *final(self) == (State {
                                project_search: Some(ProjectSearch { searching: false, ..s }),
                                error: Some(e),
                                ..*old(self)
                            })
                        },
                    }
                },
                None => r is None && *final(self) == *old(self),
            },
            final(self).files == old(self).files,
    {
        let mut s = match self.project_search.take() {
            Some(s) => s,
            None => {
                return None;
            },
        };
        if request_id != s.request_id {
            self.project_search = Some(s);
            return None;
        }
        match result {
            Ok(results) => {
                s.set_results(results);
                let current_has_match = match &self.selected_path {
                    Some(p) => s.is_matching_path(p),
                    None => false,
                };
                let pick = if !current_has_match && s.results.len() > 0 {
                    let first = s.results[0].file_path.clone();
                    self.file_position(&first)
                } else {
                    None
                };
                self.project_search = Some(s);
                pick
            },
            Err(e) => {
                s.searching = false;
                self.project_search = Some(s);
                self.error = Some(e);
                None
            },
        }
    }

    /// Jumps from a search result to `line_number` of the file at `file_path`: the search
    /// closes, the jump waits for the diff, and the file to select is given.
    pub fn project_search_jump_to(&mut self, file_path: String, line_number: usize) -> (r: Option<usize>)
        ensures
            final(self).pending_diff_jump matches Some(j) && j.path@ == file_path@ && j.line_number == line_number,
            *final(self) == (State {
                pending_diff_jump: final(self).pending_diff_jump,
                project_search: match old(self).project_search {
                    Some(s) => Some(search_closed(s)),
                    None => None,
                },
                ..*old(self)
            }),
            match r {
                Some(k) => k as int == file_index(old(self).files@, file_path@, 0),
                None => file_index(old(self).files@, file_path@, 0) == -1,
            },
    {
        let r = self.file_position(&file_path);
        self.pending_diff_jump = Some(PendingDiffJump { path: file_path, line_number });
        match self.project_search.take() {
            Some(mut s) => {
                s.is_open = false;
                self.project_search = Some(s);
            },
            None => {},
        }
        r
    }

    /// The files were reloaded (or failed to load): the tree, rows, selection and focus
    /// follow the new files, a queued search is rescheduled, and the file to select is
    /// chosen as `next_selection` says; with no file, the selection is cleared.
    pub fn files_loaded(&mut self, result: Result<Vec<ChangedFile>, String>, now_ms: u64) -> (r: FilesLoaded)
        requires
            now_ms + SEARCH_DEBOUNCE_MS <= u64::MAX,
        ensures
            r.start_refresh == old(self).refresh_queued,
            match result {
                Ok(files) => files_reloaded(*old(self), *final(self), files, now_ms, r.selected),
                Err(e) => {
                    &&& *final(self) == (State {
                        error: Some(e),
                        refresh_in_flight: old(self).refresh_queued,
                        refresh_queued: false,
                        ..*old(self)
                    })
                    &&& r.selected is None
                },
            },
    {
        match result {
            Ok(files) => self.reload_files(files, now_ms),
            Err(e) => {
                self.error = Some(e);
                let start = self.finish_refresh();
                FilesLoaded { selected: None, start_refresh: start }
            },
        }
    }

    /// Takes the reloaded files `files` (see `files_reloaded`).
    fn reload_files(&mut self, files: Vec<ChangedFile>, now_ms: u64) -> (r: FilesLoaded)
        requires
            now_ms + SEARCH_DEBOUNCE_MS <= u64::MAX,
        ensures
            r.start_refresh == old(self).refresh_queued,
            files_reloaded(*old(self), *final(self), files, now_ms, r.selected),
    {
        let ghost taken = files;
        self.take_files(files);
        let ghost m = *self;
        if self.project_search.is_some() {
            self.queue_project_search(now_ms);
        }
        let next = self.next_selected_file();
        let start = self.finish_refresh();
        let ghost q = *self;
        let ghost wanted = next_selection(taken@, old(self).selected_path, old(self).selected_file);
        proof {
            assert(q == (State {
                project_search: requeued(m.project_search, now_ms),
                refresh_in_flight: m.refresh_queued,
                refresh_queued: false,
                ..m
            }));
            match wanted {
                Some(i) => {
                    assert(next->Some_0 as int == i);
                },
                None => {
                    assert(next is None);
                },
            }
        }
        let selected = self.settle_selection(next);
        proof {
            assert(files_settled(q, *self, wanted, selected));
            assert(files_taken(*old(self), m, taken));
        }
        FilesLoaded { selected, start_refresh: start }
    }
}

/// The search once closed: kept, with its query and results, but no longer shown.
pub open spec fn search_closed(s: ProjectSearch) -> ProjectSearch {
    ProjectSearch { is_open: false, ..s }
}

/// The search once opened again: shown, with its input focused.
pub open spec fn search_reopened(s: ProjectSearch) -> ProjectSearch {
    ProjectSearch { is_open: true, input_focused: true, ..s }
}

/// Opening the search `s` takes the diff editor's query: `s` has no query and the editor
/// has one.
pub open spec fn seeds(s: ProjectSearch, editor_query: Seq<char>) -> bool {
    s.query@.len() == 0 && editor_query.len() > 0
}

/// Closing the project search and opening it again gives back the same search, shown and
/// with its input focused: its query, its results and its pending run are kept, unless it
/// had no query and the diff editor has one.
pub proof fn lemma_search_close_reopen(s: ProjectSearch, editor_query: Seq<char>)
    requires
        s.query@.len() > 0 || editor_query.len() == 0,
    ensures
        !seeds(search_closed(s), editor_query),
        search_reopened(search_closed(s)) == search_reopened(s),
        search_reopened(search_closed(s)).query == s.query,
        search_reopened(search_closed(s)).results == s.results,
        search_reopened(search_closed(s)).pending_run_at == s.pending_run_at,
        search_reopened(search_closed(s)).case_sensitive == s.case_sensitive,
        search_reopened(search_closed(s)).is_open,
        !search_closed(s).is_open,
{
}

/// `t` is the search `s` with its query replaced by `q`, summarised anew and due to
/// run `SEARCH_DEBOUNCE_MS` after `now_ms`.
pub open spec fn seeded_from(t: ProjectSearch, s: ProjectSearch, q: Seq<char>, now_ms: u64) -> bool {
    &&& t.query@ == q
    &&& t.query_lower@ == if s.case_sensitive {
        Seq::<char>::empty()
    } else {
        spec_to_lowercase(q)
    }
    &&& (t.cached_summary@, t.cached_file_summary@, t.cached_result_summary@) == search_summaries(
        q,
        s.searching,
        s.results@.len(),
        total_matches(s.results@),
        total_contexts(s.results@),
    )
    &&& t.pending_run_at == Some((now_ms + SEARCH_DEBOUNCE_MS) as u64)
    &&& t == (ProjectSearch {
        query: t.query,
        query_lower: t.query_lower,
        cached_summary: t.cached_summary,
        cached_file_summary: t.cached_file_summary,
        cached_result_summary: t.cached_result_summary,
        pending_run_at: t.pending_run_at,
        ..s
    })
}

/// Gives `s` the query `q` and queues it to run `SEARCH_DEBOUNCE_MS` after `now_ms`.
fn seed_search(s: &mut ProjectSearch, q: String, now_ms: u64)
    requires
        now_ms + SEARCH_DEBOUNCE_MS <= u64::MAX,
        total_matches(old(s).results@) <= usize::MAX,
        total_contexts(old(s).results@) <= usize::MAX,
    ensures
        seeded_from(*final(s), *old(s), q@, now_ms),
{
    s.query = q;
    s.update_query_lower();
    s.rebuild_cached_summaries();
    s.pending_run_at = Some(now_ms + SEARCH_DEBOUNCE_MS);
}

/// `f` is `s` once the project search was opened with the diff editor holding the query
/// `q`, at `now_ms` (see `open_project_search`).
pub open spec fn project_search_opened(s: State, f: State, q: Seq<char>, now_ms: u64) -> bool {
    &&& f == (State { project_search: f.project_search, active_pane: ActivePane::Sidebar, ..s })
    &&& f.project_search matches Some(t) && search_opened_from(s.project_search, t, q, now_ms)
}

/// `t` is the search shown once opened, `current` being the search there was, if any,
/// with the diff editor holding the query `q`, at `now_ms`: an earlier search is kept, and
/// one without a query takes the editor's query and runs after the debounce delay.
pub open spec fn search_opened_from(current: Option<ProjectSearch>, t: ProjectSearch, q: Seq<char>, now_ms: u64) -> bool {
    &&& t.is_open
    &&& t.input_focused
    &&& match current {
        Some(o) => if seeds(o, q) {
            seeded_from(t, search_reopened(o), q, now_ms)
        } else {
            t == search_reopened(o)
        },
        None => {
            &&& !t.case_sensitive
            &&& t.results@.len() == 0
            &&& !t.searching
            &&& t.request_id == 0
            &&& if q.len() > 0 {
                &&& t.query@ == q
                &&& t.query_lower@ == spec_to_lowercase(q)
                &&& (t.cached_summary@, t.cached_file_summary@, t.cached_result_summary@) == search_summaries(
                    q,
                    false,
                    0,
                    0,
                    0,
                )
                &&& t.pending_run_at == Some((now_ms + SEARCH_DEBOUNCE_MS) as u64)
            } else {
                &&& t.query@ == Seq::<char>::empty()
                &&& t.pending_run_at is None
            }
        },
    }
}

/// The search shown once opened (see `search_opened_from`).
fn opened_search(current: Option<ProjectSearch>, editor_query: String, now_ms: u64) -> (t: ProjectSearch)
    requires
        now_ms + SEARCH_DEBOUNCE_MS <= u64::MAX,
        search_totals_fit(current),
    ensures
        search_opened_from(current, t, editor_query@, now_ms),
{
    let mut search = match current {
        Some(s) => s,
        None => ProjectSearch::new(),
    };
    search.is_open = true;
    search.input_focused = true;
    if search.query.as_str().is_empty() && !editor_query.as_str().is_empty() {
        seed_search(&mut search, editor_query, now_ms);
    }
    search
}

impl State {
    /// Opens the project search with its input focused, keeping an earlier search. A
    /// search with an empty query takes the diff editor's `editor_query`, when there is
    /// one, and runs it after the debounce delay; reopening a search with a query shows
    /// its results without searching again.
    pub fn open_project_search(&mut self, editor_query: String, now_ms: u64)
        requires
            now_ms + SEARCH_DEBOUNCE_MS <= u64::MAX,
            search_totals_fit(old(self).project_search),
        ensures
            project_search_opened(*old(self), *final(self), editor_query@, now_ms),
    {
        self.active_pane = ActivePane::Sidebar;
        let current = self.project_search.take();
        let search = opened_search(current, editor_query, now_ms);
        self.project_search = Some(search);
    }

    /// Switches the search between case-sensitive and not, and queues it again; the
    /// search does not run yet, so no request is returned.
    pub fn project_search_toggle_case(&mut self, now_ms: u64) -> (r: Option<SearchRequest>)
        requires
            now_ms + SEARCH_DEBOUNCE_MS <= u64::MAX,
            search_totals_fit(old(self).project_search),
        ensures
            r is None,
            *final(self) == (State { project_search: final(self).project_search, ..*old(self) }),
            match old(self).project_search {
                Some(s) => final(self).project_search matches Some(t) && t == (ProjectSearch {
                    case_sensitive: !s.case_sensitive,
                    query_lower: t.query_lower,
                    pending_run_at: Some((now_ms + SEARCH_DEBOUNCE_MS) as u64),
                    searching: false,
                    ..s
                }) && t.query_lower@ == if !s.case_sensitive {
                    Seq::<char>::empty()
                } else {
                    spec_to_lowercase(s.query@)
                },
                None => final(self).project_search is None,
            },
    {
        if let Some(search) = self.project_search.as_mut() {
            search.case_sensitive = !search.case_sensitive;
            search.update_query_lower();
        }
        self.queue_project_search(now_ms);
        self.maybe_run_project_search(now_ms)
    }
}

/// What loading a file's diff asks of the diff editor.
#[derive(Debug, Clone, Copy, PartialEq, Eq, Structural)]
pub enum DiffShown {
    /// An answer to an older request: dropped.
    Stale,
    /// The request failed; the error is kept to be shown.
    Failed,
    /// Another diff is shown: the editor starts over with it, scrolled to line `jump` if
    /// one was pending for this file, else to where the file was left.
    Replaced { jump: Option<usize> },
    /// The diff shown did not change: the editor only scrolls to line `jump`, if one was
    /// pending for this file.
    Same { jump: Option<usize> },
}

/// The line to scroll to in the diff of `path`, if a jump into it is pending.
pub open spec fn pending_jump_for(jump: Option<PendingDiffJump>, path: Seq<char>) -> Option<usize> {
    match jump {
        Some(j) => if j.path@ == path {
            Some(j.line_number)
        } else {
            None
        },
        None => None,
    }
}

/// `d` differs from the diff shown.
pub open spec fn diff_changed(current: Option<FileDiff>, d: FileDiff) -> bool {
    match current {
        Some(c) => c.raw_patch@ != d.raw_patch@ || c.path@ != d.path@,
        None => true,
    }
}

impl State {
    /// Takes a loaded diff of a changed file: an answer to an older request is dropped;
    /// a diff becomes the one shown, and a jump pending for its file is used up (see
    /// `DiffShown`); a failure is kept as the error.
    pub fn diff_loaded(&mut self, request_id: u64, result: Result<FileDiff, String>) -> (r: DiffShown)
        ensures
            request_id != old(self).active_diff_request ==> *final(self) == *old(self) && r == DiffShown::Stale,
            request_id == old(self).active_diff_request ==> match result {
                Ok(d) => {
                    let jump = pending_jump_for(old(self).pending_diff_jump, d.path@);
                    &&& *final(self) == (State {
                        current_diff: Some(d),
                        pending_diff_jump: if jump is Some {
                            None
                        } else {
                            old(self).pending_diff_jump
                        },
                        ..*old(self)
                    })
                    &&& r == if diff_changed(old(self).current_diff, d) {
                        DiffShown::Replaced { jump }
                    } else {
                        DiffShown::Same { jump }
                    }
                },
                Err(e) => *final(self) == (State { error: Some(e), ..*old(self) }) && r == DiffShown::Failed,
            },
    {
        if request_id != self.active_diff_request {
            return DiffShown::Stale;
        }
        match result {
            Ok(diff) => {
                let changed = match &self.current_diff {
                    Some(c) => !(c.raw_patch == diff.raw_patch) || !(c.path == diff.path),
                    None => true,
                };
                let jump = match &self.pending_diff_jump {
                    Some(j) => if j.path == diff.path {
                        Some(j.line_number)
                    } else {
                        None
                    },
                    None => None,
                };
                if jump.is_some() {
                    self.pending_diff_jump = None;
                }
                self.current_diff = Some(diff);
                if changed {
                    DiffShown::Replaced { jump }
                } else {
                    DiffShown::Same { jump }
                }
            },
            Err(error) => {
                self.error = Some(error);
                DiffShown::Failed
            },
        }
    }
}

/// `f` is the focus once the rows changed and the selection was trimmed to the visible
/// rows, `t` having been focused: `t` if it is still visible, else the selected file, else
/// the root when there are rows (see `focus_ensured`).
pub open spec fn focus_after_rows(s: State, t: TargetView, f: Option<SidebarTarget>) -> bool {
    if visible_targets(s).contains(t) {
        f matches Some(x) && x@ == t
    } else {
        focus_ensured(State { focused_sidebar_target: None, ..s }, f)
    }
}

impl State {
    /// A click on the root row focuses it, drops the explicit selection and gives the
    /// keyboard to the sidebar.
    pub fn focus_root_row(&mut self)
        ensures
            final(self).selected_sidebar_targets@ == Set::<TargetView>::empty(),
            final(self).focused_sidebar_target matches Some(t) && t@ == TargetView::Root,
            *final(self) == (State {
                active_pane: ActivePane::Sidebar,
                selected_sidebar_targets: final(self).selected_sidebar_targets,
                selection_anchor_sidebar_target: None,
                focused_sidebar_target: final(self).focused_sidebar_target,
                ..*old(self)
            }),
    {
        self.active_pane = ActivePane::Sidebar;
        self.clear_explicit_selection();
        self.focused_sidebar_target = Some(SidebarTarget::Root);
        self.ensure_sidebar_focus();
    }

    /// A click on the row of the directory at `path` focuses it, drops the explicit
    /// selection and gives the keyboard to the sidebar.
    pub fn focus_dir_row(&mut self, path: String)
        ensures
            final(self).selected_sidebar_targets@ == Set::<TargetView>::empty(),
            final(self).focused_sidebar_target matches Some(t) && t@ == TargetView::Dir(path@),
            *final(self) == (State {
                active_pane: ActivePane::Sidebar,
                selected_sidebar_targets: final(self).selected_sidebar_targets,
                selection_anchor_sidebar_target: None,
                focused_sidebar_target: final(self).focused_sidebar_target,
                ..*old(self)
            }),
    {
        self.active_pane = ActivePane::Sidebar;
        self.clear_explicit_selection();
        self.focused_sidebar_target = Some(SidebarTarget::Dir(path));
        self.ensure_sidebar_focus();
    }

    /// Rebuilds the rows, trims the selection to them and makes sure a row is focused.
    fn settle_rows(&mut self)
        requires
            old(self).tree_dirty,
            old(self).selected_sidebar_targets@ == Set::<TargetView>::empty(),
            old(self).selection_anchor_sidebar_target is None,
            old(self).focused_sidebar_target is Some,
        ensures
            !final(self).tree_dirty,
            row_views(final(self).cached_rows@) == model_rows(
                model_tree(old(self).files@),
                old(self).tree_root_name@,
                old(self).tree_root_expanded,
                old(self).expanded_dirs@,
            ),
            final(self).selected_sidebar_targets@ == Set::<TargetView>::empty(),
            focus_after_rows(*final(self), old(self).focused_sidebar_target->0@, final(self).focused_sidebar_target),
            *final(self) == (State {
                cached_rows: final(self).cached_rows,
                tree_dirty: false,
                selected_sidebar_targets: final(self).selected_sidebar_targets,
                focused_sidebar_target: final(self).focused_sidebar_target,
                ..*old(self)
            }),
    {
        self.ensure_rows_cached();
        self.retain_sidebar_selection();
        proof {
            assert(self.selected_sidebar_targets@ =~= Set::<TargetView>::empty());
        }
        self.ensure_sidebar_focus();
    }

    /// A click on the root row's toggle: the root is focused and expanded or collapsed
    /// (recursively, with every directory), the explicit selection is dropped and the rows
    /// are rebuilt.
    pub fn toggle_root_row(&mut self, recursive: bool)
        ensures
            final(self).tree_root_expanded == !old(self).tree_root_expanded,
            final(self).expanded_dirs@ == dirs_after_root_toggle(*old(self), recursive),
            row_views(final(self).cached_rows@) == model_rows(
                model_tree(old(self).files@),
                old(self).tree_root_name@,
                !old(self).tree_root_expanded,
                dirs_after_root_toggle(*old(self), recursive),
            ),
            final(self).selected_sidebar_targets@ == Set::<TargetView>::empty(),
            focus_after_rows(*final(self), TargetView::Root, final(self).focused_sidebar_target),
            *final(self) == (State {
                active_pane: ActivePane::Sidebar,
                tree_root_expanded: final(self).tree_root_expanded,
                expanded_dirs: final(self).expanded_dirs,
                cached_rows: final(self).cached_rows,
                tree_dirty: false,
                selected_sidebar_targets: final(self).selected_sidebar_targets,
                selection_anchor_sidebar_target: None,
                focused_sidebar_target: final(self).focused_sidebar_target,
                ..*old(self)
            }),
    {
        self.active_pane = ActivePane::Sidebar;
        self.clear_explicit_selection();
        self.focused_sidebar_target = Some(SidebarTarget::Root);
        self.toggle_root(recursive);
        self.settle_rows();
    }

    /// A click on a directory row's toggle: the directory is focused and expanded or
    /// collapsed (see `dirs_after_toggle`), the explicit selection is dropped and the rows
    /// are rebuilt.
    pub fn toggle_dir_row(&mut self, path: String, recursive: bool)
        ensures
            final(self).expanded_dirs@ == dirs_after_toggle(*old(self), path@, recursive),
            row_views(final(self).cached_rows@) == model_rows(
                model_tree(old(self).files@),
                old(self).tree_root_name@,
                old(self).tree_root_expanded,
                dirs_after_toggle(*old(self), path@, recursive),
            ),
            final(self).selected_sidebar_targets@ == Set::<TargetView>::empty(),
            focus_after_rows(*final(self), TargetView::Dir(path@), final(self).focused_sidebar_target),
            *final(self) == (State {
                active_pane: ActivePane::Sidebar,
                expanded_dirs: final(self).expanded_dirs,
                cached_rows: final(self).cached_rows,
                tree_dirty: false,
                selected_sidebar_targets: final(self).selected_sidebar_targets,
                selection_anchor_sidebar_target: None,
                focused_sidebar_target: final(self).focused_sidebar_target,
                ..*old(self)
            }),
    {
        self.active_pane = ActivePane::Sidebar;
        self.clear_explicit_selection();
        self.toggle_dir(&path, recursive);
        self.focused_sidebar_target = Some(SidebarTarget::Dir(path));
        self.settle_rows();
    }

    /// A click on a file row: the file is selected (see `select_file`), the explicit
    /// selection is dropped and the file list has the keyboard.
    pub fn select_file_row(&mut self, index: usize) -> (r: Option<u64>)
        ensures
            final(self).selected_sidebar_targets@ == Set::<TargetView>::empty(),
            index >= old(self).files@.len() ==> r is None && *final(self) == (State {
                active_pane: ActivePane::Sidebar,
                changes_focus: ChangesFocus::FileList,
                selected_sidebar_targets: final(self).selected_sidebar_targets,
                selection_anchor_sidebar_target: None,
                ..*old(self)
            }),
            index < old(self).files@.len() ==> ({
                let p = old(self).files@[index as int].path@;
                &&& r == Some(final(self).active_diff_request)
                &&& final(self).selected_file == Some(index)
                &&& final(self).selected_path matches Some(s) && s@ == p
                &&& final(self).focused_sidebar_target matches Some(t) && t@ == TargetView::File(p)
                &&& final(self).tree_root_expanded
                &&& final(self).expanded_dirs@ == old(self).expanded_dirs@.union(parent_paths(p))
                &&& !final(self).tree_dirty
                &&& row_views(final(self).cached_rows@) == model_rows(
                    model_tree(old(self).files@),
                    old(self).tree_root_name@,
                    true,
                    old(self).expanded_dirs@.union(parent_paths(p)),
                )
                &&& final(self).active_diff_request == wrapping_next(old(self).active_diff_request)
            }),
            *final(self) == (State {
                active_pane: ActivePane::Sidebar,
                changes_focus: ChangesFocus::FileList,
                selected_sidebar_targets: final(self).selected_sidebar_targets,
                selection_anchor_sidebar_target: None,
                selected_file: final(self).selected_file,
                selected_path: final(self).selected_path,
                focused_sidebar_target: final(self).focused_sidebar_target,
                tree_root_expanded: final(self).tree_root_expanded,
                expanded_dirs: final(self).expanded_dirs,
                tree_dirty: final(self).tree_dirty,
                cached_rows: final(self).cached_rows,
                active_diff_request: final(self).active_diff_request,
                ..*old(self)
            }),
    {
        self.active_pane = ActivePane::Sidebar;
        self.changes_focus = ChangesFocus::FileList;
        self.clear_explicit_selection();
        self.select_file(index)
    }
}

} // verus!
