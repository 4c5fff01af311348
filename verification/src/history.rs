use vstd::prelude::*;
use crate::git::diff::{ChangedFile, FileDiff, FileStatus};
use crate::shortcuts::{Key, KeyboardEvent, NamedKey};
use crate::sidebar::{focus_ensured, wrapping_next, State};
use crate::state::{ActivePane, ChangesFocus, Commit, HistoryFocus, SidebarTab, StatusMessage, StatusTone};

verus! {

/// How many commits one page of the history holds.
pub const COMMITS_PER_PAGE: usize = 50;

/// What the history tab asks to be loaded next.
#[derive(Debug)]
pub enum HistoryLoad {
    Nothing,
    /// The page of commits that follows the first `skip` ones.
    Commits { skip: usize },
    /// The files that the commit with this hash changed.
    CommitFiles { hash: String },
    /// The diff of one file of a commit, answered under `request_id`.
    FileDiff { request_id: u64, hash: String, path: String, status: FileStatus },
}

/// The state once the commit at `index` is selected, but for the list of its files,
/// which is emptied.
pub open spec fn after_select_commit(s: State, index: usize) -> State {
    State {
        history_focus: HistoryFocus::CommitList,
        selected_commit: Some(index),
        history_selected_file: None,
        history_selected_path: None,
        history_diff: None,
        history_commit_header: if index < s.commits@.len() {
            Some(s.commits@[index as int])
        } else {
            s.history_commit_header
        },
        ..s
    }
}

/// What selecting the commit at `index` asks to load: its files, if it exists.
pub open spec fn select_commit_load(s: State, index: usize) -> HistoryLoad {
    if index < s.commits@.len() {
        HistoryLoad::CommitFiles { hash: s.commits@[index as int].hash }
    } else {
        HistoryLoad::Nothing
    }
}

/// The file at `index` of the selected commit can be shown.
pub open spec fn history_file_loadable(s: State, index: usize) -> bool {
    &&& index < s.commit_files@.len()
    &&& s.selected_commit matches Some(c)
    &&& c < s.commits@.len()
}

/// The state once the file at `index` of the selected commit is selected.
pub open spec fn after_select_history_file(s: State, index: usize) -> State {
    if history_file_loadable(s, index) {
        State {
            history_focus: HistoryFocus::FileList,
            history_selected_file: Some(index),
            history_selected_path: Some(s.commit_files@[index as int].path),
            active_diff_request: wrapping_next(s.active_diff_request),
            ..s
        }
    } else {
        State { history_focus: HistoryFocus::FileList, ..s }
    }
}

/// What selecting the file at `index` of the selected commit asks to load.
pub open spec fn select_history_file_load(s: State, index: usize) -> HistoryLoad {
    if history_file_loadable(s, index) {
        HistoryLoad::FileDiff {
            request_id: wrapping_next(s.active_diff_request),
            hash: s.commits@[s.selected_commit->0 as int].hash,
            path: s.commit_files@[index as int].path,
            status: s.commit_files@[index as int].status,
        }
    } else {
        HistoryLoad::Nothing
    }
}

/// The position one down from `cur` in a list of `count` entries (`count > 0`).
pub open spec fn step_down(cur: usize, count: usize) -> usize {
    if cur < count - 1 {
        (cur + 1) as usize
    } else {
        (count - 1) as usize
    }
}

/// The position one up from `cur`.
pub open spec fn step_up(cur: usize) -> usize {
    if cur > 0 {
        (cur - 1) as usize
    } else {
        0
    }
}

/// What a key press in the history tab did.
#[derive(Debug)]
pub enum HistoryKey {
    Nothing,
    /// Another commit was selected; its files are to be loaded and the list scrolled to it.
    CommitSelected(HistoryLoad),
    /// Another file of the commit was selected; its diff is to be loaded.
    FileSelected(HistoryLoad),
    /// The keyboard moved to the file list.
    FocusFiles,
    /// The keyboard moved to the diff.
    FocusDiff,
}

/// The named key of a key press.
pub open spec fn pressed_named(event: KeyboardEvent) -> Option<NamedKey> {
    match event {
        KeyboardEvent::KeyPressed { key: Key::Named(k), .. } => Some(k),
        _ => None,
    }
}

/// The named key of a key press, if the event is one.
pub fn named_key_pressed(event: &KeyboardEvent) -> (r: Option<NamedKey>)
    ensures
        r == pressed_named(*event),
{
    match event {
        KeyboardEvent::KeyPressed { key: Key::Named(k), .. } => Some(*k),
        _ => None,
    }
}

/// `f` is `s` once the history showed up: the first page of commits is being loaded if
/// none is there or loading, else the selected commit (the first one if none is) is
/// selected again, asking for its files.
pub open spec fn history_entered(s: State, f: State, load: HistoryLoad) -> bool {
    if s.commits@.len() == 0 {
        if !s.commits_loading {
            f == (State { commits_loading: true, ..s }) && load == (HistoryLoad::Commits { skip: 0 })
        } else {
            f == s && load is Nothing
        }
    } else {
        let index: usize = match s.selected_commit {
            Some(i) => i,
            None => 0,
        };
        &&& f == (State { commit_files: f.commit_files, ..after_select_commit(s, index) })
        &&& f.commit_files@.len() == 0
        &&& load == select_commit_load(s, index)
    }
}

/// `f` is `s` once the sidebar switched to `tab` (see `switch_sidebar_tab`).
pub open spec fn tab_switched(s: State, f: State, tab: SidebarTab, load: HistoryLoad) -> bool {
    &&& s.sidebar_tab == tab ==> f == s && load is Nothing
    &&& s.sidebar_tab != tab && tab == SidebarTab::Changes ==> {
        &&& f == (State {
            sidebar_tab: tab,
            changes_focus: ChangesFocus::FileList,
            active_pane: ActivePane::Sidebar,
            history_diff: None,
            history_commit_header: None,
            focused_sidebar_target: f.focused_sidebar_target,
            ..s
        })
        &&& focus_ensured(s, f.focused_sidebar_target)
        &&& load is Nothing
    }
    &&& s.sidebar_tab != tab && tab == SidebarTab::History ==> history_entered(
        State { sidebar_tab: tab, history_focus: HistoryFocus::CommitList, ..s },
        f,
        load,
    )
}

impl State {
    /// Marks a page of commits as loading: the one after the first `skip` commits.
    pub fn load_commits_page(&mut self, skip: usize) -> (load: HistoryLoad)
        ensures
            *final(self) == (State { commits_loading: true, ..*old(self) }),
            load == (HistoryLoad::Commits { skip }),
    {
        self.commits_loading = true;
        HistoryLoad::Commits { skip }
    }

    /// Selects the commit at `index`: the history's file list and diff are cleared, and
    /// the commit's files are to be loaded if the commit exists.
    pub fn select_commit(&mut self, index: usize) -> (load: HistoryLoad)
        ensures
            *final(self) == (State {
                commit_files: final(self).commit_files,
                ..after_select_commit(*old(self), index)
            }),
            final(self).commit_files@.len() == 0,
            load == select_commit_load(*old(self), index),
    {
        self.history_focus = HistoryFocus::CommitList;
        self.selected_commit = Some(index);
        self.history_selected_file = None;
        self.history_selected_path = None;
        self.history_diff = None;
        self.commit_files.clear();
        if index >= self.commits.len() {
            return HistoryLoad::Nothing;
        }
        let commit = self.commits[index].copy();
        let hash = commit.hash.clone();
        self.history_commit_header = Some(commit);
        HistoryLoad::CommitFiles { hash }
    }

    /// Moves the keyboard to the commit list and asks for what the history shows: the
    /// first page of commits if none is there or loading, else the files of the selected
    /// commit (the first one if none is selected).
    fn enter_history(&mut self) -> (load: HistoryLoad)
        ensures
            history_entered(State { history_focus: HistoryFocus::CommitList, ..*old(self) }, *final(self), load),
    {
        self.history_focus = HistoryFocus::CommitList;
        if self.commits.len() == 0 {
            if !self.commits_loading {
                self.load_commits_page(0)
            } else {
                HistoryLoad::Nothing
            }
        } else {
            match self.selected_commit {
                Some(index) => self.select_commit(index),
                None => self.select_commit(0),
            }
        }
    }

    /// Switches the sidebar to `tab`. Entering the history loads the first page of
    /// commits if none is there or loading, else selects the selected commit again (the
    /// first one if none is); entering the changes forgets the history's diff and commit
    /// and gives the keyboard to the file list, with a row focused (see `focus_ensured`).
    pub fn switch_sidebar_tab(&mut self, tab: SidebarTab) -> (load: HistoryLoad)
        ensures
            tab_switched(*old(self), *final(self), tab, load),
    {
        if self.sidebar_tab == tab {
            return HistoryLoad::Nothing;
        }
        self.sidebar_tab = tab;
        match tab {
            SidebarTab::History => self.enter_history(),
            SidebarTab::Changes => {
                self.changes_focus = ChangesFocus::FileList;
                self.active_pane = ActivePane::Sidebar;
                self.history_diff = None;
                self.history_commit_header = None;
                self.ensure_sidebar_focus();
                HistoryLoad::Nothing
            },
        }
    }

    /// Adds a loaded page after the commits there; a page shorter than a full one marks
    /// the history as complete.
    fn add_commits_page(&mut self, page: Vec<Commit>)
        ensures
            final(self).commits@ == old(self).commits@ + page@,
            *final(self) == (State {
                commits_loading: false,
                commits_exhausted: old(self).commits_exhausted || page@.len() < COMMITS_PER_PAGE,
                commits: final(self).commits,
                ..*old(self)
            }),
    {
        self.commits_loading = false;
        let mut page = page;
        if page.len() < COMMITS_PER_PAGE {
            self.commits_exhausted = true;
        }
        let mut commits = Vec::new();
        std::mem::swap(&mut commits, &mut self.commits);
        commits.append(&mut page);
        self.commits = commits;
    }

    /// Takes a loaded page of commits: they are added after the ones there, a short page
    /// marks the history as complete, and the first commit is selected when the list was
    /// empty and nothing was selected. A failure is shown in the status bar.
    pub fn commits_loaded(&mut self, result: Result<Vec<Commit>, String>) -> (load: HistoryLoad)
        ensures
            match result {
                Ok(page) => {
                    let s = State {
                        commits_loading: false,
                        commits_exhausted: old(self).commits_exhausted || page@.len() < COMMITS_PER_PAGE,
                        commits: final(self).commits,
                        ..*old(self)
                    };
                    &&& final(self).commits@ == old(self).commits@ + page@
                    &&& if old(self).commits@.len() == 0 && page@.len() > 0 && old(self).selected_commit is None {
                        &&& *final(self) == (State {
                            commit_files: final(self).commit_files,
                            ..after_select_commit(s, 0)
                        })
                        &&& final(self).commit_files@.len() == 0
                        &&& load == select_commit_load(s, 0)
                    } else {
                        *final(self) == s && load is Nothing
                    }
                },
                Err(e) => {
                    &&& *final(self) == (State {
                        commits_loading: false,
                        status_message: Some(StatusMessage { text: e, tone: StatusTone::Error }),
                        ..*old(self)
                    })
                    &&& load is Nothing
                },
            },
    {
        match result {
            Ok(page) => {
                let was_empty = self.commits.len() == 0;
                self.add_commits_page(page);
                if was_empty && self.commits.len() > 0 && self.selected_commit.is_none() {
                    return self.select_commit(0);
                }
                HistoryLoad::Nothing
            },
            Err(error) => {
                self.commits_loading = false;
                self.set_status_message(error, StatusTone::Error);
                HistoryLoad::Nothing
            },
        }
    }
}

impl State {
    /// Selects the file at `index` of the selected commit and asks for its diff; the
    /// keyboard moves to the file list in any case.
    pub fn select_history_file(&mut self, index: usize) -> (load: HistoryLoad)
        ensures
            *final(self) == after_select_history_file(*old(self), index),
            load == select_history_file_load(*old(self), index),
    {
        self.history_focus = HistoryFocus::FileList;
        if index >= self.commit_files.len() {
            return HistoryLoad::Nothing;
        }
        let c = match self.selected_commit {
            Some(c) => c,
            None => {
                return HistoryLoad::Nothing;
            },
        };
        if c >= self.commits.len() {
            return HistoryLoad::Nothing;
        }
        let path = self.commit_files[index].path.clone();
        let status = self.commit_files[index].status;
        let hash = self.commits[c].hash.clone();
        self.history_selected_file = Some(index);
        self.history_selected_path = Some(path.clone());
        let request_id = self.next_diff_request();
        HistoryLoad::FileDiff { request_id, hash, path, status }
    }

    /// Takes the loaded files of the selected commit and selects the first of them. A
    /// failure is shown in the status bar.
    pub fn commit_files_loaded(&mut self, result: Result<Vec<ChangedFile>, String>) -> (load: HistoryLoad)
        ensures
            match result {
                Ok(files) => {
                    let s = State { commit_files: files, ..*old(self) };
                    if files@.len() > 0 {
                        *final(self) == after_select_history_file(s, 0)
                            && load == select_history_file_load(s, 0)
                    } else {
                        *final(self) == s && load is Nothing
                    }
                },
                Err(e) => {
                    &&& *final(self) == (State {
                        status_message: Some(StatusMessage { text: e, tone: StatusTone::Error }),
                        ..*old(self)
                    })
                    &&& load is Nothing
                },
            },
    {
        match result {
            Ok(files) => {
                self.commit_files = files;
                if self.commit_files.len() > 0 {
                    return self.select_history_file(0);
                }
                HistoryLoad::Nothing
            },
            Err(error) => {
                self.set_status_message(error, StatusTone::Error);
                HistoryLoad::Nothing
            },
        }
    }

    /// Takes a loaded diff of a commit's file: an answer to an older request is dropped;
    /// a diff is kept and `true` returned (the editor shows it), a failure is shown in
    /// the status bar.
    pub fn history_diff_loaded(&mut self, request_id: u64, result: Result<FileDiff, String>) -> (shown: bool)
        ensures
            request_id != old(self).active_diff_request ==> *final(self) == *old(self) && !shown,
            request_id == old(self).active_diff_request ==> match result {
                Ok(d) => *final(self) == (State { history_diff: Some(d), ..*old(self) }) && shown,
                Err(e) => {
                    &&& *final(self) == (State {
                        status_message: Some(StatusMessage { text: e, tone: StatusTone::Error }),
                        ..*old(self)
                    })
                    &&& !shown
                },
            },
    {
        if request_id != self.active_diff_request {
            return false;
        }
        match result {
            Ok(diff) => {
                self.history_diff = Some(diff);
                true
            },
            Err(error) => {
                self.set_status_message(error, StatusTone::Error);
                false
            },
        }
    }

    /// Asks for the next page of commits, unless one is loading or the history is
    /// complete.
    pub fn load_more_commits(&mut self) -> (load: HistoryLoad)
        ensures
            old(self).commits_loading || old(self).commits_exhausted ==> *final(self) == *old(self)
                && load is Nothing,
            !old(self).commits_loading && !old(self).commits_exhausted ==> {
                &&& *final(self) == (State { commits_loading: true, ..*old(self) })
                &&& load == (HistoryLoad::Commits { skip: old(self).commits@.len() as usize })
            },
    {
        if self.commits_loading || self.commits_exhausted {
            return HistoryLoad::Nothing;
        }
        let skip = self.commits.len();
        self.load_commits_page(skip)
    }
}

/// The selected position, or the first one when none is selected.
pub open spec fn or_first(i: Option<usize>) -> usize {
    match i {
        Some(i) => i,
        None => 0,
    }
}

impl State {
    /// Arrow keys move the commit selection by one; Enter moves the keyboard to the file
    /// list once the selected commit's files are there.
    #[verifier::rlimit(80)]
    fn commit_list_key(&mut self, key: NamedKey) -> (r: HistoryKey)
        ensures
            ({
                let s = *old(self);
                let cur = or_first(s.selected_commit);
                let count = s.commits@.len();
                let next = if key == NamedKey::ArrowDown {
                    step_down(cur, count as usize)
                } else {
                    step_up(cur)
                };
                if (key == NamedKey::ArrowDown && count > 0 || key == NamedKey::ArrowUp) && next != cur {
                    &&& *final(self) == (State {
                        commit_files: final(self).commit_files,
                        ..after_select_commit(s, next)
                    })
                    &&& final(self).commit_files@.len() == 0
                    &&& r == HistoryKey::CommitSelected(select_commit_load(s, next))
                } else if key == NamedKey::Enter && s.selected_commit is Some && s.commit_files@.len() > 0 {
                    *final(self) == (State { history_focus: HistoryFocus::FileList, ..s }) && r is FocusFiles
                } else {
                    *final(self) == s && r is Nothing
                }
            }),
    {
        let cur = match self.selected_commit {
            Some(i) => i,
            None => 0,
        };
        match key {
            NamedKey::ArrowDown => {
                let count = self.commits.len();
                if count == 0 {
                    return HistoryKey::Nothing;
                }
                let next = if cur < count - 1 {
                    cur + 1
                } else {
                    count - 1
                };
                if next != cur {
                    HistoryKey::CommitSelected(self.select_commit(next))
                } else {
                    HistoryKey::Nothing
                }
            },
            NamedKey::ArrowUp => {
                let next = if cur > 0 {
                    cur - 1
                } else {
                    0
                };
                if next != cur {
                    HistoryKey::CommitSelected(self.select_commit(next))
                } else {
                    HistoryKey::Nothing
                }
            },
            NamedKey::Enter => {
                if self.selected_commit.is_some() && self.commit_files.len() > 0 {
                    self.history_focus = HistoryFocus::FileList;
                    HistoryKey::FocusFiles
                } else {
                    HistoryKey::Nothing
                }
            },
            _ => HistoryKey::Nothing,
        }
    }

    /// Arrow keys move the file selection by one; Enter moves the keyboard to the diff
    /// once it is there.
    #[verifier::rlimit(80)]
    fn history_file_list_key(&mut self, key: NamedKey) -> (r: HistoryKey)
        ensures
            ({
                let s = *old(self);
                let cur = or_first(s.history_selected_file);
                let count = s.commit_files@.len();
                let next = if key == NamedKey::ArrowDown {
                    step_down(cur, count as usize)
                } else {
                    step_up(cur)
                };
                if (key == NamedKey::ArrowDown && count > 0 || key == NamedKey::ArrowUp) && next != cur {
                    *final(self) == after_select_history_file(s, next)
                        && r == HistoryKey::FileSelected(select_history_file_load(s, next))
                } else if key == NamedKey::Enter && s.history_diff is Some {
                    *final(self) == (State { history_focus: HistoryFocus::DiffView, ..s }) && r is FocusDiff
                } else {
                    *final(self) == s && r is Nothing
                }
            }),
    {
        let cur = match self.history_selected_file {
            Some(i) => i,
            None => 0,
        };
        match key {
            NamedKey::ArrowDown => {
                let count = self.commit_files.len();
                if count == 0 {
                    return HistoryKey::Nothing;
                }
                let next = if cur < count - 1 {
                    cur + 1
                } else {
                    count - 1
                };
                if next != cur {
                    HistoryKey::FileSelected(self.select_history_file(next))
                } else {
                    HistoryKey::Nothing
                }
            },
            NamedKey::ArrowUp => {
                let next = if cur > 0 {
                    cur - 1
                } else {
                    0
                };
                if next != cur {
                    HistoryKey::FileSelected(self.select_history_file(next))
                } else {
                    HistoryKey::Nothing
                }
            },
            NamedKey::Enter => {
                if self.history_diff.is_some() {
                    self.history_focus = HistoryFocus::DiffView;
                    HistoryKey::FocusDiff
                } else {
                    HistoryKey::Nothing
                }
            },
            _ => HistoryKey::Nothing,
        }
    }

    /// Handles a key press in the history tab: in the commit list and the file list the
    /// arrow keys move the selection and Enter moves on to the next pane (see
    /// `commit_list_key` and `history_file_list_key`); the diff handles its own keys.
    pub fn history_key(&mut self, event: &KeyboardEvent) -> (r: HistoryKey)
        ensures
            ({
                let s = *old(self);
                match pressed_named(*event) {
                    Some(key) => match s.history_focus {
                        HistoryFocus::CommitList => {
                            let cur = or_first(s.selected_commit);
                            let count = s.commits@.len();
                            let next = if key == NamedKey::ArrowDown {
                                step_down(cur, count as usize)
                            } else {
                                step_up(cur)
                            };
                            if (key == NamedKey::ArrowDown && count > 0 || key == NamedKey::ArrowUp) && next != cur {
                                &&& *final(self) == (State {
                                    commit_files: final(self).commit_files,
                                    ..after_select_commit(s, next)
                                })
                                &&& final(self).commit_files@.len() == 0
                                &&& r == HistoryKey::CommitSelected(select_commit_load(s, next))
                            } else if key == NamedKey::Enter && s.selected_commit is Some
                                && s.commit_files@.len() > 0 {
                                *final(self) == (State { history_focus: HistoryFocus::FileList, ..s })
                                    && r is FocusFiles
                            } else {
                                *final(self) == s && r is Nothing
                            }
                        },
                        HistoryFocus::FileList => {
                            let cur = or_first(s.history_selected_file);
                            let count = s.commit_files@.len();
                            let next = if key == NamedKey::ArrowDown {
                                step_down(cur, count as usize)
                            } else {
                                step_up(cur)
                            };
                            if (key == NamedKey::ArrowDown && count > 0 || key == NamedKey::ArrowUp) && next != cur {
                                *final(self) == after_select_history_file(s, next)
                                    && r == HistoryKey::FileSelected(select_history_file_load(s, next))
                            } else if key == NamedKey::Enter && s.history_diff is Some {
                                *final(self) == (State { history_focus: HistoryFocus::DiffView, ..s })
                                    && r is FocusDiff
                            } else {
                                *final(self) == s && r is Nothing
                            }
                        },
                        HistoryFocus::DiffView => *final(self) == s && r is Nothing,
                    },
                    None => *final(self) == s && r is Nothing,
                }
            }),
    {
        let key = match named_key_pressed(event) {
            Some(k) => k,
            None => {
                return HistoryKey::Nothing;
            },
        };
        match self.history_focus {
            HistoryFocus::CommitList => self.commit_list_key(key),
            HistoryFocus::FileList => self.history_file_list_key(key),
            HistoryFocus::DiffView => HistoryKey::Nothing,
        }
    }
}

} // verus!
