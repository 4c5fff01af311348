use vstd::prelude::*;
use crate::config::{push_recent_repo, recent_after};
use crate::git::cli::string_views;
use crate::history::{named_key_pressed, pressed_named, step_down, step_up};
use crate::shortcuts::{KeyboardEvent, NamedKey};
use crate::sidebar::{count_staged, count_unstaged, dedup_first, paths_for_targets, targeted, State, TargetView};
use crate::state::{
    filter_items, others, plural, repo_names, shows_create, ActivePane, BranchPicker, ChangesFocus, CommitComposer, DiscardButton,
    DiscardConfirm, HistoryFocus, ProjectPicker, SidebarTab, StatusMessage, StatusTone,
};
use crate::text::{decimal, push_decimal, push_str, spec_trim, trim};
use crate::watch::Event;

verus! {

/// The status line after a commit: `Committed <sha> — <summary>`.
pub open spec fn committed_text(sha: Seq<char>, summary: Seq<char>) -> Seq<char> {
    "Committed "@ + sha + " — "@ + summary
}

/// The status line shown after the commit `sha` with `summary` was made.
pub fn committed_message(sha: &str, summary: &str) -> (r: String)
    ensures
        r@ == committed_text(sha@, summary@),
{
    proof {
        reveal_strlit("Committed ");
        reveal_strlit(" — ");
    }
    let mut r = "Committed ".to_owned();
    push_str(&mut r, sha);
    push_str(&mut r, " — ");
    push_str(&mut r, summary);
    r
}

/// `prefix` followed by `name`, as a new string.
fn prefixed(prefix: &str, name: &str) -> (r: String)
    ensures
        r@ == prefix@ + name@,
{
    let mut r = prefix.to_owned();
    push_str(&mut r, name);
    r
}

/// A copy of a list of strings.
pub fn copy_strings(v: &Vec<String>) -> (r: Vec<String>)
    ensures
        r@ == v@,
{
    let mut r: Vec<String> = Vec::new();
    let mut i: usize = 0;
    while i < v.len()
        invariant
            i <= v@.len(),
            r@ == v@.take(i as int),
        decreases v@.len() - i,
    {
        r.push(v[i].clone());
        proof {
            assert(v@.take(i + 1) =~= v@.take(i as int).push(v@[i as int]));
        }
        i = i + 1;
    }
    proof {
        assert(v@.take(v@.len() as int) =~= v@);
    }
    r
}

/// Why a commit cannot be made, if it cannot.
pub open spec fn commit_blocker(summary: Seq<char>, staged: nat) -> Option<Seq<char>> {
    if spec_trim(summary).len() == 0 {
        Some("Enter a commit summary"@)
    } else if staged == 0 {
        Some("No staged changes to commit"@)
    } else {
        None
    }
}

/// `f` is `s` with the commit composer open (keeping a message already being written,
/// without an error) and the keyboard in the sidebar.
pub open spec fn composer_opened(s: State, f: State) -> bool {
    &&& f == (State { active_pane: ActivePane::Sidebar, commit_composer: f.commit_composer, ..s })
    &&& f.commit_composer matches Some(c) && c.error is None && match s.commit_composer {
        Some(o) => c.summary == o.summary && c.submitting == o.submitting,
        None => c.summary@ == Seq::<char>::empty() && !c.submitting,
    }
}

impl State {
    /// Opens the commit composer, keeping a message already being written, and clears
    /// its error; the keyboard leaves the diff.
    pub fn open_commit_composer(&mut self)
        ensures
            composer_opened(*old(self), *final(self)),
    {
        self.active_pane = ActivePane::Sidebar;
        let mut composer = match self.commit_composer.take() {
            Some(c) => c,
            None => CommitComposer::new(),
        };
        composer.error = None;
        self.commit_composer = Some(composer);
    }

    /// Closes the commit composer and gives the keyboard back to the sidebar.
    pub fn close_commit_composer(&mut self)
        ensures
            *final(self) == (State {
                commit_composer: None,
                active_pane: ActivePane::Sidebar,
                ..*old(self)
            }),
    {
        self.commit_composer = None;
        self.active_pane = ActivePane::Sidebar;
    }

    /// Takes the edited summary of the open composer and clears its error.
    pub fn commit_summary_changed(&mut self, summary: String)
        ensures
            *final(self) == (State {
                commit_composer: match old(self).commit_composer {
                    Some(c) => Some(CommitComposer { summary, error: None, ..c }),
                    None => None,
                },
                ..*old(self)
            }),
    {
        if let Some(composer) = self.commit_composer.as_mut() {
            composer.summary = summary;
            composer.error = None;
        }
    }

    /// Starts a commit from the open composer: returns the trimmed summary to commit
    /// with. A blank summary or nothing staged is refused with a message in the
    /// composer (see `commit_blocker`); nothing happens while a commit is under way.
    pub fn submit_commit(&mut self) -> (r: Option<String>)
        ensures
            match old(self).commit_composer {
                None => *final(self) == *old(self) && r is None,
                Some(c) => match commit_blocker(c.summary@, crate::sidebar::count_staged(old(self).files@)) {
                    Some(msg) => {
                        &&& final(self).commit_composer matches Some(f) && f.error matches Some(e) && e@ == msg
                        &&& *final(self) == (State {
                            commit_composer: Some(CommitComposer {
                                error: final(self).commit_composer->0.error,
                                ..c
                            }),
                            ..*old(self)
                        })
                        &&& r is None
                    },
                    None => if c.submitting {
                        *final(self) == *old(self) && r is None
                    } else {
                        &&& *final(self) == (State {
                            commit_composer: Some(CommitComposer { submitting: true, error: None, ..c }),
                            ..*old(self)
                        })
                        &&& r matches Some(s) && s@ == spec_trim(c.summary@)
                    },
                },
            },
    {
        let staged_count = self.staged_file_count();
        let composer = match self.commit_composer.as_mut() {
            Some(c) => c,
            None => {
                return None;
            },
        };
        proof {
            reveal_strlit("Enter a commit summary");
            reveal_strlit("No staged changes to commit");
        }
        let summary = trim(composer.summary.as_str());
        if summary.is_empty() {
            composer.error = Some("Enter a commit summary".to_owned());
            return None;
        }
        if staged_count == 0 {
            composer.error = Some("No staged changes to commit".to_owned());
            return None;
        }
        if composer.submitting {
            return None;
        }
        let owned = summary.to_owned();
        composer.submitting = true;
        composer.error = None;
        Some(owned)
    }

    /// Takes the outcome of a commit: on success the composer closes, `message` shows
    /// in the status bar and the files are to be reloaded (returns whether to start the
    /// load now); on failure the composer shows the error and can submit again.
    pub fn commit_finished(&mut self, result: Result<String, String>) -> (start: bool)
        ensures
            match result {
                Ok(message) => {
                    &&& *final(self) == (State {
                        commit_composer: None,
                        status_message: Some(StatusMessage { text: message, tone: StatusTone::Success }),
                        refresh_in_flight: true,
                        refresh_queued: old(self).refresh_in_flight,
                        ..*old(self)
                    })
                    &&& start == !old(self).refresh_in_flight
                },
                Err(e) => {
                    &&& *final(self) == (State {
                        commit_composer: match old(self).commit_composer {
                            Some(c) => Some(CommitComposer { submitting: false, error: Some(e), ..c }),
                            None => None,
                        },
                        ..*old(self)
                    })
                    &&& !start
                },
            },
    {
        match result {
            Ok(message) => {
                self.commit_composer = None;
                self.set_status_message(message, StatusTone::Success);
                self.queue_refresh()
            },
            Err(error) => {
                if let Some(composer) = self.commit_composer.as_mut() {
                    composer.submitting = false;
                    composer.error = Some(error);
                }
                false
            },
        }
    }

    /// Takes the outcome of a git operation (staging, discarding, ...): its message
    /// shows in the status bar, and after a success the files are to be reloaded
    /// (returns whether to start the load now).
    pub fn git_operation_finished(&mut self, result: Result<String, String>) -> (start: bool)
        ensures
            match result {
                Ok(message) => {
                    &&& *final(self) == (State {
                        status_message: Some(StatusMessage { text: message, tone: StatusTone::Success }),
                        refresh_in_flight: true,
                        refresh_queued: old(self).refresh_in_flight,
                        ..*old(self)
                    })
                    &&& start == !old(self).refresh_in_flight
                },
                Err(e) => {
                    &&& *final(self) == (State {
                        status_message: Some(StatusMessage { text: e, tone: StatusTone::Error }),
                        ..*old(self)
                    })
                    &&& !start
                },
            },
    {
        match result {
            Ok(message) => {
                self.set_status_message(message, StatusTone::Success);
                self.queue_refresh()
            },
            Err(error) => {
                self.set_status_message(error, StatusTone::Error);
                false
            },
        }
    }
}

/// The branches that the picker lists under its filter.
pub open spec fn picker_branches(p: BranchPicker) -> Seq<Seq<char>> {
    filter_items(string_views(p.branches@), string_views(p.branches@), p.filter@)
}

/// The branch under the picker's selection, or the empty name when none is.
pub open spec fn picked_branch(p: Option<BranchPicker>) -> Seq<char> {
    match p {
        Some(p) => if p.selected_index < picker_branches(p).len() {
            picker_branches(p)[p.selected_index as int]
        } else {
            Seq::empty()
        },
        None => Seq::empty(),
    }
}

/// How many items the picker lists: the "create" item, when shown, and the branches.
pub open spec fn picker_item_count(p: BranchPicker) -> int {
    picker_branches(p).len() + if shows_create(p) { 1int } else { 0int }
}

/// The picker's selection one item down, staying on the last item.
pub open spec fn picker_down(p: BranchPicker) -> usize {
    if picker_item_count(p) > 0 {
        if p.selected_index < picker_item_count(p) - 1 {
            (p.selected_index + 1) as usize
        } else {
            (picker_item_count(p) - 1) as usize
        }
    } else {
        p.selected_index
    }
}

/// The arrow keys keep the branch picker's selection on one of its items: moved down
/// or up, a selection on an item stays on an item.
pub proof fn lemma_branch_selection_stays_on_items(p: BranchPicker)
    requires
        p.selected_index < picker_item_count(p),
    ensures
        picker_down(p) < picker_item_count(p),
        step_up(p.selected_index) < picker_item_count(p),
{
}

/// What a key press in the branch picker asks for.
pub enum BranchKey {
    Nothing,
    /// Create the branch with this name and switch to it.
    CreateBranch(String),
    /// Switch to this branch.
    SwitchBranch(String),
}

/// The name typed into the picker's filter, or the empty name without a picker.
pub open spec fn typed_branch(p: Option<BranchPicker>) -> Seq<char> {
    match p {
        Some(p) => p.filter@,
        None => Seq::empty(),
    }
}

impl State {
    /// Opens the branch picker (returns `true`: the branches are to be listed), or
    /// closes it when it is open.
    pub fn open_branch_picker(&mut self) -> (fetch: bool)
        ensures
            fetch == old(self).branch_picker is None,
            *final(self) == (State { branch_picker: None, ..*old(self) }),
    {
        if self.branch_picker.is_some() {
            self.branch_picker = None;
            return false;
        }
        true
    }

    /// Closes the branch picker.
    pub fn close_branch_picker(&mut self)
        ensures
            *final(self) == (State { branch_picker: None, ..*old(self) }),
    {
        self.branch_picker = None;
    }

    /// Takes the listed branches and the current one: the picker opens over them
    /// (returns `true`: its filter takes the keyboard). A failure is shown in the status
    /// bar.
    pub fn branches_fetched(&mut self, result: Result<(Vec<String>, String), String>) -> (focus: bool)
        ensures
            match result {
                Ok((branches, current)) => {
                    &&& final(self).branch_picker matches Some(p) && p.branches == branches && p.current
                        == current && p.filter@ == Seq::<char>::empty() && p.selected_index == 0
                        && p.error is None
                    &&& *final(self) == (State {
                        current_branch: Some(current),
                        branch_picker: final(self).branch_picker,
                        ..*old(self)
                    })
                    &&& focus
                },
                Err(e) => {
                    &&& *final(self) == (State {
                        status_message: Some(StatusMessage { text: e, tone: StatusTone::Error }),
                        ..*old(self)
                    })
                    &&& !focus
                },
            },
    {
        match result {
            Ok((branches, current)) => {
                self.current_branch = Some(current.clone());
                self.branch_picker = Some(BranchPicker::new(branches, current));
                true
            },
            Err(error) => {
                self.set_status_message(error, StatusTone::Error);
                false
            },
        }
    }

    /// Takes the picker's edited filter: the selection goes back to the top and the
    /// error is cleared.
    pub fn branch_picker_filter_changed(&mut self, filter: String)
        ensures
            *final(self) == (State {
                branch_picker: match old(self).branch_picker {
                    Some(p) => Some(BranchPicker { filter, selected_index: 0, error: None, ..p }),
                    None => None,
                },
                ..*old(self)
            }),
    {
        if let Some(picker) = self.branch_picker.as_mut() {
            picker.filter = filter;
            picker.selected_index = 0;
            picker.error = None;
        }
    }

    /// Asks to switch to `branch`: returns it, unless it is already the current one, in
    /// which case the picker just closes.
    pub fn switch_branch(&mut self, branch: String) -> (r: Option<String>)
        ensures
            (old(self).branch_picker matches Some(p) && p.current@ == branch@) ==> {
                &&& *final(self) == (State { branch_picker: None, ..*old(self) })
                &&& r is None
            },
            !(old(self).branch_picker matches Some(p) && p.current@ == branch@) ==> {
                &&& *final(self) == *old(self)
                &&& r == Some(branch)
            },
    {
        let same = match self.branch_picker.as_ref() {
            Some(p) => p.current == branch,
            None => false,
        };
        if same {
            self.branch_picker = None;
            return None;
        }
        Some(branch)
    }

    /// Moves the picker's selection one item down, staying on the last item.
    fn branch_picker_down(&mut self)
        ensures
            match old(self).branch_picker {
                Some(p) => *final(self) == (State {
                    branch_picker: Some(BranchPicker {
                        selected_index: picker_down(p),
                        ..p
                    }),
                    ..*old(self)
                }),
                None => *final(self) == *old(self),
            },
    {
        if let Some(picker) = self.branch_picker.as_mut() {
            let show = picker.should_show_create();
            let n = picker.filtered_branches().len();
            if show || n > 0 {
                let last = if show {
                    n
                } else {
                    n - 1
                };
                picker.selected_index = if picker.selected_index < last {
                    picker.selected_index + 1
                } else {
                    last
                };
            }
        }
    }

    /// Enter in the branch picker: asks to create the typed branch when the "create"
    /// item is selected, else to switch to the selected branch (see `switch_branch`).
    fn branch_picker_enter(&mut self) -> (r: BranchKey)
        ensures
            match old(self).branch_picker {
                Some(p) => if shows_create(p) && p.selected_index == 0 {
                    &&& *final(self) == *old(self)
                    &&& r matches BranchKey::CreateBranch(n) && n@ == p.filter@
                } else {
                    let k = p.selected_index - if shows_create(p) { 1int } else { 0int };
                    if k < picker_branches(p).len() {
                        if p.current@ == picker_branches(p)[k] {
                            &&& *final(self) == (State { branch_picker: None, ..*old(self) })
                            &&& r is Nothing
                        } else {
                            &&& *final(self) == *old(self)
                            &&& r matches BranchKey::SwitchBranch(n) && n@ == picker_branches(p)[k]
                        }
                    } else {
                        *final(self) == *old(self) && r is Nothing
                    }
                },
                None => *final(self) == *old(self) && r is Nothing,
            },
    {
        let picked = match self.branch_picker.as_ref() {
            Some(picker) => {
                let show = picker.should_show_create();
                let idx = picker.selected_index;
                if show && idx == 0 {
                    return BranchKey::CreateBranch(picker.filter.clone());
                }
                let offset: usize = if show {
                    1
                } else {
                    0
                };
                let filtered = picker.filtered_branches();
                if idx - offset < filtered.len() {
                    Some(filtered[idx - offset].to_owned())
                } else {
                    None
                }
            },
            None => None,
        };
        match picked {
            Some(branch) => match self.switch_branch(branch) {
                Some(b) => BranchKey::SwitchBranch(b),
                None => BranchKey::Nothing,
            },
            None => BranchKey::Nothing,
        }
    }

    /// Handles a key press while the branch picker is open: the arrow keys move the
    /// selection over its items (the "create" item first, when it is shown, then the
    /// listed branches), Enter asks to create the typed branch or to switch to the
    /// selected one (see `switch_branch`), Escape closes the picker.
    pub fn branch_picker_key(&mut self, event: &KeyboardEvent) -> (r: BranchKey)
        ensures
            match (old(self).branch_picker, pressed_named(*event)) {
                (Some(p), Some(NamedKey::ArrowDown)) => {
                    &&& *final(self) == (State {
                        branch_picker: Some(BranchPicker {
                            selected_index: picker_down(p),
                            ..p
                        }),
                        ..*old(self)
                    })
                    &&& r is Nothing
                },
                (Some(p), Some(NamedKey::ArrowUp)) => {
                    &&& *final(self) == (State {
                        branch_picker: Some(BranchPicker { selected_index: step_up(p.selected_index), ..p }),
                        ..*old(self)
                    })
                    &&& r is Nothing
                },
                (Some(p), Some(NamedKey::Enter)) => if shows_create(p) && p.selected_index == 0 {
                    &&& *final(self) == *old(self)
                    &&& r matches BranchKey::CreateBranch(n) && n@ == p.filter@
                } else {
                    let k = p.selected_index - if shows_create(p) { 1int } else { 0int };
                    if k < picker_branches(p).len() {
                        if p.current@ == picker_branches(p)[k] {
                            &&& *final(self) == (State { branch_picker: None, ..*old(self) })
                            &&& r is Nothing
                        } else {
                            &&& *final(self) == *old(self)
                            &&& r matches BranchKey::SwitchBranch(n) && n@ == picker_branches(p)[k]
                        }
                    } else {
                        *final(self) == *old(self) && r is Nothing
                    }
                },
                (_, Some(NamedKey::Escape)) => {
                    &&& *final(self) == (State { branch_picker: None, ..*old(self) })
                    &&& r is Nothing
                },
                _ => *final(self) == *old(self) && r is Nothing,
            },
    {
        let key = match named_key_pressed(event) {
            Some(k) => k,
            None => {
                return BranchKey::Nothing;
            },
        };
        match key {
            NamedKey::ArrowDown => {
                self.branch_picker_down();
                BranchKey::Nothing
            },
            NamedKey::ArrowUp => {
                if let Some(picker) = self.branch_picker.as_mut() {
                    picker.selected_index = if picker.selected_index > 0 {
                        picker.selected_index - 1
                    } else {
                        0
                    };
                }
                BranchKey::Nothing
            },
            NamedKey::Enter => self.branch_picker_enter(),
            NamedKey::Escape => {
                self.branch_picker = None;
                BranchKey::Nothing
            },
            _ => BranchKey::Nothing,
        }
    }

    /// Forgets what belonged to the branch that was left: the files, the selection,
    /// the diff and the whole history; the picker closes, `branch` becomes the current
    /// one and `status` shows in the status bar.
    fn reset_for_branch(&mut self, branch: String, status: String)
        ensures
            final(self).files@.len() == 0,
            final(self).commits@.len() == 0,
            final(self).commit_files@.len() == 0,
            *final(self) == (State {
                branch_picker: None,
                current_branch: Some(branch),
                status_message: Some(StatusMessage { text: status, tone: StatusTone::Success }),
                files: final(self).files,
                selected_file: None,
                selected_path: None,
                current_diff: None,
                initialized_tree: false,
                tree_dirty: true,
                commits: final(self).commits,
                selected_commit: None,
                commit_files: final(self).commit_files,
                commits_loading: false,
                commits_exhausted: false,
                history_selected_file: None,
                history_selected_path: None,
                history_diff: None,
                history_commit_header: None,
                history_focus: HistoryFocus::CommitList,
                ..*old(self)
            }),
    {
        self.branch_picker = None;
        self.current_branch = Some(branch);
        self.set_status_message(status, StatusTone::Success);
        self.files.clear();
        self.selected_file = None;
        self.selected_path = None;
        self.current_diff = None;
        self.initialized_tree = false;
        self.tree_dirty = true;
        self.commits.clear();
        self.selected_commit = None;
        self.commit_files.clear();
        self.commits_loading = false;
        self.commits_exhausted = false;
        self.history_selected_file = None;
        self.history_selected_path = None;
        self.history_diff = None;
        self.history_commit_header = None;
        self.history_focus = HistoryFocus::CommitList;
    }

    /// Takes the outcome of switching to the branch under the picker's selection: on
    /// success that branch becomes the current one, `Switched to <branch>` shows, what
    /// belonged to the old branch is forgotten and the files are to be reloaded (returns
    /// whether to start the load now); on failure the picker shows the error.
    pub fn branch_switched(&mut self, result: Result<(), String>) -> (start: bool)
        ensures
            result is Ok ==> {
                let name = picked_branch(old(self).branch_picker);
                &&& final(self).current_branch matches Some(b) && b@ == name
                &&& final(self).status_message matches Some(m) && m.text@ == "Switched to "@ + name
                    && m.tone == StatusTone::Success
                &&& final(self).files@.len() == 0
                &&& final(self).commits@.len() == 0
                &&& final(self).commit_files@.len() == 0
                &&& *final(self) == (State {
                    branch_picker: None,
                    current_branch: final(self).current_branch,
                    status_message: final(self).status_message,
                    files: final(self).files,
                    selected_file: None,
                    selected_path: None,
                    current_diff: None,
                    initialized_tree: false,
                    tree_dirty: true,
                    commits: final(self).commits,
                    selected_commit: None,
                    commit_files: final(self).commit_files,
                    commits_loading: false,
                    commits_exhausted: false,
                    history_selected_file: None,
                    history_selected_path: None,
                    history_diff: None,
                    history_commit_header: None,
                    history_focus: HistoryFocus::CommitList,
                    refresh_in_flight: true,
                    refresh_queued: old(self).refresh_in_flight,
                    ..*old(self)
                })
                &&& start == !old(self).refresh_in_flight
            },
            result matches Err(e) ==> {
                &&& *final(self) == (State {
                    branch_picker: match old(self).branch_picker {
                        Some(p) => Some(BranchPicker { error: Some(e), ..p }),
                        None => None,
                    },
                    ..*old(self)
                })
                &&& !start
            },
    {
        match result {
            Ok(()) => {
                proof {
                    reveal_strlit("Switched to ");
                }
                let name = match self.branch_picker.as_ref() {
                    Some(p) => {
                        let filtered = p.filtered_branches();
                        if p.selected_index < filtered.len() {
                            filtered[p.selected_index].to_owned()
                        } else {
                            String::new()
                        }
                    },
                    None => String::new(),
                };
                let status = prefixed("Switched to ", name.as_str());
                self.reset_for_branch(name, status);
                self.queue_refresh()
            },
            Err(error) => {
                if let Some(picker) = self.branch_picker.as_mut() {
                    picker.error = Some(error);
                }
                false
            },
        }
    }

    /// Takes the outcome of creating the branch named in the picker's filter: on
    /// success it becomes the current one, `Created and switched to <branch>` shows, what
    /// belonged to the old branch is forgotten and the files are to be reloaded (returns
    /// whether to start the load now); on failure the picker shows the error.
    pub fn branch_created(&mut self, result: Result<(), String>) -> (start: bool)
        ensures
            result is Ok ==> {
                let name = typed_branch(old(self).branch_picker);
                &&& final(self).current_branch matches Some(b) && b@ == name
                &&& final(self).status_message matches Some(m) && m.text@ == "Created and switched to "@
                    + name && m.tone == StatusTone::Success
                &&& final(self).files@.len() == 0
                &&& final(self).commits@.len() == 0
                &&& final(self).commit_files@.len() == 0
                &&& *final(self) == (State {
                    branch_picker: None,
                    current_branch: final(self).current_branch,
                    status_message: final(self).status_message,
                    files: final(self).files,
                    selected_file: None,
                    selected_path: None,
                    current_diff: None,
                    initialized_tree: false,
                    tree_dirty: true,
                    commits: final(self).commits,
                    selected_commit: None,
                    commit_files: final(self).commit_files,
                    commits_loading: false,
                    commits_exhausted: false,
                    history_selected_file: None,
                    history_selected_path: None,
                    history_diff: None,
                    history_commit_header: None,
                    history_focus: HistoryFocus::CommitList,
                    refresh_in_flight: true,
                    refresh_queued: old(self).refresh_in_flight,
                    ..*old(self)
                })
                &&& start == !old(self).refresh_in_flight
            },
            result matches Err(e) ==> {
                &&& *final(self) == (State {
                    branch_picker: match old(self).branch_picker {
                        Some(p) => Some(BranchPicker { error: Some(e), ..p }),
                        None => None,
                    },
                    ..*old(self)
                })
                &&& !start
            },
    {
        match result {
            Ok(()) => {
                proof {
                    reveal_strlit("Created and switched to ");
                }
                let name = match self.branch_picker.as_ref() {
                    Some(p) => p.filter.clone(),
                    None => String::new(),
                };
                let status = prefixed("Created and switched to ", name.as_str());
                self.reset_for_branch(name, status);
                self.queue_refresh()
            },
            Err(error) => {
                if let Some(picker) = self.branch_picker.as_mut() {
                    picker.error = Some(error);
                }
                false
            },
        }
    }

    /// Takes the name of the current branch; a failure changes nothing.
    pub fn current_branch_fetched(&mut self, result: Result<String, String>)
        ensures
            match result {
                Ok(b) => *final(self) == (State { current_branch: Some(b), ..*old(self) }),
                Err(_) => *final(self) == *old(self),
            },
    {
        if let Ok(branch) = result {
            self.current_branch = Some(branch);
        }
    }
}

/// The repositories that the project picker lists under its filter.
pub open spec fn picker_repos(p: ProjectPicker) -> Seq<Seq<char>> {
    let o = others(string_views(p.repos@), p.current@, p.repos@.len() as int);
    filter_items(o, repo_names(o), p.filter@)
}

/// `f` is `s` once the project picker was opened over the recent repositories, or
/// closed when it was open; `focus` tells whether its filter takes the keyboard.
pub open spec fn project_picker_opened(s: State, f: State, focus: bool) -> bool {
    &&& s.project_picker is Some ==> f == (State { project_picker: None, ..s }) && !focus
    &&& s.project_picker is None ==> {
        &&& f.project_picker matches Some(p) && p.repos@ == s.recent_repos@ && p.current == s.repo_path
            && p.filter@ == Seq::<char>::empty() && p.selected_index == 0
        &&& f == (State { project_picker: f.project_picker, ..s })
        &&& focus
    }
}

impl State {
    /// Opens the project picker over the recent repositories, the open one left out
    /// (returns `true`: its filter takes the keyboard), or closes it when it is open.
    pub fn open_project_picker(&mut self) -> (focus: bool)
        ensures
            project_picker_opened(*old(self), *final(self), focus),
    {
        if self.project_picker.is_some() {
            self.project_picker = None;
            return false;
        }
        let repos = copy_strings(&self.recent_repos);
        let current = self.repo_path.clone();
        let picker = ProjectPicker::new(repos, current);
        self.project_picker = Some(picker);
        proof {
            assert(*self == (State { project_picker: Some(picker), ..*old(self) }));
        }
        true
    }

    /// Closes the project picker.
    pub fn close_project_picker(&mut self)
        ensures
            *final(self) == (State { project_picker: None, ..*old(self) }),
    {
        self.project_picker = None;
    }

    /// Takes the picker's edited filter; the selection goes back to the top.
    pub fn project_picker_filter_changed(&mut self, filter: String)
        ensures
            *final(self) == (State {
                project_picker: match old(self).project_picker {
                    Some(p) => Some(ProjectPicker { filter, selected_index: 0, ..p }),
                    None => None,
                },
                ..*old(self)
            }),
    {
        if let Some(picker) = self.project_picker.as_mut() {
            picker.filter = filter;
            picker.selected_index = 0;
        }
    }

    /// Handles a key press while the project picker is open: the arrow keys move the
    /// selection within the listed repositories, Enter closes the picker and returns the
    /// selected repository to open, Escape closes it.
    pub fn project_picker_key(&mut self, event: &KeyboardEvent) -> (open: Option<String>)
        ensures
            match (old(self).project_picker, pressed_named(*event)) {
                (Some(p), Some(NamedKey::ArrowDown)) => {
                    &&& *final(self) == (State {
                        project_picker: Some(ProjectPicker {
                            selected_index: if picker_repos(p).len() > 0 {
                                step_down(p.selected_index, picker_repos(p).len() as usize)
                            } else {
                                p.selected_index
                            },
                            ..p
                        }),
                        ..*old(self)
                    })
                    &&& open is None
                },
                (Some(p), Some(NamedKey::ArrowUp)) => {
                    &&& *final(self) == (State {
                        project_picker: Some(ProjectPicker { selected_index: step_up(p.selected_index), ..p }),
                        ..*old(self)
                    })
                    &&& open is None
                },
                (Some(p), Some(NamedKey::Enter)) => if p.selected_index < picker_repos(p).len() {
                    &&& *final(self) == (State { project_picker: None, ..*old(self) })
                    &&& open matches Some(r) && r@ == picker_repos(p)[p.selected_index as int]
                } else {
                    *final(self) == *old(self) && open is None
                },
                (_, Some(NamedKey::Escape)) => {
                    &&& *final(self) == (State { project_picker: None, ..*old(self) })
                    &&& open is None
                },
                _ => *final(self) == *old(self) && open is None,
            },
    {
        let key = match named_key_pressed(event) {
            Some(k) => k,
            None => {
                return None;
            },
        };
        match key {
            NamedKey::ArrowDown => {
                if let Some(picker) = self.project_picker.as_mut() {
                    let count = picker.filtered_repos().len();
                    if count > 0 {
                        picker.selected_index = if picker.selected_index < count - 1 {
                            picker.selected_index + 1
                        } else {
                            count - 1
                        };
                    }
                }
                None
            },
            NamedKey::ArrowUp => {
                if let Some(picker) = self.project_picker.as_mut() {
                    picker.selected_index = if picker.selected_index > 0 {
                        picker.selected_index - 1
                    } else {
                        0
                    };
                }
                None
            },
            NamedKey::Enter => {
                let repo = match self.project_picker.as_ref() {
                    Some(picker) => {
                        let filtered = picker.filtered_repos();
                        if picker.selected_index < filtered.len() {
                            Some(filtered[picker.selected_index].to_owned())
                        } else {
                            None
                        }
                    },
                    None => None,
                };
                if repo.is_some() {
                    self.project_picker = None;
                }
                repo
            },
            NamedKey::Escape => {
                self.project_picker = None;
                None
            },
            _ => None,
        }
    }

    /// Switches to the repository at `repo_path`, shown as `tree_root_name`: everything
    /// that belonged to the previous one is forgotten (files, selection, diff, dialogs,
    /// searches, history), the repository moves to the front of the recent ones, and its
    /// files are being loaded.
    pub fn repo_opened(&mut self, repo_path: String, tree_root_name: String)
        ensures
            final(self).files@.len() == 0,
            final(self).selected_sidebar_targets@ == Set::<TargetView>::empty(),
            final(self).expanded_dirs@ == Set::<Seq<char>>::empty(),
            final(self).commits@.len() == 0,
            final(self).commit_files@.len() == 0,
            string_views(final(self).recent_repos@) == recent_after(
                string_views(old(self).recent_repos@),
                repo_path@,
            ),
            *final(self) == (State {
                repo_path,
                tree_root_name,
                files: final(self).files,
                selected_file: None,
                selected_path: None,
                focused_sidebar_target: None,
                selected_sidebar_targets: final(self).selected_sidebar_targets,
                selection_anchor_sidebar_target: None,
                current_diff: None,
                expanded_dirs: final(self).expanded_dirs,
                tree_root_expanded: true,
                initialized_tree: false,
                tree_dirty: true,
                error: None,
                status_message: None,
                commit_composer: None,
                project_search: None,
                branch_picker: None,
                project_picker: None,
                pending_diff_jump: None,
                show_actions_panel: false,
                discard_confirm: None,
                active_pane: ActivePane::Sidebar,
                sidebar_tab: SidebarTab::Changes,
                commits: final(self).commits,
                selected_commit: None,
                commit_files: final(self).commit_files,
                commits_loading: false,
                commits_exhausted: false,
                history_selected_file: None,
                history_selected_path: None,
                history_diff: None,
                history_commit_header: None,
                history_focus: HistoryFocus::CommitList,
                changes_focus: ChangesFocus::FileList,
                recent_repos: final(self).recent_repos,
                refresh_in_flight: true,
                refresh_queued: false,
                ..*old(self)
            }),
    {
        self.clear_repo_view();
        self.clear_repo_history();
        push_recent_repo(&mut self.recent_repos, repo_path.as_str());
        self.repo_path = repo_path;
        self.tree_root_name = tree_root_name;
        self.refresh_in_flight = true;
        self.refresh_queued = false;
    }

    /// Forgets the files, the selection, the diff, the dialogs and the searches.
    fn clear_repo_view(&mut self)
        ensures
            final(self).files@.len() == 0,
            final(self).selected_sidebar_targets@ == Set::<TargetView>::empty(),
            final(self).expanded_dirs@ == Set::<Seq<char>>::empty(),
            *final(self) == (State {
                files: final(self).files,
                selected_file: None,
                selected_path: None,
                focused_sidebar_target: None,
                selected_sidebar_targets: final(self).selected_sidebar_targets,
                selection_anchor_sidebar_target: None,
                current_diff: None,
                expanded_dirs: final(self).expanded_dirs,
                tree_root_expanded: true,
                initialized_tree: false,
                tree_dirty: true,
                error: None,
                status_message: None,
                commit_composer: None,
                project_search: None,
                branch_picker: None,
                project_picker: None,
                pending_diff_jump: None,
                show_actions_panel: false,
                discard_confirm: None,
                active_pane: ActivePane::Sidebar,
                ..*old(self)
            }),
    {
        self.files.clear();
        self.selected_file = None;
        self.selected_path = None;
        self.focused_sidebar_target = None;
        self.selected_sidebar_targets.clear();
        self.selection_anchor_sidebar_target = None;
        self.current_diff = None;
        self.expanded_dirs.clear();
        self.tree_root_expanded = true;
        self.initialized_tree = false;
        self.tree_dirty = true;
        self.error = None;
        self.status_message = None;
        self.commit_composer = None;
        self.project_search = None;
        self.branch_picker = None;
        self.project_picker = None;
        self.pending_diff_jump = None;
        self.show_actions_panel = false;
        self.discard_confirm = None;
        self.active_pane = ActivePane::Sidebar;
    }

    /// Forgets the history and sends both tabs back to their first pane.
    fn clear_repo_history(&mut self)
        ensures
            final(self).commits@.len() == 0,
            final(self).commit_files@.len() == 0,
            *final(self) == (State {
                sidebar_tab: SidebarTab::Changes,
                commits: final(self).commits,
                selected_commit: None,
                commit_files: final(self).commit_files,
                commits_loading: false,
                commits_exhausted: false,
                history_selected_file: None,
                history_selected_path: None,
                history_diff: None,
                history_commit_header: None,
                history_focus: HistoryFocus::CommitList,
                changes_focus: ChangesFocus::FileList,
                ..*old(self)
            }),
    {
        self.sidebar_tab = SidebarTab::Changes;
        self.commits.clear();
        self.selected_commit = None;
        self.commit_files.clear();
        self.commits_loading = false;
        self.commits_exhausted = false;
        self.history_selected_file = None;
        self.history_selected_path = None;
        self.history_diff = None;
        self.history_commit_header = None;
        self.history_focus = HistoryFocus::CommitList;
        self.changes_focus = ChangesFocus::FileList;
    }

    /// Takes a report of the file watcher: a change asks for the files to be reloaded
    /// (returns whether to start the load now), an error is kept to be shown.
    pub fn watch_event(&mut self, event: Event) -> (start: bool)
        ensures
            match event {
                Event::Changed => {
                    &&& *final(self) == (State {
                        refresh_in_flight: true,
                        refresh_queued: old(self).refresh_in_flight,
                        ..*old(self)
                    })
                    &&& start == !old(self).refresh_in_flight
                },
                Event::Error(e) => *final(self) == (State { error: Some(e), ..*old(self) }) && !start,
            },
    {
        match event {
            Event::Changed => self.queue_refresh(),
            Event::Error(error) => {
                self.error = Some(error);
                false
            },
        }
    }
}

/// The files whose changes a discard of the targeted rows would throw away.
pub open spec fn discard_paths(s: State) -> Seq<Seq<char>> {
    dedup_first(paths_for_targets(s.files@, targeted(s)))
}

impl State {
    /// Asks to discard the changes of the targeted files: the discard dialog opens over
    /// them with Cancel focused, unless no file is targeted.
    pub fn request_discard(&mut self)
        ensures
            discard_paths(*old(self)).len() == 0 ==> *final(self) == *old(self),
            discard_paths(*old(self)).len() > 0 ==> {
                &&& final(self).discard_confirm matches Some(c) && string_views(c.paths@) == discard_paths(
                    *old(self),
                ) && c.focused_button == DiscardButton::Cancel
                &&& *final(self) == (State { discard_confirm: final(self).discard_confirm, ..*old(self) })
            },
    {
        let paths = self.targeted_file_paths();
        if paths.len() == 0 {
            return;
        }
        self.discard_confirm = Some(DiscardConfirm { paths, focused_button: DiscardButton::Cancel });
    }

    /// Confirms the discard dialog: it closes, and the files it was opened over are
    /// returned to be discarded.
    pub fn confirm_discard(&mut self) -> (paths: Option<Vec<String>>)
        ensures
            *final(self) == (State { discard_confirm: None, ..*old(self) }),
            paths == match old(self).discard_confirm {
                Some(c) => Some(c.paths),
                None => None,
            },
    {
        match self.discard_confirm.take() {
            Some(c) => Some(c.paths),
            None => None,
        }
    }

    /// Closes the discard dialog without discarding.
    pub fn cancel_discard(&mut self)
        ensures
            *final(self) == (State { discard_confirm: None, ..*old(self) }),
    {
        self.discard_confirm = None;
    }

    /// Handles a key press while the discard dialog is open: Enter presses the focused
    /// button (Discard returns the files to discard; Cancel is the default), Tab moves
    /// the focus to the other button, the left and right arrows to Cancel and Discard,
    /// and Escape cancels.
    pub fn discard_confirm_key(&mut self, event: &KeyboardEvent) -> (paths: Option<Vec<String>>)
        ensures
            match pressed_named(*event) {
                Some(NamedKey::Enter) => if old(self).discard_confirm matches Some(c) && c.focused_button
                    == DiscardButton::Discard {
                    *final(self) == (State { discard_confirm: None, ..*old(self) }) && paths == Some(
                        old(self).discard_confirm->0.paths,
                    )
                } else {
                    *final(self) == (State { discard_confirm: None, ..*old(self) }) && paths is None
                },
                Some(NamedKey::Tab) => {
                    &&& *final(self) == (State {
                        discard_confirm: match old(self).discard_confirm {
                            Some(c) => Some(DiscardConfirm {
                                focused_button: if c.focused_button == DiscardButton::Cancel {
                                    DiscardButton::Discard
                                } else {
                                    DiscardButton::Cancel
                                },
                                ..c
                            }),
                            None => None,
                        },
                        ..*old(self)
                    })
                    &&& paths is None
                },
                Some(NamedKey::ArrowLeft) => {
                    &&& *final(self) == (State {
                        discard_confirm: match old(self).discard_confirm {
                            Some(c) => Some(DiscardConfirm { focused_button: DiscardButton::Cancel, ..c }),
                            None => None,
                        },
                        ..*old(self)
                    })
                    &&& paths is None
                },
                Some(NamedKey::ArrowRight) => {
                    &&& *final(self) == (State {
                        discard_confirm: match old(self).discard_confirm {
                            Some(c) => Some(DiscardConfirm { focused_button: DiscardButton::Discard, ..c }),
                            None => None,
                        },
                        ..*old(self)
                    })
                    &&& paths is None
                },
                Some(NamedKey::Escape) => *final(self) == (State { discard_confirm: None, ..*old(self) })
                    && paths is None,
                _ => *final(self) == *old(self) && paths is None,
            },
    {
        let key = match named_key_pressed(event) {
            Some(k) => k,
            None => {
                return None;
            },
        };
        match key {
            NamedKey::Enter => {
                let focused = match self.discard_confirm.as_ref() {
                    Some(c) => c.focused_button,
                    None => DiscardButton::Cancel,
                };
                match focused {
                    DiscardButton::Discard => self.confirm_discard(),
                    DiscardButton::Cancel => {
                        self.cancel_discard();
                        None
                    },
                }
            },
            NamedKey::Tab => {
                if let Some(confirm) = self.discard_confirm.as_mut() {
                    confirm.focused_button = match confirm.focused_button {
                        DiscardButton::Cancel => DiscardButton::Discard,
                        DiscardButton::Discard => DiscardButton::Cancel,
                    };
                }
                None
            },
            NamedKey::ArrowLeft => {
                if let Some(confirm) = self.discard_confirm.as_mut() {
                    confirm.focused_button = DiscardButton::Cancel;
                }
                None
            },
            NamedKey::ArrowRight => {
                if let Some(confirm) = self.discard_confirm.as_mut() {
                    confirm.focused_button = DiscardButton::Discard;
                }
                None
            },
            NamedKey::Escape => {
                self.cancel_discard();
                None
            },
            _ => None,
        }
    }
}

/// The line above the commit button: what the commit would take in.
pub open spec fn composer_helper(staged: nat, unstaged: nat) -> Seq<char> {
    if staged == 0 {
        "No staged changes"@
    } else if unstaged == 0 {
        "Committing "@ + decimal(staged) + " staged file"@ + plural(staged, "s"@)
    } else {
        "Committing "@ + decimal(staged) + " staged file"@ + plural(staged, "s"@) + " • "@ + decimal(unstaged)
            + " unstaged excluded"@
    }
}

impl State {
    /// The line above the commit button (see `composer_helper`).
    pub fn composer_helper_text(&self) -> (r: String)
        ensures
            r@ == composer_helper(count_staged(self.files@), count_unstaged(self.files@)),
    {
        proof {
            reveal_strlit("s");
            reveal_strlit("");
        }
        let staged = self.staged_file_count();
        let unstaged = self.unstaged_file_count();
        if staged == 0 {
            return "No staged changes".to_owned();
        }
        let mut r = "Committing ".to_owned();
        push_decimal(&mut r, staged);
        push_str(&mut r, " staged file");
        if staged != 1 {
            push_str(&mut r, "s");
        }
        if unstaged > 0 {
            push_str(&mut r, " • ");
            push_decimal(&mut r, unstaged);
            push_str(&mut r, " unstaged excluded");
        }
        proof {
            assert(r@ =~= composer_helper(count_staged(self.files@), count_unstaged(self.files@)));
        }
        r
    }
}

/// The label of the commit button: `Committing…` while a commit is under way.
pub fn commit_button_label(composer: &CommitComposer) -> (r: &'static str)
    ensures
        r@ == if composer.submitting {
            "Committing…"@
        } else {
            "Commit"@
        },
{
    if composer.submitting {
        "Committing…"
    } else {
        "Commit"
    }
}

/// How many files the discard dialog lists by name.
pub const DISCARD_PREVIEW_LIMIT: usize = 10;

/// The question the discard dialog asks: about the file by name when there is one, else
/// about the number of files.
pub open spec fn discard_question(paths: Seq<Seq<char>>) -> Seq<char> {
    if paths.len() == 1 {
        "Discard changes to \""@ + paths[0] + "\"?"@
    } else {
        "Discard changes to "@ + decimal(paths.len()) + " files?"@
    }
}

/// The file lines of the discard dialog: the first `DISCARD_PREVIEW_LIMIT` paths,
/// indented, then how many more there are.
pub open spec fn discard_preview(paths: Seq<Seq<char>>) -> Seq<Seq<char>> {
    let shown = if paths.len() < DISCARD_PREVIEW_LIMIT {
        paths.len()
    } else {
        DISCARD_PREVIEW_LIMIT as nat
    };
    Seq::new(shown, |i: int| "  "@ + paths[i]) + if paths.len() > shown {
        seq!["  … and "@ + decimal((paths.len() - shown) as nat) + " more"@]
    } else {
        Seq::<Seq<char>>::empty()
    }
}

/// The text of the discard dialog.
pub struct DiscardDialog {
    pub question: String,
    pub preview: Vec<String>,
}

impl DiscardConfirm {
    /// The question and the file lines of the dialog (see `discard_question` and
    /// `discard_preview`).
    pub fn dialog(&self) -> (d: DiscardDialog)
        ensures
            d.question@ == discard_question(string_views(self.paths@)),
            string_views(d.preview@) == discard_preview(string_views(self.paths@)),
    {
        let ghost ps = string_views(self.paths@);
        let count = self.paths.len();
        let question = if count == 1 {
            let mut q = "Discard changes to \"".to_owned();
            push_str(&mut q, self.paths[0].as_str());
            push_str(&mut q, "\"?");
            proof {
                assert(ps[0] == self.paths@[0]@);
            }
            q
        } else {
            let mut q = "Discard changes to ".to_owned();
            push_decimal(&mut q, count);
            push_str(&mut q, " files?");
            q
        };
        let shown = if count < DISCARD_PREVIEW_LIMIT {
            count
        } else {
            DISCARD_PREVIEW_LIMIT
        };
        let mut preview: Vec<String> = Vec::new();
        let mut i: usize = 0;
        while i < shown
            invariant
                ps == string_views(self.paths@),
                count == self.paths@.len(),
                shown <= count,
                i <= shown,
                string_views(preview@) == Seq::new(i as nat, |k: int| "  "@ + ps[k]),
            decreases shown - i,
        {
            let mut line = "  ".to_owned();
            push_str(&mut line, self.paths[i].as_str());
            let ghost before = preview@;
            preview.push(line);
            proof {
                assert(ps[i as int] == self.paths@[i as int]@);
                assert(string_views(preview@) =~= string_views(before).push(line@));
                assert(string_views(preview@) =~= Seq::new((i + 1) as nat, |k: int| "  "@ + ps[k]));
            }
            i = i + 1;
        }
        let ghost listed = string_views(preview@);
        if count > shown {
            let mut more = "  … and ".to_owned();
            push_decimal(&mut more, count - shown);
            push_str(&mut more, " more");
            preview.push(more);
            proof {
                assert(string_views(preview@) =~= listed.push(more@));
            }
        }
        proof {
            assert(string_views(preview@) =~= discard_preview(ps));
            assert(question@ =~= discard_question(ps));
        }
        DiscardDialog { question, preview }
    }
}

} // verus!
