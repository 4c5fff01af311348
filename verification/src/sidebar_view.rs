use vstd::prelude::*;
use crate::sidebar::{count_staged, path_staged, paths_for_target, visible_targets, State, TargetView};
use crate::state::{Commit, SidebarTab};
use crate::text::{decimal, push_decimal, push_str};

verus! {

/// How a visible row of the sidebar is marked, apart from its name and depth.
#[derive(Debug, Clone, Copy, PartialEq, Eq, Structural)]
pub struct RowMarks {
    /// The row has the keyboard focus.
    pub focused: bool,
    /// The row is in the explicit selection.
    pub selected: bool,
    /// Every file under the row has staged changes (and there is one).
    pub fully_staged: bool,
}

/// Every file under the target `t` has staged changes, and there is one.
pub open spec fn fully_staged(s: State, t: TargetView) -> bool {
    paths_for_target(s.files@, t).len() > 0 && forall|k: int|
        0 <= k < paths_for_target(s.files@, t).len() ==> path_staged(
            s.files@,
            #[trigger] paths_for_target(s.files@, t)[k],
        )
}

/// The marks of the row for the target `t`.
pub open spec fn marks_of(s: State, t: TargetView) -> RowMarks {
    RowMarks {
        focused: s.focused_sidebar_target matches Some(f) && f@ == t,
        selected: s.selected_sidebar_targets@.contains(t),
        fully_staged: fully_staged(s, t),
    }
}

/// The line under the sidebar: for the changes, how many files changed, how many are
/// staged and, with more than one, how many are selected; for the history, how many
/// commits are loaded.
pub open spec fn summary_text(s: State) -> Seq<char> {
    match s.sidebar_tab {
        SidebarTab::Changes => decimal(s.files@.len()) + " changed • "@ + decimal(count_staged(s.files@))
            + " staged"@ + if s.selected_sidebar_targets@.len() > 1 {
            " • "@ + decimal(s.selected_sidebar_targets@.len()) + " selected"@
        } else {
            Seq::empty()
        },
        SidebarTab::History => if s.commits@.len() == 0 && s.commits_loading {
            "Loading commits…"@
        } else if s.commits_exhausted {
            decimal(s.commits@.len()) + " commits (all loaded)"@
        } else {
            decimal(s.commits@.len()) + " commits loaded"@
        },
    }
}

impl State {
    /// The marks of the visible rows, in order (see `marks_of`).
    pub fn sidebar_row_marks(&self) -> (r: Vec<RowMarks>)
        ensures
            r@.len() == visible_targets(*self).len(),
            forall|i: int| 0 <= i < r@.len() ==> #[trigger] r@[i] == marks_of(*self, visible_targets(*self)[i]),
    {
        let targets = self.visible_sidebar_targets();
        let ghost vt = visible_targets(*self);
        let mut r: Vec<RowMarks> = Vec::new();
        let mut i: usize = 0;
        while i < targets.len()
            invariant
                crate::sidebar::target_views(targets@) == vt,
                vt == visible_targets(*self),
                i <= targets@.len(),
                r@.len() == i,
                forall|j: int| 0 <= j < i ==> #[trigger] r@[j] == marks_of(*self, vt[j]),
            decreases targets@.len() - i,
        {
            let t = &targets[i];
            proof {
                assert(crate::sidebar::target_views(targets@)[i as int] == targets@[i as int]@);
            }
            let focused = match &self.focused_sidebar_target {
                Some(f) => crate::sidebar::same_target(f, t),
                None => false,
            };
            let marks = RowMarks {
                focused,
                selected: self.is_sidebar_target_selected(t),
                fully_staged: self.sidebar_target_is_fully_staged(t),
            };
            r.push(marks);
            i = i + 1;
        }
        r
    }

    /// The line under the sidebar (see `summary_text`).
    pub fn sidebar_summary(&self) -> (r: String)
        ensures
            r@ == summary_text(*self),
    {
        match self.sidebar_tab {
            SidebarTab::Changes => {
                let mut r = String::new();
                push_decimal(&mut r, self.files.len());
                push_str(&mut r, " changed • ");
                push_decimal(&mut r, self.staged_file_count());
                push_str(&mut r, " staged");
                let selected = self.selected_file_count();
                if selected > 1 {
                    push_str(&mut r, " • ");
                    push_decimal(&mut r, selected);
                    push_str(&mut r, " selected");
                }
                proof {
                    assert(r@ =~= summary_text(*self));
                }
                r
            },
            SidebarTab::History => {
                let count = self.commits.len();
                if count == 0 && self.commits_loading {
                    "Loading commits…".to_owned()
                } else {
                    let mut r = String::new();
                    push_decimal(&mut r, count);
                    if self.commits_exhausted {
                        push_str(&mut r, " commits (all loaded)");
                    } else {
                        push_str(&mut r, " commits loaded");
                    }
                    r
                }
            },
        }
    }

    /// The name shown for the branch: the current branch, or `Anduin` while it is not
    /// known.
    pub fn branch_display(&self) -> (r: &str)
        ensures
            r@ == match self.current_branch {
                Some(b) => b@,
                None => "Anduin"@,
            },
    {
        match &self.current_branch {
            Some(b) => b.as_str(),
            None => "Anduin",
        }
    }
}

/// The line under a commit of the history list: `<author> · <date>`.
pub fn commit_detail(commit: &Commit) -> (r: String)
    ensures
        r@ == commit.author@ + " · "@ + commit.date@,
{
    let mut r = commit.author.clone();
    push_str(&mut r, " · ");
    push_str(&mut r, commit.date.as_str());
    r
}

} // verus!
