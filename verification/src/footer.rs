use vstd::prelude::*;
use crate::sidebar::{count_staged, count_unstaged, SidebarTarget, State, TargetView};
use crate::text::{push_str, str_equal};
use crate::state::{HistoryFocus, SidebarTab};

verus! {

/// A key and what it does, shown in the actions footer.
pub struct FooterAction {
    pub key: String,
    pub label: String,
    pub enabled: bool,
}

/// A titled group of footer actions.
pub struct FooterSection {
    pub title: String,
    pub actions: Vec<FooterAction>,
}

/// What the actions footer shows.
pub struct FooterModel {
    pub target_label: String,
    pub mode_label: String,
    pub preview_actions: Vec<FooterAction>,
    pub sections: Vec<FooterSection>,
}

/// An enabled action.
pub fn action(key: &str, label: &str) -> (a: FooterAction)
    ensures
        a.key@ == key@,
        a.label@ == label@,
        a.enabled,
{
    FooterAction { key: key.to_owned(), label: label.to_owned(), enabled: true }
}

/// The action when it is available, else none.
pub fn maybe_action(key: &str, label: &str, enabled: bool) -> (a: Option<FooterAction>)
    ensures
        enabled <==> a is Some,
        a matches Some(x) ==> x.key@ == key@ && x.label@ == label@ && x.enabled,
{
    if enabled {
        Some(action(key, label))
    } else {
        None
    }
}

/// A section with the given actions.
pub fn section(title: &str, actions: Vec<FooterAction>) -> (s: FooterSection)
    ensures
        s.title@ == title@,
        s.actions == actions,
{
    FooterSection { title: title.to_owned(), actions }
}

/// The actions that are present, in order.
pub open spec fn present(v: Seq<Option<FooterAction>>) -> Seq<FooterAction>
    decreases v.len(),
{
    if v.len() == 0 {
        Seq::empty()
    } else {
        match v.last() {
            Some(a) => present(v.drop_last()).push(a),
            None => present(v.drop_last()),
        }
    }
}

/// A section with the actions that are present, or none when no action is.
pub fn section_opt(title: &str, actions: Vec<Option<FooterAction>>) -> (s: Option<FooterSection>)
    ensures
        present(actions@).len() > 0 <==> s is Some,
        s matches Some(x) ==> x.title@ == title@ && x.actions@ == present(actions@),
{
    let ghost all = actions@;
    let mut kept: Vec<FooterAction> = Vec::new();
    let mut source = actions;
    let mut stack: Vec<Option<FooterAction>> = Vec::new();
    while source.len() > 0
        invariant
            all.len() == source@.len() + stack@.len(),
            forall|k: int| 0 <= k < source@.len() ==> #[trigger] source@[k] == all[k],
            forall|k: int| 0 <= k < stack@.len() ==> #[trigger] stack@[k] == all[all.len() - 1 - k],
        decreases source@.len(),
    {
        let a = source.pop().unwrap();
        stack.push(a);
    }
    let total = stack.len();
    let mut i: usize = 0;
    proof {
        assert(all.take(0) =~= Seq::<Option<FooterAction>>::empty());
    }
    while stack.len() > 0
        invariant
            all.len() == total,
            all.len() == i + stack@.len(),
            forall|k: int| 0 <= k < stack@.len() ==> #[trigger] stack@[k] == all[all.len() - 1 - k],
            kept@ == present(all.take(i as int)),
        decreases stack@.len(),
    {
        let a = stack.pop().unwrap();
        proof {
            assert(a == all[i as int]);
            assert(all.take(i + 1).drop_last() =~= all.take(i as int));
            assert(all.take(i + 1).last() == all[i as int]);
        }
        match a {
            Some(x) => {
                kept.push(x);
            },
            None => {},
        }
        i = i + 1;
    }
    proof {
        assert(all.take(i as int) =~= all);
    }
    if kept.len() > 0 {
        Some(section(title, kept))
    } else {
        None
    }
}

/// A footer action by its values.
pub struct ActionView {
    pub key: Seq<char>,
    pub label: Seq<char>,
    pub enabled: bool,
}

impl View for FooterAction {
    type V = ActionView;

    open spec fn view(&self) -> ActionView {
        ActionView { key: self.key@, label: self.label@, enabled: self.enabled }
    }
}

/// The values of a list of actions.
pub open spec fn action_views(v: Seq<FooterAction>) -> Seq<ActionView> {
    v.map_values(|a: FooterAction| a@)
}

/// A footer section by its values.
pub struct SectionView {
    pub title: Seq<char>,
    pub actions: Seq<ActionView>,
}

impl View for FooterSection {
    type V = SectionView;

    open spec fn view(&self) -> SectionView {
        SectionView { title: self.title@, actions: action_views(self.actions@) }
    }
}

/// The values of a list of sections.
pub open spec fn section_views(v: Seq<FooterSection>) -> Seq<SectionView> {
    v.map_values(|s: FooterSection| s@)
}

/// A footer model by its values.
pub struct ModelView {
    pub target: Seq<char>,
    pub mode: Seq<char>,
    pub preview: Seq<ActionView>,
    pub sections: Seq<SectionView>,
}

impl View for FooterModel {
    type V = ModelView;

    open spec fn view(&self) -> ModelView {
        ModelView {
            target: self.target_label@,
            mode: self.mode_label@,
            preview: action_views(self.preview_actions@),
            sections: section_views(self.sections@),
        }
    }
}

/// A command of the actions panel: its key, what it does, and the section it belongs to.
pub struct PanelCommand {
    pub key: String,
    pub label: String,
    pub section: String,
}

/// The values of a list of panel commands: key, label and section.
pub open spec fn command_views(v: Seq<PanelCommand>) -> Seq<(Seq<char>, Seq<char>, Seq<char>)> {
    v.map_values(|c: PanelCommand| (c.key@, c.label@, c.section@))
}

/// An enabled action by its values.
pub open spec fn act(key: Seq<char>, label: Seq<char>) -> ActionView {
    ActionView { key, label, enabled: true }
}

/// The action when `on`, else nothing.
pub open spec fn act_if(key: Seq<char>, label: Seq<char>, on: bool) -> Seq<ActionView> {
    if on {
        seq![act(key, label)]
    } else {
        Seq::empty()
    }
}

/// The section when it has actions, else nothing.
pub open spec fn section_if(title: Seq<char>, actions: Seq<ActionView>) -> Seq<SectionView> {
    if actions.len() > 0 {
        seq![SectionView { title, actions }]
    } else {
        Seq::empty()
    }
}

/// The actions of the commands in `section` (of all of them when `section` is none), in
/// order.
pub open spec fn command_actions(cmds: Seq<(Seq<char>, Seq<char>, Seq<char>)>, section: Option<Seq<char>>) -> Seq<
    ActionView,
>
    decreases cmds.len(),
{
    if cmds.len() == 0 {
        Seq::empty()
    } else {
        let c = cmds.last();
        let rest = command_actions(cmds.drop_last(), section);
        if section matches Some(t) && c.2 != t {
            rest
        } else {
            rest.push(act(c.0, c.1))
        }
    }
}

/// No repository is open: no branch, no changed file and no commit is known.
pub open spec fn no_repo(s: State) -> bool {
    s.current_branch is None && s.files@.len() == 0 && s.commits@.len() == 0
}

/// `commit <short hash>` for the history's commit, else `history`.
pub open spec fn commit_label(s: State) -> Seq<char> {
    match s.history_commit_header {
        Some(c) => "commit "@ + c.short_hash@,
        None => "history"@,
    }
}

/// What the footer names as the target of the actions.
pub open spec fn target_text(s: State) -> Seq<char> {
    if no_repo(s) {
        "no repository"@
    } else if s.sidebar_tab == SidebarTab::Changes {
        match s.focused_sidebar_target {
            Some(t) => match t@ {
                TargetView::Root => "repository"@,
                TargetView::Dir(p) => p + "/"@,
                TargetView::File(p) => p,
            },
            None => "repository"@,
        }
    } else if s.history_focus == HistoryFocus::CommitList {
        commit_label(s)
    } else {
        match s.history_selected_path {
            Some(p) => match s.history_commit_header {
                Some(c) => p@ + " @ "@ + c.short_hash@,
                None => p@,
            },
            None => if s.history_focus == HistoryFocus::DiffView {
                "diff view"@
            } else {
                commit_label(s)
            },
        }
    }
}

/// What Enter does in the history, if anything: move on to the file list once the
/// selected commit's files are there, or to the diff once it is there.
pub open spec fn enter_label(s: State) -> Option<Seq<char>> {
    match s.history_focus {
        HistoryFocus::CommitList => if s.selected_commit is Some && s.commit_files@.len() > 0 {
            Some("Focus file list"@)
        } else {
            None
        },
        HistoryFocus::FileList => if s.history_diff is Some {
            Some("Focus diff"@)
        } else {
            None
        },
        HistoryFocus::DiffView => None,
    }
}

/// The footer of the changes tab.
pub open spec fn changes_model(s: State, cmds: Seq<(Seq<char>, Seq<char>, Seq<char>)>) -> ModelView {
    let has_unstaged = count_unstaged(s.files@) > 0;
    let has_staged = count_staged(s.files@) > 0;
    let has_changes = s.files@.len() > 0;
    let has_diff = s.current_diff is Some;
    ModelView {
        target: target_text(s),
        mode: if s.files@.len() == 0 {
            "current: clean repo"@
        } else if s.focused_sidebar_target matches Some(SidebarTarget::File(_)) {
            "current: file"@
        } else if s.focused_sidebar_target matches Some(SidebarTarget::Dir(_)) {
            "current: dir"@
        } else {
            "current: repository"@
        },
        preview: if has_changes {
            seq![act("."@, "Actions"@)] + act_if("space"@, "Stage"@, has_unstaged || has_staged) + act_if(
                "c"@,
                "Commit"@,
                has_staged,
            )
        } else {
            seq![act("."@, "Actions"@)]
        },
        sections: section_if(
            "Files"@,
            act_if("space"@, "Stage / Unstage"@, has_changes) + act_if("a"@, "Stage all"@, has_unstaged) + act_if(
                "u"@,
                "Unstage all"@,
                has_staged,
            ) + act_if("k"@, "Discard"@, has_changes),
        ) + section_if("Commit"@, command_actions(cmds, Some("Commit"@))) + section_if(
            "Repo"@,
            command_actions(cmds, Some("Repo"@)),
        ) + section_if("Search & View"@, command_actions(cmds, Some("Search & View"@))) + section_if(
            "Navigation"@,
            act_if("↑↓"@, "Move selection"@, has_changes) + act_if("←→"@, "Collapse / Expand"@, has_changes)
                + act_if("enter"@, "Focus diff"@, has_diff),
        ),
    }
}

/// The footer of the history tab.
pub open spec fn history_model(s: State, cmds: Seq<(Seq<char>, Seq<char>, Seq<char>)>) -> ModelView {
    ModelView {
        target: target_text(s),
        mode: "current: history"@,
        preview: seq![act("."@, "Actions"@)],
        sections: section_if(
            "History"@,
            act_if(
                "↑↓"@,
                "Move history selection"@,
                s.history_commit_header is Some || s.history_selected_path is Some,
            ) + match enter_label(s) {
                Some(l) => seq![act("enter"@, l)],
                None => Seq::empty(),
            },
        ) + section_if("Commit"@, command_actions(cmds, Some("Commit"@))) + section_if(
            "Search & View"@,
            command_actions(cmds, Some("Search & View"@)),
        ) + section_if("Repo"@, command_actions(cmds, Some("Repo"@))),
    }
}

/// The footer: without a repository, the start actions; else that of the current tab.
pub open spec fn footer_model(s: State, cmds: Seq<(Seq<char>, Seq<char>, Seq<char>)>) -> ModelView {
    if no_repo(s) {
        ModelView {
            target: "no repository"@,
            mode: "current: none"@,
            preview: seq![act("."@, "Actions"@), act("o"@, "Open repo"@)],
            sections: seq![SectionView { title: "Start"@, actions: command_actions(cmds, None) }],
        }
    } else if s.sidebar_tab == SidebarTab::Changes {
        changes_model(s, cmds)
    } else {
        history_model(s, cmds)
    }
}

/// Appends the action to `v` when `on`.
fn push_action(v: &mut Vec<FooterAction>, key: &str, label: &str, on: bool)
    ensures
        action_views(final(v)@) == action_views(old(v)@) + act_if(key@, label@, on),
{
    let ghost before = v@;
    if on {
        v.push(action(key, label));
        proof {
            assert(action_views(v@) =~= action_views(before) + act_if(key@, label@, on));
        }
    } else {
        proof {
            assert(action_views(v@) =~= action_views(before) + act_if(key@, label@, on));
        }
    }
}

/// Appends a section titled `title` with `actions` to `v`, unless it has no action.
fn push_section_if(v: &mut Vec<FooterSection>, title: &str, actions: Vec<FooterAction>)
    ensures
        section_views(final(v)@) == section_views(old(v)@) + section_if(title@, action_views(actions@)),
{
    let ghost before = v@;
    if actions.len() > 0 {
        let sec = section(title, actions);
        v.push(sec);
        proof {
            assert(section_views(v@) =~= section_views(before) + section_if(title@, action_views(actions@)));
        }
    } else {
        proof {
            assert(section_views(v@) =~= section_views(before) + section_if(title@, action_views(actions@)));
        }
    }
}

/// The actions of the commands in `section` (of all of them when `section` is none).
fn actions_of_commands(commands: &Vec<PanelCommand>, section: Option<&str>) -> (r: Vec<FooterAction>)
    ensures
        action_views(r@) == command_actions(
            command_views(commands@),
            match section {
                Some(t) => Some(t@),
                None => None,
            },
        ),
{
    let ghost sec = match section {
        Some(t) => Some(t@),
        None => None::<Seq<char>>,
    };
    let mut r: Vec<FooterAction> = Vec::new();
    let mut i: usize = 0;
    while i < commands.len()
        invariant
            i <= commands@.len(),
            sec == match section {
                Some(t) => Some(t@),
                None => None,
            },
            action_views(r@) == command_actions(command_views(commands@).take(i as int), sec),
        decreases commands@.len() - i,
    {
        let c = &commands[i];
        let keep = match section {
            Some(t) => str_equal(c.section.as_str(), t),
            None => true,
        };
        let ghost before = r@;
        if keep {
            r.push(action(c.key.as_str(), c.label.as_str()));
        }
        proof {
            let cv = command_views(commands@);
            assert(cv.take(i + 1).drop_last() =~= cv.take(i as int));
            assert(cv.take(i + 1).last() == cv[i as int]);
            if keep {
                assert(action_views(r@) =~= action_views(before).push(act(c.key@, c.label@)));
            } else {
                assert(action_views(r@) =~= action_views(before));
            }
        }
        i = i + 1;
    }
    proof {
        assert(command_views(commands@).take(commands@.len() as int) =~= command_views(commands@));
    }
    r
}

/// What the footer names as the target of the actions (see `target_text`).
pub fn display_target(state: &State) -> (r: String)
    ensures
        r@ == target_text(*state),
{
    proof {
        reveal_strlit("no repository");
        reveal_strlit("repository");
        reveal_strlit("/");
        reveal_strlit("commit ");
        reveal_strlit("history");
        reveal_strlit(" @ ");
        reveal_strlit("diff view");
    }
    if state.current_branch.is_none() && state.files.len() == 0 && state.commits.len() == 0 {
        return "no repository".to_owned();
    }
    match state.sidebar_tab {
        SidebarTab::Changes => match &state.focused_sidebar_target {
            Some(SidebarTarget::Root) => "repository".to_owned(),
            Some(SidebarTarget::Dir(p)) => {
                let mut r = p.clone();
                push_str(&mut r, "/");
                r
            },
            Some(SidebarTarget::File(p)) => p.clone(),
            None => "repository".to_owned(),
        },
        SidebarTab::History => {
            let label = match &state.history_commit_header {
                Some(c) => {
                    let mut r = "commit ".to_owned();
                    push_str(&mut r, c.short_hash.as_str());
                    r
                },
                None => "history".to_owned(),
            };
            match state.history_focus {
                HistoryFocus::CommitList => label,
                _ => match &state.history_selected_path {
                    Some(p) => match &state.history_commit_header {
                        Some(c) => {
                            let mut r = p.clone();
                            push_str(&mut r, " @ ");
                            push_str(&mut r, c.short_hash.as_str());
                            r
                        },
                        None => p.clone(),
                    },
                    None => if state.history_focus == HistoryFocus::DiffView {
                        "diff view".to_owned()
                    } else {
                        label
                    },
                },
            }
        },
    }
}

/// What Enter does in the history, if anything (see `enter_label`).
pub fn history_enter_label(state: &State) -> (r: Option<&'static str>)
    ensures
        match r {
            Some(l) => enter_label(*state) == Some(l@),
            None => enter_label(*state) is None,
        },
{
    proof {
        reveal_strlit("Focus file list");
        reveal_strlit("Focus diff");
    }
    match state.history_focus {
        HistoryFocus::CommitList => if state.selected_commit.is_some() && state.commit_files.len() > 0 {
            Some("Focus file list")
        } else {
            None
        },
        HistoryFocus::FileList => if state.history_diff.is_some() {
            Some("Focus diff")
        } else {
            None
        },
        HistoryFocus::DiffView => None,
    }
}

/// The footer of the changes tab (see `changes_model`).
fn build_changes_model(state: &State, commands: &Vec<PanelCommand>) -> (m: FooterModel)
    ensures
        m@ == changes_model(*state, command_views(commands@)),
{
    let target_label = display_target(state);
    let mode_label = if state.files.len() == 0 {
        "current: clean repo".to_owned()
    } else if matches!(state.focused_sidebar_target, Some(SidebarTarget::File(_))) {
        "current: file".to_owned()
    } else if matches!(state.focused_sidebar_target, Some(SidebarTarget::Dir(_))) {
        "current: dir".to_owned()
    } else {
        "current: repository".to_owned()
    };
    let has_unstaged = state.unstaged_file_count() > 0;
    let has_staged = state.staged_file_count() > 0;
    let has_changes = state.files.len() > 0;
    let has_diff = state.current_diff.is_some();
    let mut preview: Vec<FooterAction> = Vec::new();
    push_action(&mut preview, ".", "Actions", true);
    if has_changes {
        push_action(&mut preview, "space", "Stage", has_unstaged || has_staged);
        push_action(&mut preview, "c", "Commit", has_staged);
    }
    let mut sections: Vec<FooterSection> = Vec::new();
    let mut files: Vec<FooterAction> = Vec::new();
    push_action(&mut files, "space", "Stage / Unstage", has_changes);
    push_action(&mut files, "a", "Stage all", has_unstaged);
    push_action(&mut files, "u", "Unstage all", has_staged);
    push_action(&mut files, "k", "Discard", has_changes);
    push_section_if(&mut sections, "Files", files);
    push_section_if(&mut sections, "Commit", actions_of_commands(commands, Some("Commit")));
    push_section_if(&mut sections, "Repo", actions_of_commands(commands, Some("Repo")));
    push_section_if(&mut sections, "Search & View", actions_of_commands(commands, Some("Search & View")));
    let mut nav: Vec<FooterAction> = Vec::new();
    push_action(&mut nav, "↑↓", "Move selection", has_changes);
    push_action(&mut nav, "←→", "Collapse / Expand", has_changes);
    push_action(&mut nav, "enter", "Focus diff", has_diff);
    push_section_if(&mut sections, "Navigation", nav);
    let m = FooterModel { target_label, mode_label, preview_actions: preview, sections };
    proof {
        let want = changes_model(*state, command_views(commands@));
        assert(m@.preview =~= want.preview);
        assert(m@.sections =~= want.sections);
    }
    m
}

/// The footer of the history tab (see `history_model`).
fn build_history_model(state: &State, commands: &Vec<PanelCommand>) -> (m: FooterModel)
    ensures
        m@ == history_model(*state, command_views(commands@)),
{
    let target_label = display_target(state);
    let mode_label = "current: history".to_owned();
    let has_commit = state.history_commit_header.is_some();
    let has_file = state.history_selected_path.is_some();
    let mut preview: Vec<FooterAction> = Vec::new();
    push_action(&mut preview, ".", "Actions", true);
    let mut history: Vec<FooterAction> = Vec::new();
    push_action(&mut history, "↑↓", "Move history selection", has_commit || has_file);
    match history_enter_label(state) {
        Some(label) => push_action(&mut history, "enter", label, true),
        None => {},
    }
    let mut sections: Vec<FooterSection> = Vec::new();
    push_section_if(&mut sections, "History", history);
    push_section_if(&mut sections, "Commit", actions_of_commands(commands, Some("Commit")));
    push_section_if(&mut sections, "Search & View", actions_of_commands(commands, Some("Search & View")));
    push_section_if(&mut sections, "Repo", actions_of_commands(commands, Some("Repo")));
    let m = FooterModel { target_label, mode_label, preview_actions: preview, sections };
    proof {
        let want = history_model(*state, command_views(commands@));
        assert(m@.preview =~= want.preview);
        assert(m@.sections =~= want.sections);
    }
    m
}

/// The model of the actions footer (see `footer_model`), given the commands that the
/// actions panel offers in the current state.
pub fn build_footer_model(state: &State, commands: &Vec<PanelCommand>) -> (m: FooterModel)
    ensures
        m@ == footer_model(*state, command_views(commands@)),
{
    if state.current_branch.is_none() && state.files.len() == 0 && state.commits.len() == 0 {
        let mut preview: Vec<FooterAction> = Vec::new();
        push_action(&mut preview, ".", "Actions", true);
        push_action(&mut preview, "o", "Open repo", true);
        let mut sections: Vec<FooterSection> = Vec::new();
        sections.push(section("Start", actions_of_commands(commands, None)));
        let m = FooterModel {
            target_label: "no repository".to_owned(),
            mode_label: "current: none".to_owned(),
            preview_actions: preview,
            sections,
        };
        proof {
            let want = footer_model(*state, command_views(commands@));
            assert(m@.preview =~= want.preview);
            assert(m@.sections =~= want.sections);
        }
        return m;
    }
    match state.sidebar_tab {
        SidebarTab::Changes => build_changes_model(state, commands),
        SidebarTab::History => build_history_model(state, commands),
    }
}

} // verus!
