use vstd::prelude::*;
use crate::history::{named_key_pressed, pressed_named, tab_switched, HistoryLoad};
use crate::shortcuts::{
    event_modifiers, is_primary_modifier_pressed, primary_pressed, shortcut_action_for_event, shortcut_for,
    Key, KeyboardEvent, Modifiers, NamedKey, ShortcutAction, ShortcutPlatform,
};
use crate::sidebar::{State, TargetView};
use crate::state::{ActivePane, ChangesFocus, HistoryFocus, ProjectSearch, SidebarTab};
use crate::repo::{composer_opened, project_picker_opened};
use crate::search::SEARCH_DEBOUNCE_MS;
use crate::update::{project_search_opened, search_closed, search_totals_fit};

verus! {

/// The shortcut that an event triggers: only key presses trigger one.
pub open spec fn event_shortcut(platform: ShortcutPlatform, event: KeyboardEvent) -> Option<ShortcutAction> {
    match event {
        KeyboardEvent::KeyPressed { key, modifiers } => shortcut_for(platform, key, modifiers),
        _ => None,
    }
}

/// The modifiers held during an event.
pub open spec fn modifiers_of(event: KeyboardEvent) -> Modifiers {
    match event {
        KeyboardEvent::KeyPressed { modifiers, .. } => modifiers,
        KeyboardEvent::KeyReleased { modifiers, .. } => modifiers,
        KeyboardEvent::ModifiersChanged(modifiers) => modifiers,
    }
}

/// Who handles a keyboard event.
#[derive(Debug, Clone, Copy, PartialEq, Eq, Structural)]
pub enum KeyRoute {
    /// The event was used up here (closing the actions panel or a context menu).
    Consumed,
    DiscardDialog,
    ProjectPicker,
    BranchPicker,
    ProjectSearch,
    CommitComposer,
    /// A shortcut that applies everywhere else.
    Shortcut(ShortcutAction),
    History,
    FileList,
    /// Nobody: the diff has the keyboard.
    Ignored,
}

/// The handler of an event, from the topmost open layer down (see `route_key`).
pub open spec fn spec_route(s: State, platform: ShortcutPlatform, event: KeyboardEvent) -> KeyRoute {
    if s.show_actions_panel && pressed_named(event) == Some(NamedKey::Escape) {
        KeyRoute::Consumed
    } else if s.sidebar_context_menu is Some && event is KeyPressed {
        KeyRoute::Consumed
    } else if s.discard_confirm is Some {
        KeyRoute::DiscardDialog
    } else if s.project_picker is Some {
        KeyRoute::ProjectPicker
    } else if s.branch_picker is Some {
        KeyRoute::BranchPicker
    } else if s.project_search matches Some(ps) && ps.is_open {
        KeyRoute::ProjectSearch
    } else if s.commit_composer is Some {
        KeyRoute::CommitComposer
    } else {
        match event_shortcut(platform, event) {
            Some(a) => KeyRoute::Shortcut(a),
            None => if s.sidebar_tab == SidebarTab::History {
                KeyRoute::History
            } else if s.active_pane == ActivePane::Sidebar {
                KeyRoute::FileList
            } else {
                KeyRoute::Ignored
            },
        }
    }
}

/// What closing the active element asks of the diff editor.
#[derive(Debug, Clone, Copy, PartialEq, Eq, Structural)]
pub enum CloseEffect {
    Nothing,
    /// Close the editor's search bar.
    CloseEditorSearch,
    /// Take the keyboard away from the editor.
    EditorLoseFocus,
}

/// What a key press does while the project search is open.
#[derive(Debug, Clone, Copy, PartialEq, Eq, Structural)]
pub enum SearchKey {
    Nothing,
    /// The search input lost the keyboard; the sidebar has it.
    UnfocusInput,
    /// The search closed.
    Closed,
    /// The search input takes the keyboard, its text selected.
    FocusInput,
    /// The file list handles the key.
    FileList,
}

/// What a key press does while the commit composer is open.
#[derive(Debug, Clone, Copy, PartialEq, Eq, Structural)]
pub enum CommitKey {
    Nothing,
    /// The composer closed.
    Closed,
    /// Submit the commit (see `submit_commit`).
    Submit,
}

/// `f` is `s` once the innermost active element closed, the diff editor's search bar
/// being open or not (see `close_active`).
pub open spec fn active_closed(s: State, f: State, editor_search_open: bool, e: CloseEffect) -> bool {
    &&& s.sidebar_tab == SidebarTab::History ==> match s.history_focus {
        HistoryFocus::DiffView => if editor_search_open {
            f == s && e == CloseEffect::CloseEditorSearch
        } else {
            f == (State { history_focus: HistoryFocus::FileList, ..s }) && e == CloseEffect::EditorLoseFocus
        },
        HistoryFocus::FileList => f == (State { history_focus: HistoryFocus::CommitList, ..s }) && e
            == CloseEffect::Nothing,
        HistoryFocus::CommitList => f == s && e == CloseEffect::Nothing,
    }
    &&& s.sidebar_tab == SidebarTab::Changes ==> match s.changes_focus {
        ChangesFocus::DiffView => if editor_search_open {
            f == s && e == CloseEffect::CloseEditorSearch
        } else {
            f == (State { changes_focus: ChangesFocus::FileList, active_pane: ActivePane::Sidebar, ..s }) && e
                == CloseEffect::EditorLoseFocus
        },
        ChangesFocus::FileList => if s.active_pane == ActivePane::Diff && editor_search_open {
            f == s && e == CloseEffect::CloseEditorSearch
        } else if s.selected_sidebar_targets@.len() > 0 {
            &&& f.selected_sidebar_targets@ == Set::<TargetView>::empty()
            &&& f == (State {
                selected_sidebar_targets: f.selected_sidebar_targets,
                selection_anchor_sidebar_target: None,
                ..s
            })
            &&& e == CloseEffect::Nothing
        } else {
            f == s && e == CloseEffect::Nothing
        },
    }
}

/// `f` is `s` once the diff editor's search was opened over the diff of the current tab,
/// `opened` telling whether there was one (see `open_diff_search`).
pub open spec fn diff_search_opened(s: State, f: State, opened: bool) -> bool {
    let has_diff = if s.sidebar_tab == SidebarTab::History {
        s.history_diff is Some
    } else {
        s.current_diff is Some
    };
    &&& opened == has_diff
    &&& !has_diff ==> f == s
    &&& has_diff && s.sidebar_tab == SidebarTab::History ==> f == (State {
        active_pane: ActivePane::Diff,
        history_focus: HistoryFocus::DiffView,
        ..s
    })
    &&& has_diff && s.sidebar_tab == SidebarTab::Changes ==> f == (State {
        active_pane: ActivePane::Diff,
        changes_focus: ChangesFocus::DiffView,
        ..s
    })
}

impl State {
    /// Decides who handles a keyboard event (see `spec_route`), remembering whether Alt
    /// is held; an Escape while the actions panel shows closes it, and any key press
    /// closes an open context menu.
    pub fn route_key(&mut self, platform: ShortcutPlatform, event: &KeyboardEvent) -> (r: KeyRoute)
        ensures
            r == spec_route(*old(self), platform, *event),
            ({
                let s = State { alt_pressed: modifiers_of(*event).alt, ..*old(self) };
                if old(self).show_actions_panel && pressed_named(*event) == Some(NamedKey::Escape) {
                    *final(self) == (State { show_actions_panel: false, ..s })
                } else if old(self).sidebar_context_menu is Some && *event is KeyPressed {
                    *final(self) == (State { sidebar_context_menu: None, ..s })
                } else {
                    *final(self) == s
                }
            }),
    {
        let modifiers = event_modifiers(event);
        self.alt_pressed = modifiers.alt;
        if self.show_actions_panel {
            if let Some(NamedKey::Escape) = named_key_pressed(event) {
                self.show_actions_panel = false;
                return KeyRoute::Consumed;
            }
        }
        let pressed = match event {
            KeyboardEvent::KeyPressed { .. } => true,
            _ => false,
        };
        if self.sidebar_context_menu.is_some() && pressed {
            self.sidebar_context_menu = None;
            return KeyRoute::Consumed;
        }
        if self.discard_confirm.is_some() {
            return KeyRoute::DiscardDialog;
        }
        if self.project_picker.is_some() {
            return KeyRoute::ProjectPicker;
        }
        if self.branch_picker.is_some() {
            return KeyRoute::BranchPicker;
        }
        if self.is_search_open() {
            return KeyRoute::ProjectSearch;
        }
        if self.commit_composer.is_some() {
            return KeyRoute::CommitComposer;
        }
        match shortcut_action_for_event(platform, event) {
            Some(a) => KeyRoute::Shortcut(a),
            None => {
                if self.sidebar_tab == SidebarTab::History {
                    KeyRoute::History
                } else if self.active_pane == ActivePane::Sidebar {
                    KeyRoute::FileList
                } else {
                    KeyRoute::Ignored
                }
            },
        }
    }

    /// Shows the actions panel, or hides it.
    pub fn toggle_actions_panel(&mut self)
        ensures
            *final(self) == (State { show_actions_panel: !old(self).show_actions_panel, ..*old(self) }),
    {
        self.show_actions_panel = !self.show_actions_panel;
    }

    /// The tab that the tab-switching shortcuts go to: the other one.
    pub fn other_tab(&self) -> (t: SidebarTab)
        ensures
            t == other_tab_of(self.sidebar_tab),
    {
        match self.sidebar_tab {
            SidebarTab::Changes => SidebarTab::History,
            SidebarTab::History => SidebarTab::Changes,
        }
    }

    /// Closes the innermost active element, given whether the diff editor's search bar
    /// is open: in the history, the diff gives the keyboard back to the file list and
    /// the file list to the commit list; in the changes, the diff gives it back to the
    /// sidebar, and the file list drops the explicit selection. An open editor search
    /// closes first while the diff has the keyboard.
    pub fn close_active(&mut self, editor_search_open: bool) -> (e: CloseEffect)
        ensures
            active_closed(*old(self), *final(self), editor_search_open, e),
    {
        if self.sidebar_tab == SidebarTab::History {
            match self.history_focus {
                HistoryFocus::DiffView => {
                    if editor_search_open {
                        CloseEffect::CloseEditorSearch
                    } else {
                        self.history_focus = HistoryFocus::FileList;
                        CloseEffect::EditorLoseFocus
                    }
                },
                HistoryFocus::FileList => {
                    self.history_focus = HistoryFocus::CommitList;
                    CloseEffect::Nothing
                },
                HistoryFocus::CommitList => CloseEffect::Nothing,
            }
        } else {
            match self.changes_focus {
                ChangesFocus::DiffView => {
                    if editor_search_open {
                        CloseEffect::CloseEditorSearch
                    } else {
                        self.changes_focus = ChangesFocus::FileList;
                        self.active_pane = ActivePane::Sidebar;
                        CloseEffect::EditorLoseFocus
                    }
                },
                ChangesFocus::FileList => {
                    if self.active_pane == ActivePane::Diff && editor_search_open {
                        CloseEffect::CloseEditorSearch
                    } else {
                        if self.has_explicit_selection() {
                            self.clear_explicit_selection();
                        }
                        CloseEffect::Nothing
                    }
                },
            }
        }
    }

    /// Opens the diff editor's search over the diff of the current tab: the diff takes
    /// the keyboard. Returns `false`, changing nothing, when the tab shows no diff.
    pub fn open_diff_search(&mut self) -> (opened: bool)
        ensures
            diff_search_opened(*old(self), *final(self), opened),
    {
        let has_diff = if self.sidebar_tab == SidebarTab::History {
            self.history_diff.is_some()
        } else {
            self.current_diff.is_some()
        };
        if !has_diff {
            return false;
        }
        self.active_pane = ActivePane::Diff;
        if self.sidebar_tab == SidebarTab::History {
            self.history_focus = HistoryFocus::DiffView;
        } else {
            self.changes_focus = ChangesFocus::DiffView;
        }
        true
    }

    /// Enter in the file list: the diff takes the keyboard if one is shown.
    pub fn focus_diff(&mut self) -> (focused: bool)
        ensures
            focused == old(self).current_diff is Some,
            focused ==> *final(self) == (State {
                changes_focus: ChangesFocus::DiffView,
                active_pane: ActivePane::Diff,
                ..*old(self)
            }),
            !focused ==> *final(self) == *old(self),
    {
        if self.current_diff.is_some() {
            self.changes_focus = ChangesFocus::DiffView;
            self.active_pane = ActivePane::Diff;
            true
        } else {
            false
        }
    }

    /// Closes the project search (its results are kept for reopening); a pending jump
    /// into a diff is dropped and the sidebar takes the keyboard.
    pub fn close_project_search(&mut self)
        ensures
            *final(self) == (State {
                project_search: match old(self).project_search {
                    Some(s) => Some(search_closed(s)),
                    None => None,
                },
                pending_diff_jump: None,
                active_pane: ActivePane::Sidebar,
                ..*old(self)
            }),
    {
        if let Some(search) = self.project_search.as_mut() {
            search.is_open = false;
        }
        self.pending_diff_jump = None;
        self.active_pane = ActivePane::Sidebar;
    }

    /// Handles a key press while the project search is open: Escape first takes the
    /// keyboard from the input, then closes the search; the project-search shortcut
    /// gives the keyboard back to the input; other keys go to the file list while the
    /// input does not have the keyboard and the sidebar has it.
    pub fn project_search_key(&mut self, platform: ShortcutPlatform, event: &KeyboardEvent) -> (k: SearchKey)
        ensures
            ({
                let focused = old(self).project_search matches Some(s) && s.input_focused;
                match event_shortcut(platform, *event) {
                    Some(ShortcutAction::CloseActive) => if focused {
                        &&& *final(self) == (State {
                            project_search: Some(ProjectSearch {
                                input_focused: false,
                                ..old(self).project_search->0
                            }),
                            active_pane: ActivePane::Sidebar,
                            ..*old(self)
                        })
                        &&& k == SearchKey::UnfocusInput
                    } else {
                        &&& *final(self) == (State {
                            project_search: match old(self).project_search {
                                Some(s) => Some(search_closed(s)),
                                None => None,
                            },
                            pending_diff_jump: None,
                            active_pane: ActivePane::Sidebar,
                            ..*old(self)
                        })
                        &&& k == SearchKey::Closed
                    },
                    Some(ShortcutAction::OpenProject) => match old(self).project_search {
                        Some(s) => *final(self) == (State {
                            project_search: Some(ProjectSearch { input_focused: true, ..s }),
                            ..*old(self)
                        }) && k == SearchKey::FocusInput,
                        None => *final(self) == *old(self) && k == SearchKey::Nothing,
                    },
                    Some(_) => *final(self) == *old(self) && k == SearchKey::Nothing,
                    None => *final(self) == *old(self) && k == if !focused && old(self).active_pane
                        == ActivePane::Sidebar {
                        SearchKey::FileList
                    } else {
                        SearchKey::Nothing
                    },
                }
            }),
    {
        let focused = match self.project_search.as_ref() {
            Some(s) => s.input_focused,
            None => false,
        };
        match shortcut_action_for_event(platform, event) {
            Some(ShortcutAction::CloseActive) => {
                if focused {
                    if let Some(search) = self.project_search.as_mut() {
                        search.input_focused = false;
                    }
                    self.active_pane = ActivePane::Sidebar;
                    SearchKey::UnfocusInput
                } else {
                    self.close_project_search();
                    SearchKey::Closed
                }
            },
            Some(ShortcutAction::OpenProject) => {
                if let Some(search) = self.project_search.as_mut() {
                    search.input_focused = true;
                    SearchKey::FocusInput
                } else {
                    SearchKey::Nothing
                }
            },
            Some(_) => SearchKey::Nothing,
            None => {
                if !focused && self.active_pane == ActivePane::Sidebar {
                    SearchKey::FileList
                } else {
                    SearchKey::Nothing
                }
            },
        }
    }

    /// Handles a key press while the commit composer is open: Escape closes it, the
    /// primary modifier with Enter submits, and the other shortcuts do nothing.
    pub fn commit_key(&mut self, platform: ShortcutPlatform, event: &KeyboardEvent) -> (k: CommitKey)
        ensures
            match event_shortcut(platform, *event) {
                Some(ShortcutAction::CloseActive) => *final(self) == (State {
                    commit_composer: None,
                    active_pane: ActivePane::Sidebar,
                    ..*old(self)
                }) && k == CommitKey::Closed,
                Some(_) => *final(self) == *old(self) && k == CommitKey::Nothing,
                None => *final(self) == *old(self) && k == match *event {
                    KeyboardEvent::KeyPressed { key: Key::Named(NamedKey::Enter), modifiers } => if primary_pressed(
                        platform,
                        modifiers,
                    ) {
                        CommitKey::Submit
                    } else {
                        CommitKey::Nothing
                    },
                    _ => CommitKey::Nothing,
                },
            },
    {
        match shortcut_action_for_event(platform, event) {
            Some(ShortcutAction::CloseActive) => {
                self.commit_composer = None;
                self.active_pane = ActivePane::Sidebar;
                CommitKey::Closed
            },
            Some(_) => CommitKey::Nothing,
            None => match event {
                KeyboardEvent::KeyPressed { key: Key::Named(NamedKey::Enter), modifiers } => {
                    if is_primary_modifier_pressed(platform, *modifiers) {
                        CommitKey::Submit
                    } else {
                        CommitKey::Nothing
                    }
                },
                _ => CommitKey::Nothing,
            },
        }
    }
}

/// What a shortcut did.
#[derive(Debug)]
pub enum ShortcutEffect {
    /// The project search opened; its input takes the keyboard with its text selected.
    SearchOpened,
    /// The diff editor's search opened (`true`), or there is no diff (`false`).
    DiffSearch(bool),
    /// The branches are to be listed (`true`), or the open branch picker closed (`false`).
    BranchPicker(bool),
    /// The project picker opened, its filter taking the keyboard (`true`), or it closed.
    ProjectPicker(bool),
    /// The actions panel was shown or hidden.
    PanelToggled,
    /// The sidebar switched to the other tab; the history may ask for something to load.
    TabSwitched(HistoryLoad),
    /// The innermost active element closed.
    Closed(CloseEffect),
    /// A zoom shortcut, for the window to apply.
    Zoom(ShortcutAction),
}

/// The other tab.
pub open spec fn other_tab_of(t: SidebarTab) -> SidebarTab {
    match t {
        SidebarTab::Changes => SidebarTab::History,
        SidebarTab::History => SidebarTab::Changes,
    }
}

impl State {
    /// Carries out a shortcut that no open layer took, given whether the diff editor's
    /// search bar is open and the query it holds, at `now_ms`: the search, picker and
    /// panel shortcuts open (or close) them, the tab shortcuts switch to the other tab,
    /// Escape closes the innermost active element, and zooming is left to the window.
    pub fn apply_shortcut(
        &mut self,
        action: ShortcutAction,
        editor_search_open: bool,
        editor_query: String,
        now_ms: u64,
    ) -> (r: ShortcutEffect)
        requires
            now_ms + SEARCH_DEBOUNCE_MS <= u64::MAX,
            search_totals_fit(old(self).project_search),
        ensures
            match action {
                ShortcutAction::OpenProject => r is SearchOpened && project_search_opened(
                    *old(self),
                    *final(self),
                    editor_query@,
                    now_ms,
                ),
                ShortcutAction::OpenDiff => r matches ShortcutEffect::DiffSearch(o) && diff_search_opened(
                    *old(self),
                    *final(self),
                    o,
                ),
                ShortcutAction::OpenBranchPicker => {
                    &&& r matches ShortcutEffect::BranchPicker(b) && b == old(self).branch_picker is None
                    &&& *final(self) == (State { branch_picker: None, ..*old(self) })
                },
                ShortcutAction::OpenProjectPicker => r matches ShortcutEffect::ProjectPicker(focus)
                    && project_picker_opened(*old(self), *final(self), focus),
                ShortcutAction::ToggleActionsPanel => r is PanelToggled && *final(self) == (State {
                    show_actions_panel: !old(self).show_actions_panel,
                    ..*old(self)
                }),
                ShortcutAction::PreviousTab | ShortcutAction::NextTab => r matches ShortcutEffect::TabSwitched(load)
                    && tab_switched(*old(self), *final(self), other_tab_of(old(self).sidebar_tab), load),
                ShortcutAction::CloseActive => r matches ShortcutEffect::Closed(e) && active_closed(
                    *old(self),
                    *final(self),
                    editor_search_open,
                    e,
                ),
                _ => r matches ShortcutEffect::Zoom(a) && a == action && *final(self) == *old(self),
            },
    {
        match action {
            ShortcutAction::OpenProject => {
                self.open_project_search(editor_query, now_ms);
                ShortcutEffect::SearchOpened
            },
            ShortcutAction::OpenDiff => ShortcutEffect::DiffSearch(self.open_diff_search()),
            ShortcutAction::OpenBranchPicker => ShortcutEffect::BranchPicker(self.open_branch_picker()),
            ShortcutAction::OpenProjectPicker => ShortcutEffect::ProjectPicker(self.open_project_picker()),
            ShortcutAction::ToggleActionsPanel => {
                self.toggle_actions_panel();
                ShortcutEffect::PanelToggled
            },
            ShortcutAction::PreviousTab | ShortcutAction::NextTab => {
                let tab = self.other_tab();
                ShortcutEffect::TabSwitched(self.switch_sidebar_tab(tab))
            },
            ShortcutAction::CloseActive => ShortcutEffect::Closed(self.close_active(editor_search_open)),
            _ => ShortcutEffect::Zoom(action),
        }
    }
}


/// A command that the actions panel offers.
#[derive(Debug, Clone, Copy, PartialEq, Eq, Structural)]
pub enum ActionsSurfaceCommand {
    OpenRepo,
    OpenBranchPicker,
    OpenProjectPicker,
    OpenProjectSearch,
    OpenCommitComposer,
    SearchDiff,
    SwitchToHistoryTab,
    SwitchToChangesTab,
    CopyCommitHash,
}

/// What a command of the actions panel did.
#[derive(Debug)]
pub enum PanelEffect {
    /// Nothing more is to be done.
    Nothing,
    /// The dialog that picks a repository to open is to be shown.
    OpenRepo,
    /// The branches are to be listed (`true`), or the open branch picker closed (`false`).
    BranchPicker(bool),
    /// The project picker opened, its filter taking the keyboard (`true`), or it closed.
    ProjectPicker(bool),
    /// The project search opened; its input takes the keyboard.
    SearchOpened,
    /// The commit composer opened; its input takes the keyboard.
    ComposerOpened,
    /// The diff editor's search opened (`true`), or there is no diff (`false`).
    DiffSearch(bool),
    /// The sidebar switched tabs; the history may ask for something to load.
    TabSwitched(HistoryLoad),
    /// This commit hash is to be copied to the clipboard.
    CopyHash(String),
}

/// The character of a key press without any modifier: what the actions panel looks up
/// among its commands.
pub fn panel_command_key(event: &KeyboardEvent) -> (r: Option<String>)
    ensures
        match *event {
            KeyboardEvent::KeyPressed { key: Key::Character(c), modifiers } => if !modifiers.shift
                && !modifiers.control && !modifiers.alt && !modifiers.logo {
                r matches Some(k) && k@ == c@
            } else {
                r is None
            },
            _ => r is None,
        },
{
    match event {
        KeyboardEvent::KeyPressed { key: Key::Character(c), modifiers } => {
            if !modifiers.shift && !modifiers.control && !modifiers.alt && !modifiers.logo {
                Some(c.clone())
            } else {
                None
            }
        },
        _ => None,
    }
}

impl State {
    /// Carries out a command of the actions panel, given the diff editor's query and the
    /// time: the panel closes, then the command opens the dialog, picker, search or
    /// composer it names, switches tabs, or gives the hash of the commit shown in the
    /// history to copy (nothing when none is shown).
    pub fn run_panel_command(
        &mut self,
        command: ActionsSurfaceCommand,
        editor_query: String,
        now_ms: u64,
    ) -> (r: PanelEffect)
        requires
            now_ms + SEARCH_DEBOUNCE_MS <= u64::MAX,
            search_totals_fit(old(self).project_search),
        ensures
            ({
                let s = State { show_actions_panel: false, ..*old(self) };
                match command {
                    ActionsSurfaceCommand::OpenRepo => r is OpenRepo && *final(self) == s,
                    ActionsSurfaceCommand::OpenBranchPicker => {
                        &&& r matches PanelEffect::BranchPicker(b) && b == old(self).branch_picker is None
                        &&& *final(self) == (State { branch_picker: None, ..s })
                    },
                    ActionsSurfaceCommand::OpenProjectPicker => r matches PanelEffect::ProjectPicker(focus)
                        && project_picker_opened(s, *final(self), focus),
                    ActionsSurfaceCommand::OpenProjectSearch => r is SearchOpened && project_search_opened(
                        s,
                        *final(self),
                        editor_query@,
                        now_ms,
                    ),
                    ActionsSurfaceCommand::OpenCommitComposer => r is ComposerOpened && composer_opened(
                        s,
                        *final(self),
                    ),
                    ActionsSurfaceCommand::SearchDiff => r matches PanelEffect::DiffSearch(o)
                        && diff_search_opened(s, *final(self), o),
                    ActionsSurfaceCommand::SwitchToHistoryTab => r matches PanelEffect::TabSwitched(load)
                        && tab_switched(s, *final(self), SidebarTab::History, load),
                    ActionsSurfaceCommand::SwitchToChangesTab => r matches PanelEffect::TabSwitched(load)
                        && tab_switched(s, *final(self), SidebarTab::Changes, load),
                    ActionsSurfaceCommand::CopyCommitHash => *final(self) == s && match old(
                        self,
                    ).history_commit_header {
                        Some(c) => r matches PanelEffect::CopyHash(h) && h@ == c.hash@,
                        None => r is Nothing,
                    },
                }
            }),
    {
        self.show_actions_panel = false;
        match command {
            ActionsSurfaceCommand::OpenRepo => PanelEffect::OpenRepo,
            ActionsSurfaceCommand::OpenBranchPicker => PanelEffect::BranchPicker(self.open_branch_picker()),
            ActionsSurfaceCommand::OpenProjectPicker => PanelEffect::ProjectPicker(self.open_project_picker()),
            ActionsSurfaceCommand::OpenProjectSearch => {
                self.open_project_search(editor_query, now_ms);
                PanelEffect::SearchOpened
            },
            ActionsSurfaceCommand::OpenCommitComposer => {
                self.open_commit_composer();
                PanelEffect::ComposerOpened
            },
            ActionsSurfaceCommand::SearchDiff => PanelEffect::DiffSearch(self.open_diff_search()),
            ActionsSurfaceCommand::SwitchToHistoryTab => PanelEffect::TabSwitched(
                self.switch_sidebar_tab(SidebarTab::History),
            ),
            ActionsSurfaceCommand::SwitchToChangesTab => PanelEffect::TabSwitched(
                self.switch_sidebar_tab(SidebarTab::Changes),
            ),
            ActionsSurfaceCommand::CopyCommitHash => match self.history_commit_header.as_ref() {
                Some(c) => PanelEffect::CopyHash(c.hash.clone()),
                None => PanelEffect::Nothing,
            },
        }
    }
}

} // verus!
