use anduin::config::ThemePreference;
use anduin::git::diff::{ChangedFile, FileDiff, FileStatus};
use anduin::history::HistoryLoad;
use anduin::keyboard::{panel_command_key, ActionsSurfaceCommand, CloseEffect, CommitKey, KeyRoute, PanelEffect, ShortcutEffect};
use anduin::shortcuts::{Key, KeyboardEvent, Modifiers, NamedKey, ShortcutAction, ShortcutPlatform};
use anduin::sidebar::{SidebarTarget, State};
use anduin::state::{
    ActivePane, ChangesFocus, Commit, DiscardButton, DiscardConfirm, HistoryFocus, SidebarContextMenu, SidebarTab,
};

fn test_state() -> State {
    let mut state =
        State::boot("/tmp/test-repo".to_owned(), "test-repo".to_owned(), ThemePreference::Dark, Vec::new());
    state.files = vec![ChangedFile {
        path: "src/main.rs".to_owned(),
        status: FileStatus::Modified,
        staged: false,
        unstaged: true,
    }];
    state.refresh_in_flight = false;
    state.sync_tree_state();
    state.ensure_rows_cached();
    state
}

fn press(key: NamedKey) -> KeyboardEvent {
    KeyboardEvent::KeyPressed { key: Key::Named(key), modifiers: Modifiers::default() }
}

fn press_with(key: Key, modifiers: Modifiers) -> KeyboardEvent {
    KeyboardEvent::KeyPressed { key, modifiers }
}

fn cmd() -> Modifiers {
    Modifiers { shift: false, control: false, alt: false, logo: true }
}

fn diff() -> FileDiff {
    FileDiff { path: "src/main.rs".to_owned(), raw_patch: "+a\n".to_owned() }
}

#[test]
fn toggle_actions_panel_flips_open_state() {
    let mut state = test_state();

    state.toggle_actions_panel();
    assert!(state.show_actions_panel);

    state.toggle_actions_panel();
    assert!(!state.show_actions_panel);
}

#[test]
fn escape_closes_actions_panel_before_other_navigation() {
    let mut state = test_state();
    state.show_actions_panel = true;

    let route = state.route_key(ShortcutPlatform::Mac, &press(NamedKey::Escape));

    assert_eq!(route, KeyRoute::Consumed);
    assert!(!state.show_actions_panel);
}

#[test]
fn keys_go_to_the_topmost_open_layer() {
    let mut state = test_state();
    assert_eq!(state.route_key(ShortcutPlatform::Mac, &press(NamedKey::ArrowDown)), KeyRoute::FileList);

    state.commit_composer = Some(anduin::state::CommitComposer::new());
    assert_eq!(state.route_key(ShortcutPlatform::Mac, &press(NamedKey::ArrowDown)), KeyRoute::CommitComposer);
    state.open_project_search(String::new(), 0);
    assert_eq!(state.route_key(ShortcutPlatform::Mac, &press(NamedKey::ArrowDown)), KeyRoute::ProjectSearch);
    state.branch_picker = Some(anduin::state::BranchPicker::new(Vec::new(), "main".to_owned()));
    assert_eq!(state.route_key(ShortcutPlatform::Mac, &press(NamedKey::ArrowDown)), KeyRoute::BranchPicker);
    assert!(state.open_project_picker());
    assert_eq!(state.route_key(ShortcutPlatform::Mac, &press(NamedKey::ArrowDown)), KeyRoute::ProjectPicker);
    state.discard_confirm = Some(DiscardConfirm { paths: Vec::new(), focused_button: DiscardButton::Cancel });
    assert_eq!(state.route_key(ShortcutPlatform::Mac, &press(NamedKey::ArrowDown)), KeyRoute::DiscardDialog);

    state.sidebar_context_menu = Some(SidebarContextMenu { path: "src".to_owned(), is_dir: true, row_index: 1 });
    assert_eq!(state.route_key(ShortcutPlatform::Mac, &press(NamedKey::ArrowDown)), KeyRoute::Consumed);
    assert!(state.sidebar_context_menu.is_none());
}

#[test]
fn shortcuts_and_tabs_route_without_open_layers() {
    let mut state = test_state();
    let open_diff = press_with(Key::Character("f".to_owned()), cmd());
    assert_eq!(state.route_key(ShortcutPlatform::Mac, &open_diff), KeyRoute::Shortcut(ShortcutAction::OpenDiff));
    state.sidebar_tab = SidebarTab::History;
    assert_eq!(state.route_key(ShortcutPlatform::Mac, &press(NamedKey::ArrowDown)), KeyRoute::History);
    state.sidebar_tab = SidebarTab::Changes;
    state.active_pane = ActivePane::Diff;
    assert_eq!(state.route_key(ShortcutPlatform::Mac, &press(NamedKey::ArrowDown)), KeyRoute::Ignored);
    assert_eq!(state.other_tab(), SidebarTab::History);
}

#[test]
fn alt_is_remembered_from_every_event() {
    let mut state = test_state();
    let alt = Modifiers { shift: false, control: false, alt: true, logo: false };
    let _ = state.route_key(ShortcutPlatform::Linux, &KeyboardEvent::ModifiersChanged(alt));
    assert!(state.alt_pressed);
    let _ = state.route_key(ShortcutPlatform::Linux, &KeyboardEvent::ModifiersChanged(Modifiers::default()));
    assert!(!state.alt_pressed);
}

#[test]
fn closing_steps_back_one_pane_at_a_time() {
    let mut state = test_state();
    state.sidebar_tab = SidebarTab::History;
    state.history_focus = HistoryFocus::DiffView;
    assert_eq!(state.close_active(true), CloseEffect::CloseEditorSearch);
    assert_eq!(state.history_focus, HistoryFocus::DiffView);
    assert_eq!(state.close_active(false), CloseEffect::EditorLoseFocus);
    assert_eq!(state.history_focus, HistoryFocus::FileList);
    assert_eq!(state.close_active(false), CloseEffect::Nothing);
    assert_eq!(state.history_focus, HistoryFocus::CommitList);

    state.sidebar_tab = SidebarTab::Changes;
    state.changes_focus = ChangesFocus::DiffView;
    state.active_pane = ActivePane::Diff;
    assert_eq!(state.close_active(false), CloseEffect::EditorLoseFocus);
    assert_eq!(state.changes_focus, ChangesFocus::FileList);
    assert_eq!(state.active_pane, ActivePane::Sidebar);

    state.selected_sidebar_targets.insert(SidebarTarget::Root);
    assert_eq!(state.close_active(true), CloseEffect::Nothing);
    assert!(!state.has_explicit_selection());
}

#[test]
fn diff_search_needs_a_diff() {
    let mut state = test_state();
    assert!(!state.open_diff_search());
    assert!(!state.focus_diff());
    state.current_diff = Some(diff());
    assert!(state.open_diff_search());
    assert_eq!(state.active_pane, ActivePane::Diff);
    assert_eq!(state.changes_focus, ChangesFocus::DiffView);

    state.sidebar_tab = SidebarTab::History;
    assert!(!state.open_diff_search());
    state.history_diff = Some(diff());
    assert!(state.open_diff_search());
    assert_eq!(state.history_focus, HistoryFocus::DiffView);
}

#[test]
fn enter_in_the_file_list_focuses_the_diff() {
    let mut state = test_state();
    state.current_diff = Some(diff());
    assert!(state.focus_diff());
    assert_eq!(state.active_pane, ActivePane::Diff);
    assert_eq!(state.changes_focus, ChangesFocus::DiffView);
}

#[test]
fn commit_composer_keys() {
    let mut state = test_state();
    state.open_commit_composer();
    let enter = press(NamedKey::Enter);
    assert_eq!(state.commit_key(ShortcutPlatform::Mac, &enter), CommitKey::Nothing);
    let cmd_enter = press_with(Key::Named(NamedKey::Enter), cmd());
    assert_eq!(state.commit_key(ShortcutPlatform::Mac, &cmd_enter), CommitKey::Submit);
    assert_eq!(state.commit_key(ShortcutPlatform::Linux, &cmd_enter), CommitKey::Nothing);
    let tab_switch = press_with(
        Key::Character("]".to_owned()),
        Modifiers { shift: true, control: false, alt: false, logo: true },
    );
    assert_eq!(state.commit_key(ShortcutPlatform::Mac, &tab_switch), CommitKey::Nothing);
    assert!(state.commit_composer.is_some());
    assert_eq!(state.commit_key(ShortcutPlatform::Mac, &press(NamedKey::Escape)), CommitKey::Closed);
    assert!(state.commit_composer.is_none());
}

#[test]
fn shortcuts_open_and_close_things() {
    let mut state = test_state();
    assert!(matches!(
        state.apply_shortcut(ShortcutAction::OpenProject, false, "needle".to_owned(), 10),
        ShortcutEffect::SearchOpened
    ));
    assert!(state.project_search.as_ref().is_some_and(|s| s.query == "needle" && s.is_open));

    assert!(matches!(state.apply_shortcut(ShortcutAction::OpenDiff, false, String::new(), 10), ShortcutEffect::DiffSearch(false)));
    state.current_diff = Some(diff());
    assert!(matches!(state.apply_shortcut(ShortcutAction::OpenDiff, false, String::new(), 10), ShortcutEffect::DiffSearch(true)));
    assert_eq!(state.active_pane, ActivePane::Diff);

    assert!(matches!(
        state.apply_shortcut(ShortcutAction::OpenBranchPicker, false, String::new(), 10),
        ShortcutEffect::BranchPicker(true)
    ));
    assert!(matches!(
        state.apply_shortcut(ShortcutAction::OpenProjectPicker, false, String::new(), 10),
        ShortcutEffect::ProjectPicker(true)
    ));
    assert!(matches!(
        state.apply_shortcut(ShortcutAction::OpenProjectPicker, false, String::new(), 10),
        ShortcutEffect::ProjectPicker(false)
    ));
    assert!(matches!(
        state.apply_shortcut(ShortcutAction::ToggleActionsPanel, false, String::new(), 10),
        ShortcutEffect::PanelToggled
    ));
    assert!(state.show_actions_panel);

    let switched = state.apply_shortcut(ShortcutAction::NextTab, false, String::new(), 10);
    assert!(matches!(switched, ShortcutEffect::TabSwitched(HistoryLoad::Commits { skip: 0 })));
    assert_eq!(state.sidebar_tab, SidebarTab::History);
    let back = state.apply_shortcut(ShortcutAction::PreviousTab, false, String::new(), 10);
    assert!(matches!(back, ShortcutEffect::TabSwitched(HistoryLoad::Nothing)));
    assert_eq!(state.sidebar_tab, SidebarTab::Changes);

    state.changes_focus = ChangesFocus::DiffView;
    assert!(matches!(
        state.apply_shortcut(ShortcutAction::CloseActive, true, String::new(), 10),
        ShortcutEffect::Closed(CloseEffect::CloseEditorSearch)
    ));
    assert!(matches!(
        state.apply_shortcut(ShortcutAction::ZoomIn, false, String::new(), 10),
        ShortcutEffect::Zoom(ShortcutAction::ZoomIn)
    ));
}

#[test]
fn panel_command_key_takes_bare_characters_only() {
    assert_eq!(
        panel_command_key(&press_with(Key::Character("p".to_owned()), Modifiers::default())),
        Some("p".to_owned())
    );
    assert_eq!(panel_command_key(&press_with(Key::Character("p".to_owned()), cmd())), None);
    assert_eq!(panel_command_key(&press(NamedKey::Enter)), None);
}

#[test]
fn panel_project_picker_command_opens_picker_and_closes_panel() {
    let mut state = test_state();
    state.show_actions_panel = true;
    let effect = state.run_panel_command(ActionsSurfaceCommand::OpenProjectPicker, String::new(), 0);
    assert!(matches!(effect, PanelEffect::ProjectPicker(true)));
    assert!(state.project_picker.is_some());
    assert!(!state.show_actions_panel);
}

#[test]
fn panel_history_command_switches_to_history_tab() {
    let mut state = test_state();
    state.show_actions_panel = true;
    let effect = state.run_panel_command(ActionsSurfaceCommand::SwitchToHistoryTab, String::new(), 0);
    assert!(matches!(effect, PanelEffect::TabSwitched(_)));
    assert_eq!(state.sidebar_tab, SidebarTab::History);
}

#[test]
fn panel_commit_command_opens_composer_and_closes_panel() {
    let mut state = test_state();
    state.show_actions_panel = true;
    let effect = state.run_panel_command(ActionsSurfaceCommand::OpenCommitComposer, String::new(), 0);
    assert!(matches!(effect, PanelEffect::ComposerOpened));
    assert!(state.commit_composer.is_some());
    assert!(!state.show_actions_panel);
}

#[test]
fn panel_search_diff_command_focuses_the_diff() {
    let mut state = test_state();
    state.show_actions_panel = true;
    state.current_diff = Some(diff());
    let effect = state.run_panel_command(ActionsSurfaceCommand::SearchDiff, String::new(), 0);
    assert!(matches!(effect, PanelEffect::DiffSearch(true)));
    assert_eq!(state.changes_focus, ChangesFocus::DiffView);
    assert!(!state.show_actions_panel);
}

#[test]
fn panel_copy_hash_command_gives_the_shown_commit_hash() {
    let mut state = test_state();
    state.show_actions_panel = true;
    state.sidebar_tab = SidebarTab::History;
    state.history_commit_header = Some(Commit {
        hash: "abc1234deadbeef".to_owned(),
        short_hash: "abc1234".to_owned(),
        author: "Test User".to_owned(),
        date: "2026-03-12".to_owned(),
        message: "Test commit".to_owned(),
    });
    match state.run_panel_command(ActionsSurfaceCommand::CopyCommitHash, String::new(), 0) {
        PanelEffect::CopyHash(h) => assert_eq!(h, "abc1234deadbeef"),
        other => panic!("unexpected {:?}", other),
    }
    assert!(!state.show_actions_panel);
    state.history_commit_header = None;
    assert!(matches!(
        state.run_panel_command(ActionsSurfaceCommand::CopyCommitHash, String::new(), 0),
        PanelEffect::Nothing
    ));
}

#[test]
fn panel_open_repo_command_asks_for_a_repository() {
    let mut state = test_state();
    state.show_actions_panel = true;
    let effect = state.run_panel_command(ActionsSurfaceCommand::OpenRepo, String::new(), 0);
    assert!(matches!(effect, PanelEffect::OpenRepo));
    assert!(!state.show_actions_panel);
}

#[test]
fn panel_branch_picker_command_starts_listing_branches() {
    let mut state = test_state();
    state.current_branch = Some("main".to_owned());
    state.show_actions_panel = true;
    let effect = state.run_panel_command(ActionsSurfaceCommand::OpenBranchPicker, String::new(), 0);
    assert!(matches!(effect, PanelEffect::BranchPicker(true)));
    assert!(!state.show_actions_panel);
}

#[test]
fn panel_project_search_command_opens_the_search() {
    let mut state = test_state();
    state.current_branch = Some("main".to_owned());
    state.show_actions_panel = true;
    let effect = state.run_panel_command(ActionsSurfaceCommand::OpenProjectSearch, String::new(), 0);
    assert!(matches!(effect, PanelEffect::SearchOpened));
    assert!(state.project_search.is_some());
    assert!(!state.show_actions_panel);
}

#[test]
fn panel_search_diff_command_in_history_focuses_the_history_diff() {
    let mut state = test_state();
    state.current_branch = Some("main".to_owned());
    state.show_actions_panel = true;
    state.sidebar_tab = SidebarTab::History;
    state.history_focus = HistoryFocus::FileList;
    state.history_diff = Some(diff());
    let effect = state.run_panel_command(ActionsSurfaceCommand::SearchDiff, String::new(), 0);
    assert!(matches!(effect, PanelEffect::DiffSearch(true)));
    assert!(!state.show_actions_panel);
    assert_eq!(state.history_focus, HistoryFocus::DiffView);
}

#[test]
fn panel_commit_command_then_t_keeps_the_tab() {
    let mut state = test_state();
    state.current_branch = Some("main".to_owned());
    state.show_actions_panel = true;
    let _ = state.run_panel_command(ActionsSurfaceCommand::OpenCommitComposer, String::new(), 0);
    let t = press_with(Key::Character("t".to_owned()), Modifiers::default());
    assert_eq!(state.route_key(ShortcutPlatform::Linux, &t), KeyRoute::CommitComposer);
    assert!(matches!(state.commit_key(ShortcutPlatform::Linux, &t), CommitKey::Nothing));
    assert_eq!(state.sidebar_tab, SidebarTab::Changes);
    assert!(state.commit_composer.is_some());
}
