use anduin::git::diff::{ChangedFile, FileStatus};
use anduin::navigation::{
    file_list_command, file_parent_target, files_message, modifiers_alt_only, modifiers_without_shift,
    no_shortcut_modifiers, parent_dir_target, sidebar_row_depth, FileListCommand, RowOutcome, StageAllPlan,
    StagePlan,
};
use anduin::shortcuts::{Key, KeyboardEvent, Modifiers, NamedKey};
use anduin::config::ThemePreference;
use anduin::sidebar::{SidebarTarget, State};
use anduin::tree::SidebarRow;

fn changed_file(path: &str, staged: bool) -> ChangedFile {
    ChangedFile { path: path.to_owned(), status: FileStatus::Modified, staged, unstaged: !staged }
}

fn state_with(files: Vec<ChangedFile>) -> State {
    let mut state = State::boot("/work/repo".to_owned(), "repo".to_owned(), ThemePreference::Light, Vec::new());
    state.files = files;
    state.refresh_in_flight = false;
    state.sync_tree_state();
    state.ensure_rows_cached();
    state
}

fn files() -> Vec<ChangedFile> {
    vec![changed_file("a/x.rs", false), changed_file("a/y.rs", true), changed_file("b.rs", false)]
}

fn press(key: Key, modifiers: Modifiers) -> KeyboardEvent {
    KeyboardEvent::KeyPressed { key, modifiers }
}

#[test]
fn parents_of_paths() {
    assert!(matches!(parent_dir_target("a/b/c"), Some(SidebarTarget::Dir(p)) if p == "a/b"));
    assert!(parent_dir_target("top").is_none());
    assert!(matches!(file_parent_target("src/main.rs"), Some(SidebarTarget::Dir(p)) if p == "src"));
    let row = SidebarRow::Root { name: "r".to_owned(), expanded: true };
    assert_eq!(sidebar_row_depth(&row), 0);
}

#[test]
fn modifier_classes() {
    let shift = Modifiers { shift: true, ..Modifiers::default() };
    let alt = Modifiers { alt: true, ..Modifiers::default() };
    assert!(modifiers_without_shift(shift));
    assert!(!modifiers_without_shift(alt));
    assert!(modifiers_alt_only(alt));
    assert!(!no_shortcut_modifiers(shift));
    assert!(no_shortcut_modifiers(Modifiers::default()));
}

#[test]
fn file_list_keys_map_to_commands() {
    let none = Modifiers::default();
    let shift = Modifiers { shift: true, ..none };
    let alt = Modifiers { alt: true, ..none };
    assert_eq!(
        file_list_command(&press(Key::Named(NamedKey::ArrowDown), shift)),
        FileListCommand::Navigate { delta: 1, extend: true }
    );
    assert_eq!(
        file_list_command(&press(Key::Named(NamedKey::ArrowUp), none)),
        FileListCommand::Navigate { delta: -1, extend: false }
    );
    assert_eq!(
        file_list_command(&press(Key::Named(NamedKey::ArrowLeft), alt)),
        FileListCommand::Collapse { recursive: true }
    );
    assert_eq!(
        file_list_command(&press(Key::Named(NamedKey::ArrowRight), none)),
        FileListCommand::Expand { recursive: false }
    );
    assert_eq!(file_list_command(&press(Key::Character("A".to_owned()), none)), FileListCommand::ToggleStageAll);
    assert_eq!(file_list_command(&press(Key::Character("a".to_owned()), shift)), FileListCommand::Nothing);
    assert_eq!(file_list_command(&press(Key::Named(NamedKey::Delete), none)), FileListCommand::RequestDiscard);
    assert_eq!(file_list_command(&press(Key::Named(NamedKey::Escape), alt)), FileListCommand::ClearSelection);
    assert_eq!(
        file_list_command(&KeyboardEvent::KeyReleased { key: Key::Named(NamedKey::Enter), modifiers: none }),
        FileListCommand::Nothing
    );
}

#[test]
fn navigation_moves_focus_and_extends_selection() {
    let mut state = state_with(files());
    // rows: root, a, a/x.rs, a/y.rs, b.rs
    assert_eq!(state.cached_rows.len(), 5);
    let t = state.navigate_visible_rows(1, false).unwrap();
    assert!(matches!(t, SidebarTarget::Dir(ref p) if p == "a"));
    assert_eq!(state.focus_sidebar_target(t), None);
    let t = state.navigate_visible_rows(2, true).unwrap();
    assert!(matches!(t, SidebarTarget::File(ref p) if p == "a/y.rs"));
    assert_eq!(state.selected_file_count(), 3);
    assert_eq!(state.focus_sidebar_target(t), Some(1));
    assert!(state.navigate_visible_rows(100, false).is_some());
    assert_eq!(state.selected_file_count(), 0);
    assert!(state.navigate_visible_rows(-100, false).is_some());
}

#[test]
fn collapse_and_expand_focused_rows() {
    let mut state = state_with(files());
    state.focused_sidebar_target = Some(SidebarTarget::Dir("a".to_owned()));
    assert!(matches!(state.collapse_focused_row(false), RowOutcome::Scroll));
    assert_eq!(state.cached_rows.len(), 3);
    match state.collapse_focused_row(false) {
        RowOutcome::Focus(SidebarTarget::Root) => {}
        other => panic!("unexpected {other:?}"),
    }
    assert!(matches!(state.expand_focused_row(false), RowOutcome::Scroll));
    assert_eq!(state.cached_rows.len(), 5);
    match state.expand_focused_row(false) {
        RowOutcome::Focus(SidebarTarget::File(p)) => assert_eq!(p, "a/x.rs"),
        other => panic!("unexpected {other:?}"),
    }
    state.focused_sidebar_target = Some(SidebarTarget::File("a/x.rs".to_owned()));
    assert!(matches!(state.expand_focused_row(true), RowOutcome::Nothing));
    match state.collapse_focused_row(false) {
        RowOutcome::Focus(SidebarTarget::Dir(p)) => assert_eq!(p, "a"),
        other => panic!("unexpected {other:?}"),
    }
}

#[test]
fn selecting_a_file_expands_its_parents() {
    let mut state = state_with(files());
    state.toggle_dir(&"a".to_owned(), false);
    state.ensure_rows_cached();
    assert_eq!(state.select_file(1), Some(1));
    assert_eq!(state.selected_path.as_deref(), Some("a/y.rs"));
    assert!(state.expanded_dirs.contains(&"a".to_owned()));
    assert_eq!(state.cached_rows.len(), 5);
    assert_eq!(state.select_file(9), None);
}

#[test]
fn staging_plans() {
    let mut state = state_with(files());
    assert!(matches!(state.toggle_stage_plan(), StagePlan::Nothing));
    state.focused_sidebar_target = Some(SidebarTarget::File("a/y.rs".to_owned()));
    assert!(matches!(state.toggle_stage_plan(), StagePlan::Unstage(ref v) if v == &vec!["a/y.rs".to_owned()]));
    state.focused_sidebar_target = Some(SidebarTarget::Dir("a".to_owned()));
    assert!(matches!(state.toggle_stage_plan(), StagePlan::Stage(ref v) if v.len() == 2));
    assert_eq!(state.stage_all_plan(), StageAllPlan::StageAll(3));
    let all_staged = state_with(vec![changed_file("a", true), changed_file("b", true)]);
    assert_eq!(all_staged.stage_all_plan(), StageAllPlan::UnstageAll(2));
    let empty = state_with(Vec::new());
    assert_eq!(empty.stage_all_plan(), StageAllPlan::Nothing);
    assert_eq!(files_message("Staged", 1), "Staged 1 file");
    assert_eq!(files_message("Unstaged", 3), "Unstaged 3 files");
}

#[test]
fn unstage_all_needs_something_staged() {
    let state = state_with(vec![changed_file("a.rs", false)]);
    assert_eq!(state.unstage_all_plan(), StageAllPlan::Nothing);
    let state = state_with(files());
    assert_eq!(state.unstage_all_plan(), StageAllPlan::UnstageAll(1));
}
