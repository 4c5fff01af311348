use anduin::config::ThemePreference;
use anduin::git::diff::{ChangedFile, FileStatus};
use anduin::repo::{committed_message, copy_strings, BranchKey};
use anduin::shortcuts::{Key, KeyboardEvent, Modifiers, NamedKey};
use anduin::sidebar::{SidebarTarget, State};
use anduin::state::{BranchPicker, DiscardButton, StatusTone};
use anduin::watch::Event;

fn test_state(files: Vec<ChangedFile>) -> State {
    let mut state =
        State::boot("/work/repo".to_owned(), "repo".to_owned(), ThemePreference::Dark, Vec::new());
    state.files = files;
    state.refresh_in_flight = false;
    state.sync_tree_state();
    state.ensure_rows_cached();
    state
}

fn changed_file(path: &str, staged: bool) -> ChangedFile {
    ChangedFile { path: path.to_owned(), status: FileStatus::Modified, staged, unstaged: !staged }
}

fn press(key: NamedKey) -> KeyboardEvent {
    KeyboardEvent::KeyPressed { key: Key::Named(key), modifiers: Modifiers::default() }
}

fn status(state: &State) -> Option<(String, StatusTone)> {
    state.status_message.as_ref().map(|m| (m.text.clone(), m.tone))
}

#[test]
fn boot_moves_the_repository_to_the_front_of_the_recent_ones() {
    let recent = vec!["/a".to_owned(), "/work/repo".to_owned(), "/b".to_owned()];
    let state = State::boot("/work/repo".to_owned(), "repo".to_owned(), ThemePreference::Light, recent);
    assert_eq!(state.recent_repos, vec!["/work/repo", "/a", "/b"]);
    assert!(state.refresh_in_flight);
    assert!(state.tree_dirty);
    assert!(state.files.is_empty());
}

#[test]
fn committed_message_names_sha_and_summary() {
    assert_eq!(committed_message("abc123", "Fix it"), "Committed abc123 — Fix it");
}

#[test]
fn copy_strings_keeps_order() {
    let v = vec!["x".to_owned(), "y".to_owned()];
    assert_eq!(copy_strings(&v), v);
}

#[test]
fn submitting_needs_a_summary_and_staged_changes() {
    let mut state = test_state(vec![changed_file("a.rs", false)]);
    assert!(state.submit_commit().is_none());

    state.open_commit_composer();
    state.commit_summary_changed("   ".to_owned());
    assert!(state.submit_commit().is_none());
    assert_eq!(
        state.commit_composer.as_ref().and_then(|c| c.error.clone()).as_deref(),
        Some("Enter a commit summary")
    );

    state.commit_summary_changed("  Fix bug ".to_owned());
    assert!(state.commit_composer.as_ref().is_some_and(|c| c.error.is_none()));
    assert!(state.submit_commit().is_none());
    assert_eq!(
        state.commit_composer.as_ref().and_then(|c| c.error.clone()).as_deref(),
        Some("No staged changes to commit")
    );

    state.files = vec![changed_file("a.rs", true)];
    assert_eq!(state.submit_commit().as_deref(), Some("Fix bug"));
    assert!(state.commit_composer.as_ref().is_some_and(|c| c.submitting && c.error.is_none()));
    assert!(state.submit_commit().is_none());
}

#[test]
fn a_finished_commit_closes_the_composer_and_reloads() {
    let mut state = test_state(vec![changed_file("a.rs", true)]);
    state.open_commit_composer();
    state.commit_summary_changed("Fix".to_owned());
    let _ = state.submit_commit();

    assert!(state.commit_finished(Ok("Committed abc — Fix".to_owned())));

    assert!(state.commit_composer.is_none());
    assert_eq!(status(&state), Some(("Committed abc — Fix".to_owned(), StatusTone::Success)));
    assert!(state.refresh_in_flight);
}

#[test]
fn a_failed_commit_keeps_the_composer_with_the_error() {
    let mut state = test_state(vec![changed_file("a.rs", true)]);
    state.open_commit_composer();
    state.commit_summary_changed("Fix".to_owned());
    let _ = state.submit_commit();

    assert!(!state.commit_finished(Err("hook failed".to_owned())));

    let composer = state.commit_composer.as_ref().unwrap();
    assert!(!composer.submitting);
    assert_eq!(composer.error.as_deref(), Some("hook failed"));
    assert_eq!(composer.summary, "Fix");
}

#[test]
fn git_operations_report_in_the_status_bar() {
    let mut state = test_state(Vec::new());
    state.refresh_in_flight = true;
    assert!(!state.git_operation_finished(Ok("Staged 1 file".to_owned())));
    assert!(state.refresh_queued);
    assert_eq!(status(&state), Some(("Staged 1 file".to_owned(), StatusTone::Success)));
    assert!(!state.git_operation_finished(Err("denied".to_owned())));
    assert_eq!(status(&state), Some(("denied".to_owned(), StatusTone::Error)));
}

#[test]
fn reopening_the_composer_keeps_the_message_and_clears_the_error() {
    let mut state = test_state(Vec::new());
    state.open_commit_composer();
    state.commit_summary_changed("Draft".to_owned());
    let _ = state.submit_commit();
    state.close_commit_composer();
    assert!(state.commit_composer.is_none());
    state.open_commit_composer();
    assert!(state.commit_composer.as_ref().is_some_and(|c| c.summary.is_empty()));
}

#[test]
fn branch_picker_opens_and_switches() {
    let mut state = test_state(vec![changed_file("a.rs", false)]);
    assert!(state.open_branch_picker());
    assert!(state.branches_fetched(Ok((vec!["main".to_owned(), "feature".to_owned()], "main".to_owned()))));
    assert_eq!(state.current_branch.as_deref(), Some("main"));
    assert!(!state.open_branch_picker());
    assert!(state.branch_picker.is_none());

    let _ = state.branches_fetched(Ok((vec!["main".to_owned(), "feature".to_owned()], "main".to_owned())));
    assert!(state.switch_branch("main".to_owned()).is_none());
    assert!(state.branch_picker.is_none());

    let _ = state.branches_fetched(Ok((vec!["main".to_owned(), "feature".to_owned()], "main".to_owned())));
    state.branch_picker_filter_changed("fea".to_owned());
    assert_eq!(state.switch_branch("feature".to_owned()).as_deref(), Some("feature"));
    assert!(state.branch_switched(Ok(())));
    assert_eq!(state.current_branch.as_deref(), Some("feature"));
    assert_eq!(status(&state), Some(("Switched to feature".to_owned(), StatusTone::Success)));
    assert!(state.files.is_empty());
    assert!(state.branch_picker.is_none());
}

#[test]
fn a_failed_switch_shows_the_error_in_the_picker() {
    let mut state = test_state(Vec::new());
    state.branch_picker = Some(BranchPicker::new(vec!["main".to_owned()], "main".to_owned()));
    assert!(!state.branch_switched(Err("dirty tree".to_owned())));
    assert_eq!(state.branch_picker.as_ref().and_then(|p| p.error.clone()).as_deref(), Some("dirty tree"));
    state.branch_picker_filter_changed("x".to_owned());
    assert!(state.branch_picker.as_ref().is_some_and(|p| p.error.is_none()));
}

#[test]
fn creating_a_branch_uses_the_typed_name() {
    let mut state = test_state(Vec::new());
    state.branch_picker = Some(BranchPicker::new(vec!["main".to_owned()], "main".to_owned()));
    state.branch_picker_filter_changed("topic".to_owned());
    state.commits_exhausted = true;
    state.refresh_in_flight = true;

    assert!(!state.branch_created(Ok(())));

    assert_eq!(state.current_branch.as_deref(), Some("topic"));
    assert_eq!(status(&state), Some(("Created and switched to topic".to_owned(), StatusTone::Success)));
    assert!(!state.commits_exhausted);
    assert!(state.refresh_queued);
}

#[test]
fn branch_listing_failure_and_current_branch() {
    let mut state = test_state(Vec::new());
    assert!(!state.branches_fetched(Err("not a repo".to_owned())));
    assert_eq!(status(&state), Some(("not a repo".to_owned(), StatusTone::Error)));
    state.current_branch_fetched(Ok("dev".to_owned()));
    assert_eq!(state.current_branch.as_deref(), Some("dev"));
    state.current_branch_fetched(Err("detached".to_owned()));
    assert_eq!(state.current_branch.as_deref(), Some("dev"));
}

#[test]
fn project_picker_moves_and_opens() {
    let recent = vec!["/work/repo".to_owned(), "/src/alpha".to_owned(), "/src/beta".to_owned()];
    let mut state = State::boot("/work/repo".to_owned(), "repo".to_owned(), ThemePreference::Dark, recent);
    assert!(state.open_project_picker());
    assert!(state.project_picker_key(&press(NamedKey::ArrowUp)).is_none());
    assert_eq!(state.project_picker.as_ref().map(|p| p.selected_index), Some(0));
    assert!(state.project_picker_key(&press(NamedKey::ArrowDown)).is_none());
    assert!(state.project_picker_key(&press(NamedKey::ArrowDown)).is_none());
    assert_eq!(state.project_picker.as_ref().map(|p| p.selected_index), Some(1));

    assert_eq!(state.project_picker_key(&press(NamedKey::Enter)).as_deref(), Some("/src/beta"));
    assert!(state.project_picker.is_none());

    assert!(state.open_project_picker());
    state.project_picker_filter_changed("zzz".to_owned());
    assert!(state.project_picker_key(&press(NamedKey::Enter)).is_none());
    assert!(state.project_picker.is_some());
    assert!(state.project_picker_key(&press(NamedKey::Escape)).is_none());
    assert!(state.project_picker.is_none());
    assert!(state.open_project_picker());
    assert!(!state.open_project_picker());
    assert!(state.project_picker.is_none());
}

#[test]
fn repo_opened_closes_actions_panel() {
    let mut state = test_state(Vec::new());
    state.show_actions_panel = true;

    state.repo_opened("/work/next".to_owned(), "next".to_owned());

    assert!(!state.show_actions_panel);
}

#[test]
fn opening_a_repository_forgets_the_previous_one() {
    let mut state = test_state(vec![changed_file("a.rs", false)]);
    state.selected_path = Some("a.rs".to_owned());
    state.error = Some("old".to_owned());
    state.recent_repos = vec!["/x".to_owned(), "/work/next".to_owned()];

    state.repo_opened("/work/next".to_owned(), "next".to_owned());

    assert!(state.files.is_empty());
    assert!(state.selected_path.is_none());
    assert!(state.error.is_none());
    assert_eq!(state.repo_path, "/work/next");
    assert_eq!(state.tree_root_name, "next");
    assert_eq!(state.recent_repos, vec!["/work/next", "/x"]);
    assert!(state.refresh_in_flight);
    assert!(!state.initialized_tree);
}

#[test]
fn watcher_changes_reload_and_errors_are_kept() {
    let mut state = test_state(Vec::new());
    assert!(state.watch_event(Event::Changed));
    assert!(!state.watch_event(Event::Changed));
    assert!(state.refresh_queued);
    assert!(!state.watch_event(Event::Error("watch failed".to_owned())));
    assert_eq!(state.error.as_deref(), Some("watch failed"));
}

#[test]
fn discard_dialog_confirms_only_on_the_discard_button() {
    let mut state = test_state(vec![changed_file("a.rs", false), changed_file("b.rs", false)]);
    state.request_discard();
    assert!(state.discard_confirm.is_none());

    state.focused_sidebar_target = Some(SidebarTarget::File("b.rs".to_owned()));
    state.request_discard();
    assert_eq!(state.discard_confirm.as_ref().map(|c| c.paths.clone()), Some(vec!["b.rs".to_owned()]));
    assert_eq!(state.discard_confirm.as_ref().map(|c| c.focused_button), Some(DiscardButton::Cancel));

    assert!(state.discard_confirm_key(&press(NamedKey::Tab)).is_none());
    assert_eq!(state.discard_confirm.as_ref().map(|c| c.focused_button), Some(DiscardButton::Discard));
    assert!(state.discard_confirm_key(&press(NamedKey::ArrowLeft)).is_none());
    assert_eq!(state.discard_confirm.as_ref().map(|c| c.focused_button), Some(DiscardButton::Cancel));
    assert!(state.discard_confirm_key(&press(NamedKey::ArrowRight)).is_none());
    assert_eq!(state.discard_confirm_key(&press(NamedKey::Enter)), Some(vec!["b.rs".to_owned()]));
    assert!(state.discard_confirm.is_none());

    state.request_discard();
    assert!(state.discard_confirm_key(&press(NamedKey::Enter)).is_none());
    assert!(state.discard_confirm.is_none());
    state.request_discard();
    assert!(state.discard_confirm_key(&press(NamedKey::Escape)).is_none());
    assert!(state.discard_confirm.is_none());
    state.request_discard();
    assert_eq!(state.confirm_discard(), Some(vec!["b.rs".to_owned()]));
    assert_eq!(state.confirm_discard(), None);
}

fn picker_state(branches: &[&str], current: &str, filter: &str) -> State {
    let mut state = test_state(Vec::new());
    let mut picker =
        BranchPicker::new(branches.iter().map(|b| b.to_string()).collect(), current.to_owned());
    picker.filter = filter.to_owned();
    state.branch_picker = Some(picker);
    state
}

#[test]
fn branch_picker_offers_create_only_for_a_new_name() {
    assert!(picker_state(&["main", "dev"], "main", "feature").branch_picker.unwrap().should_show_create());
    assert!(!picker_state(&["main", "dev"], "main", "dev").branch_picker.unwrap().should_show_create());
    assert!(!picker_state(&["main", "dev"], "main", "").branch_picker.unwrap().should_show_create());
}

#[test]
fn branch_picker_arrows_stay_within_the_items() {
    let mut state = picker_state(&["main", "dev", "docs"], "main", "d");
    // "Create d" first, then dev and docs.
    for _ in 0..5 {
        assert!(matches!(state.branch_picker_key(&press(NamedKey::ArrowDown)), BranchKey::Nothing));
    }
    assert_eq!(state.branch_picker.as_ref().unwrap().selected_index, 2);
    for _ in 0..5 {
        let _ = state.branch_picker_key(&press(NamedKey::ArrowUp));
    }
    assert_eq!(state.branch_picker.as_ref().unwrap().selected_index, 0);
}

#[test]
fn branch_picker_enter_on_create_item_asks_to_create_the_typed_branch() {
    let mut state = picker_state(&["main", "dev"], "main", "feature/x");
    match state.branch_picker_key(&press(NamedKey::Enter)) {
        BranchKey::CreateBranch(name) => assert_eq!(name, "feature/x"),
        _ => panic!("expected a branch to create"),
    }
    assert!(state.branch_picker.is_some());
}

#[test]
fn branch_picker_enter_switches_to_the_selected_branch_past_the_create_item() {
    let mut state = picker_state(&["main", "dev", "docs"], "main", "d");
    state.branch_picker.as_mut().unwrap().selected_index = 2;
    match state.branch_picker_key(&press(NamedKey::Enter)) {
        BranchKey::SwitchBranch(name) => assert_eq!(name, "docs"),
        _ => panic!("expected a branch to switch to"),
    }
}

#[test]
fn branch_picker_enter_on_current_branch_just_closes() {
    let mut state = picker_state(&["main", "dev"], "main", "");
    assert!(matches!(state.branch_picker_key(&press(NamedKey::Enter)), BranchKey::Nothing));
    assert!(state.branch_picker.is_none());
}

#[test]
fn branch_picker_escape_closes() {
    let mut state = picker_state(&["main"], "main", "");
    assert!(matches!(state.branch_picker_key(&press(NamedKey::Escape)), BranchKey::Nothing));
    assert!(state.branch_picker.is_none());
}
