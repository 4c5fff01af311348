use anduin::config::ThemePreference;
use anduin::git::diff::{ChangedFile, FileStatus};
use anduin::keyboard::SearchKey;
use anduin::shortcuts::{Key, KeyboardEvent, Modifiers, NamedKey, ShortcutPlatform};
use anduin::sidebar::State;
use anduin::state::{ActivePane, SearchResultSummary};

const NOW: u64 = 1_000;

fn test_state(files: Vec<ChangedFile>) -> State {
    let mut state =
        State::boot("/tmp/test-repo".to_owned(), "test-repo".to_owned(), ThemePreference::Dark, Vec::new());
    state.files = files;
    state.refresh_in_flight = false;
    state.sync_tree_state();
    state.ensure_rows_cached();
    state
}

fn changed_file(path: &str, status: FileStatus) -> ChangedFile {
    ChangedFile { path: path.to_owned(), status, staged: false, unstaged: true }
}

fn make_search_result(file_path: &str, total_matches: usize) -> SearchResultSummary {
    SearchResultSummary { file_path: file_path.to_owned(), total_matches, context_count: 1 }
}

fn sample_files() -> Vec<ChangedFile> {
    vec![
        changed_file("src/main.rs", FileStatus::Modified),
        changed_file("src/app.rs", FileStatus::Modified),
        changed_file("src/views/sidebar.rs", FileStatus::Modified),
        changed_file("src/views/diff.rs", FileStatus::Modified),
        changed_file("src/search.rs", FileStatus::Added),
    ]
}

fn open_search(state: &mut State) {
    state.open_project_search(String::new(), NOW);
}

fn deliver_results(state: &mut State, request_id: u64, results: Vec<SearchResultSummary>) {
    if let Some(index) = state.project_search_results(request_id, Ok(results)) {
        state.select_file(index);
    }
}

/// Open search then deliver results for the given files.
fn open_search_with_results(state: &mut State, query: &str, results: Vec<SearchResultSummary>) {
    open_search(state);
    state.project_search_query_changed(query.to_owned(), NOW);
    let request_id = match state.project_search.as_ref() {
        Some(search) => search.request_id,
        None => unreachable!("project_search should be Some after opening"),
    };
    deliver_results(state, request_id, results);
}

fn jump_to(state: &mut State, path: &str, line: usize) {
    if let Some(index) = state.project_search_jump_to(path.to_owned(), line) {
        state.select_file(index);
    }
}

fn escape() -> KeyboardEvent {
    KeyboardEvent::KeyPressed { key: Key::Named(NamedKey::Escape), modifiers: Modifiers::default() }
}

#[test]
fn open_project_search_creates_search_state() {
    let mut state = test_state(sample_files());
    assert!(!state.is_search_open());

    open_search(&mut state);

    assert!(state.is_search_open());
    let Some(search) = &state.project_search else {
        unreachable!("project_search should be Some");
    };
    assert!(search.is_open);
    assert!(search.input_focused);
    assert!(search.query.is_empty());
}

#[test]
fn close_project_search_preserves_state() {
    let mut state = test_state(sample_files());
    open_search(&mut state);
    state.project_search_query_changed("hello".into(), NOW);

    state.close_project_search();

    assert!(!state.is_search_open());
    let Some(search) = &state.project_search else {
        unreachable!("project_search should be preserved after close");
    };
    assert!(!search.is_open);
    assert_eq!(search.query, "hello");
}

#[test]
fn reopen_project_search_retains_previous_query() {
    let mut state = test_state(sample_files());
    open_search(&mut state);
    state.project_search_query_changed("retained".into(), NOW);
    state.close_project_search();
    assert!(!state.is_search_open());

    open_search(&mut state);

    assert!(state.is_search_open());
    let Some(search) = &state.project_search else {
        unreachable!("project_search should be Some after reopen");
    };
    assert_eq!(search.query, "retained");
    assert!(search.input_focused);
}

#[test]
fn first_escape_unfocuses_input_but_keeps_search_open() {
    let mut state = test_state(sample_files());
    open_search(&mut state);
    assert!(state.project_search.as_ref().is_some_and(|s| s.input_focused));

    let effect = state.project_search_key(ShortcutPlatform::Mac, &escape());

    assert_eq!(effect, SearchKey::UnfocusInput);
    assert!(state.is_search_open());
    assert!(state.project_search.as_ref().is_some_and(|s| !s.input_focused));
    assert_eq!(state.active_pane, ActivePane::Sidebar);
}

#[test]
fn second_escape_closes_search() {
    let mut state = test_state(sample_files());
    open_search(&mut state);
    if let Some(search) = state.project_search.as_mut() {
        search.input_focused = false;
    }

    state.close_project_search();

    assert!(!state.is_search_open());
}

#[test]
fn query_change_queues_search() {
    let mut state = test_state(sample_files());
    open_search(&mut state);

    state.project_search_query_changed("test".into(), NOW);

    let Some(search) = &state.project_search else {
        unreachable!("project_search should be Some");
    };
    assert_eq!(search.query, "test");
    assert!(search.pending_run_at.is_some());
    assert!(search.input_focused);
}

#[test]
fn clearing_query_clears_results() {
    let mut state = test_state(sample_files());
    open_search_with_results(&mut state, "test", vec![make_search_result("src/main.rs", 2)]);
    assert!(state.project_search.as_ref().is_some_and(|s| !s.results.is_empty()));

    state.project_search_query_changed(String::new(), NOW);

    let Some(search) = &state.project_search else {
        unreachable!("project_search should be Some");
    };
    assert!(search.query.is_empty());
    assert!(search.results.is_empty());
    assert!(!search.is_matching_path(&"src/main.rs".to_owned()));
    assert!(search.pending_run_at.is_none());
}

#[test]
fn toggle_case_flips_and_queues_search() {
    let mut state = test_state(sample_files());
    open_search(&mut state);

    assert!(state.project_search.as_ref().is_some_and(|s| !s.case_sensitive));
    let _ = state.project_search_toggle_case(NOW);
    assert!(state.project_search.as_ref().is_some_and(|s| s.case_sensitive));
    let _ = state.project_search_toggle_case(NOW);
    assert!(state.project_search.as_ref().is_some_and(|s| !s.case_sensitive));
}

#[test]
fn receiving_results_populates_matching_paths() {
    let mut state = test_state(sample_files());
    open_search_with_results(
        &mut state,
        "test",
        vec![make_search_result("src/main.rs", 3), make_search_result("src/search.rs", 1)],
    );

    let Some(search) = &state.project_search else {
        unreachable!("project_search should be Some");
    };
    assert_eq!(search.results.len(), 2);
    assert!(search.is_matching_path(&"src/main.rs".to_owned()));
    assert!(search.is_matching_path(&"src/search.rs".to_owned()));
    assert!(!search.is_matching_path(&"src/app.rs".to_owned()));
    assert!(search.result_index(&"src/main.rs".to_owned()).is_some());
    assert!(search.result_index(&"src/search.rs".to_owned()).is_some());
}

#[test]
fn stale_results_are_ignored() {
    let mut state = test_state(sample_files());
    open_search(&mut state);
    state.project_search_query_changed("test".into(), NOW);

    let stale_id = state.project_search.as_ref().map_or(0, |s| s.request_id.wrapping_sub(1));
    deliver_results(&mut state, stale_id, vec![make_search_result("src/main.rs", 3)]);

    assert!(state.project_search.as_ref().is_some_and(|s| s.results.is_empty()));
}

#[test]
fn results_auto_select_first_matching_file() {
    let mut state = test_state(sample_files());
    open_search(&mut state);
    state.project_search_query_changed("test".into(), NOW);
    state.selected_path = Some("src/app.rs".into());

    let request_id = state.project_search.as_ref().map_or(0, |s| s.request_id);
    deliver_results(&mut state, request_id, vec![make_search_result("src/main.rs", 3)]);

    assert_eq!(state.selected_path.as_deref(), Some("src/main.rs"));
    assert_eq!(state.selected_file, Some(0));
}

#[test]
fn results_keep_current_selection_if_it_matches() {
    let mut state = test_state(sample_files());
    open_search(&mut state);
    state.project_search_query_changed("test".into(), NOW);
    state.selected_path = Some("src/search.rs".into());
    state.selected_file = Some(4);

    let request_id = state.project_search.as_ref().map_or(0, |s| s.request_id);
    deliver_results(
        &mut state,
        request_id,
        vec![make_search_result("src/main.rs", 3), make_search_result("src/search.rs", 1)],
    );

    assert_eq!(state.selected_path.as_deref(), Some("src/search.rs"));
    assert_eq!(state.selected_file, Some(4));
}

#[test]
fn jump_to_closes_search_and_selects_file() {
    let mut state = test_state(sample_files());
    open_search_with_results(&mut state, "test", vec![make_search_result("src/search.rs", 1)]);

    jump_to(&mut state, "src/search.rs", 42);

    assert!(!state.is_search_open());
    assert!(state.project_search.is_some());
    assert!(state.project_search.as_ref().is_some_and(|s| s.query == "test"));

    let Some(jump) = &state.pending_diff_jump else {
        unreachable!("pending_diff_jump should be set after jump_to");
    };
    assert_eq!(jump.path, "src/search.rs");
    assert_eq!(jump.line_number, 42);
    assert_eq!(state.selected_path.as_deref(), Some("src/search.rs"));
}

#[test]
fn reopen_after_jump_preserves_query_and_results() {
    let mut state = test_state(sample_files());
    open_search_with_results(
        &mut state,
        "find_me",
        vec![make_search_result("src/main.rs", 2), make_search_result("src/search.rs", 1)],
    );

    jump_to(&mut state, "src/main.rs", 10);
    assert!(!state.is_search_open());

    open_search(&mut state);

    assert!(state.is_search_open());
    let Some(search) = &state.project_search else {
        unreachable!("project_search should be Some after reopen");
    };
    assert_eq!(search.query, "find_me");
    assert_eq!(search.results.len(), 2);
    assert!(search.is_matching_path(&"src/main.rs".to_owned()));
}

#[test]
fn search_with_no_matching_files_shows_empty() {
    let mut state = test_state(sample_files());
    open_search_with_results(&mut state, "xyz", vec![]);

    assert!(state
        .project_search
        .as_ref()
        .is_some_and(|s| s.results.is_empty() && !s.is_matching_path(&"src/main.rs".to_owned())));
    assert!(state.visible_cached_rows().len() >= 8);
}

#[test]
fn multiple_open_close_cycles_preserve_state() {
    let mut state = test_state(sample_files());

    for i in 0..3 {
        open_search(&mut state);
        assert!(state.is_search_open());

        if i == 0 {
            state.project_search_query_changed("persistent".into(), NOW);
        }

        state.close_project_search();
        assert!(!state.is_search_open());
        assert!(state.project_search.as_ref().is_some_and(|s| s.query == "persistent"));
    }
}

#[test]
fn open_search_sets_active_pane_to_sidebar() {
    let mut state = test_state(sample_files());
    state.active_pane = ActivePane::Diff;

    open_search(&mut state);

    assert_eq!(state.active_pane, ActivePane::Sidebar);
}

#[test]
fn close_search_sets_active_pane_to_sidebar() {
    let mut state = test_state(sample_files());
    open_search(&mut state);
    state.active_pane = ActivePane::Diff;

    state.close_project_search();

    assert_eq!(state.active_pane, ActivePane::Sidebar);
}

#[test]
fn query_change_marks_input_focused() {
    let mut state = test_state(sample_files());
    open_search(&mut state);
    if let Some(search) = state.project_search.as_mut() {
        search.input_focused = false;
    }

    state.project_search_query_changed("x".into(), NOW);

    assert!(state.project_search.as_ref().is_some_and(|s| s.input_focused));
}

#[test]
fn reopen_does_not_rerun_search_when_results_exist() {
    let mut state = test_state(sample_files());
    open_search_with_results(&mut state, "test", vec![make_search_result("src/main.rs", 3)]);
    if let Some(search) = state.project_search.as_mut() {
        search.pending_run_at = None;
    }

    state.close_project_search();
    open_search(&mut state);

    assert!(state.project_search.as_ref().is_some_and(|s| s.pending_run_at.is_none()));
}

#[test]
fn opening_with_an_editor_query_seeds_an_empty_search() {
    let mut state = test_state(sample_files());

    state.open_project_search("needle".to_owned(), NOW);

    let Some(search) = &state.project_search else {
        unreachable!("project_search should be Some");
    };
    assert_eq!(search.query, "needle");
    assert_eq!(search.query_lower, "needle");
    assert_eq!(search.pending_run_at, Some(NOW + anduin::search::SEARCH_DEBOUNCE_MS));
    assert_eq!(search.cached_summary, "\"needle\" • 0 files • 0 matches");
}

#[test]
fn opening_with_an_editor_query_keeps_an_existing_query() {
    let mut state = test_state(sample_files());
    open_search(&mut state);
    state.project_search_query_changed("kept".into(), NOW);
    state.close_project_search();

    state.open_project_search("other".to_owned(), NOW + 5);

    assert!(state.project_search.as_ref().is_some_and(|s| s.query == "kept"));
}

#[test]
fn search_shortcut_while_open_refocuses_input() {
    let mut state = test_state(sample_files());
    open_search(&mut state);
    let _ = state.project_search_key(ShortcutPlatform::Mac, &escape());
    let cmd_shift_f = KeyboardEvent::KeyPressed {
        key: Key::Character("f".to_owned()),
        modifiers: Modifiers { shift: true, control: false, alt: false, logo: true },
    };

    let effect = state.project_search_key(ShortcutPlatform::Mac, &cmd_shift_f);

    assert_eq!(effect, SearchKey::FocusInput);
    assert!(state.project_search.as_ref().is_some_and(|s| s.input_focused));
    let second = state.project_search_key(ShortcutPlatform::Mac, &escape());
    assert_eq!(second, SearchKey::UnfocusInput);
    let third = state.project_search_key(ShortcutPlatform::Mac, &escape());
    assert_eq!(third, SearchKey::Closed);
    assert!(!state.is_search_open());
}
