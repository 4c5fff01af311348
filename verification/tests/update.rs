use anduin::git::diff::{ChangedFile, FileDiff, FileStatus};
use anduin::sidebar::SidebarTarget;
use anduin::state::{ActivePane, ChangesFocus};
use anduin::update::DiffShown;
use anduin::search::SEARCH_DEBOUNCE_MS;
use anduin::config::ThemePreference;
use anduin::sidebar::State;
use anduin::state::{ProjectSearch, SearchResultSummary};

fn changed_file(path: &str) -> ChangedFile {
    ChangedFile { path: path.to_owned(), status: FileStatus::Modified, staged: false, unstaged: true }
}

fn empty_state() -> State {
    let mut state = State::boot("/work/repo".to_owned(), "repo".to_owned(), ThemePreference::Dark, Vec::new());
    state.refresh_in_flight = false;
    state
}

fn summary(path: &str) -> SearchResultSummary {
    SearchResultSummary { file_path: path.to_owned(), total_matches: 1, context_count: 1 }
}

#[test]
fn loading_files_selects_first_and_keeps_selection_by_path() {
    let mut state = empty_state();
    assert!(state.queue_refresh());
    let loaded = state.files_loaded(Ok(vec![changed_file("a.rs"), changed_file("b.rs")]), 0);
    assert_eq!(loaded.selected, Some((0, 1)));
    assert!(!loaded.start_refresh);
    assert_eq!(state.selected_path.as_deref(), Some("a.rs"));
    let loaded = state.files_loaded(Ok(vec![changed_file("0.rs"), changed_file("a.rs")]), 0);
    assert_eq!(loaded.selected, Some((1, 2)));
    let loaded = state.files_loaded(Ok(Vec::new()), 0);
    assert_eq!(loaded.selected, None);
    assert!(state.selected_path.is_none());
    let loaded = state.files_loaded(Err("boom".to_owned()), 0);
    assert_eq!(loaded.selected, None);
    assert_eq!(state.error.as_deref(), Some("boom"));
}

#[test]
fn query_changes_queue_a_debounced_search() {
    let mut state = empty_state();
    state.project_search = Some(ProjectSearch::new());
    state.project_search_query_changed("foo".to_owned(), 1000);
    let at = state.project_search.as_ref().unwrap().pending_run_at;
    assert_eq!(at, Some(1000 + SEARCH_DEBOUNCE_MS));
    assert!(state.maybe_run_project_search(1100).is_none());
    let request = state.maybe_run_project_search(1300).unwrap();
    assert_eq!(request.query, "foo");
    assert_eq!(request.request_id, 1);
    assert!(!request.case_sensitive);
    assert!(state.project_search.as_ref().unwrap().searching);
    assert!(state.maybe_run_project_search(5000).is_none());
    state.project_search_query_changed(String::new(), 6000);
    let search = state.project_search.as_ref().unwrap();
    assert!(search.pending_run_at.is_none());
    assert_eq!(search.cached_summary, "Search all diffs");
}

#[test]
fn stale_results_are_ignored_and_first_result_is_selected() {
    let mut state = empty_state();
    state.files_loaded(Ok(vec![changed_file("a.rs"), changed_file("b.rs")]), 0);
    state.project_search = Some(ProjectSearch::new());
    state.project_search_query_changed("x".to_owned(), 0);
    let request = state.maybe_run_project_search(SEARCH_DEBOUNCE_MS).unwrap();
    assert_eq!(state.project_search_results(request.request_id + 1, Ok(vec![summary("b.rs")])), None);
    assert!(state.project_search.as_ref().unwrap().results.is_empty());
    assert_eq!(state.project_search_results(request.request_id, Ok(vec![summary("b.rs")])), Some(1));
    assert_eq!(state.project_search.as_ref().unwrap().results.len(), 1);
    assert_eq!(
        state.project_search_results(request.request_id, Err("failed".to_owned())),
        None
    );
    assert_eq!(state.error.as_deref(), Some("failed"));
}

#[test]
fn results_keep_a_selected_file_that_matches() {
    let mut state = empty_state();
    state.files_loaded(Ok(vec![changed_file("a.rs"), changed_file("b.rs")]), 0);
    state.project_search = Some(ProjectSearch::new());
    assert_eq!(state.project_search_results(0, Ok(vec![summary("b.rs"), summary("a.rs")])), None);
}

#[test]
fn jumping_to_a_result_closes_the_search() {
    let mut state = empty_state();
    state.files_loaded(Ok(vec![changed_file("a.rs"), changed_file("b.rs")]), 0);
    state.project_search = Some(ProjectSearch::new());
    assert_eq!(state.project_search_jump_to("b.rs".to_owned(), 42), Some(1));
    assert!(!state.project_search.as_ref().unwrap().is_open);
    let jump = state.pending_diff_jump.as_ref().unwrap();
    assert_eq!(jump.path, "b.rs");
    assert_eq!(jump.line_number, 42);
    assert_eq!(state.project_search_jump_to("zzz".to_owned(), 1), None);
}

fn diff(path: &str, patch: &str) -> FileDiff {
    FileDiff { path: path.to_owned(), raw_patch: patch.to_owned() }
}

#[test]
fn diff_answers_to_older_requests_are_dropped() {
    let mut state = empty_state();
    state.files = vec![changed_file("a.rs"), changed_file("b.rs")];
    let first = state.select_file(0).unwrap();
    let second = state.select_file(1).unwrap();
    assert_ne!(first, second);

    assert_eq!(state.diff_loaded(first, Ok(diff("a.rs", "+a\n"))), DiffShown::Stale);
    assert!(state.current_diff.is_none());
    assert_eq!(state.diff_loaded(second, Ok(diff("b.rs", "+b\n"))), DiffShown::Replaced { jump: None });
    assert_eq!(state.current_diff.as_ref().map(|d| d.path.as_str()), Some("b.rs"));
    assert_eq!(state.diff_loaded(second, Ok(diff("b.rs", "+b\n"))), DiffShown::Same { jump: None });
    assert_eq!(state.diff_loaded(second, Err("gone".to_owned())), DiffShown::Failed);
    assert_eq!(state.error.as_deref(), Some("gone"));
}

#[test]
fn a_pending_jump_is_used_by_the_diff_of_its_file() {
    let mut state = empty_state();
    state.files = vec![changed_file("a.rs"), changed_file("b.rs")];
    state.open_project_search(String::new(), 0);
    let request = match state.project_search_jump_to("b.rs".to_owned(), 42) {
        Some(index) => state.select_file(index).unwrap(),
        None => panic!("b.rs is a changed file"),
    };

    assert_eq!(state.diff_loaded(request, Ok(diff("a.rs", "+a\n"))), DiffShown::Replaced { jump: None });
    assert!(state.pending_diff_jump.is_some());
    assert_eq!(state.diff_loaded(request, Ok(diff("b.rs", "+b\n"))), DiffShown::Replaced { jump: Some(42) });
    assert!(state.pending_diff_jump.is_none());
}

#[test]
fn clicking_rows_moves_focus_and_drops_the_selection() {
    let mut state = empty_state();
    state.files = vec![changed_file("src/a.rs"), changed_file("src/b.rs"), changed_file("c.rs")];
    state.sync_tree_state();
    state.ensure_rows_cached();
    state.active_pane = ActivePane::Diff;
    state.selected_sidebar_targets.insert(SidebarTarget::File("c.rs".to_owned()));

    state.focus_dir_row("src".to_owned());
    assert_eq!(state.active_pane, ActivePane::Sidebar);
    assert!(!state.has_explicit_selection());
    assert!(matches!(state.focused_sidebar_target, Some(SidebarTarget::Dir(ref p)) if p == "src"));

    state.toggle_dir_row("src".to_owned(), false);
    assert!(!state.expanded_dirs.contains(&"src".to_owned()));
    assert!(!state.tree_dirty);
    assert!(matches!(state.focused_sidebar_target, Some(SidebarTarget::Dir(ref p)) if p == "src"));
    let rows = state.visible_cached_rows().len();
    assert_eq!(rows, 3);

    state.toggle_root_row(false);
    assert!(!state.tree_root_expanded);
    assert_eq!(state.visible_cached_rows().len(), 1);
    assert!(matches!(state.focused_sidebar_target, Some(SidebarTarget::Root)));

    state.focus_root_row();
    assert!(matches!(state.focused_sidebar_target, Some(SidebarTarget::Root)));

    state.changes_focus = ChangesFocus::DiffView;
    assert!(state.select_file_row(2).is_some());
    assert_eq!(state.selected_path.as_deref(), Some("c.rs"));
    assert_eq!(state.changes_focus, ChangesFocus::FileList);
    assert!(state.select_file_row(9).is_none());
}
