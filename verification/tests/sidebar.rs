use anduin::git::diff::{ChangedFile, FileStatus};
use anduin::config::ThemePreference;
use anduin::sidebar::{is_path_within_dir, SidebarTarget, State};
use anduin::state::{ProjectSearch, SearchResultSummary};
use anduin::tree::SidebarRow;

fn changed_file(path: &str, status: FileStatus) -> ChangedFile {
    ChangedFile { path: path.to_owned(), status, staged: false, unstaged: true }
}

fn sample_files() -> Vec<ChangedFile> {
    vec![
        changed_file("src/main.rs", FileStatus::Modified),
        changed_file("src/app.rs", FileStatus::Modified),
        changed_file("src/views/sidebar.rs", FileStatus::Modified),
        changed_file("src/views/diff.rs", FileStatus::Modified),
        changed_file("src/search.rs", FileStatus::Added),
    ]
}

fn test_state(files: Vec<ChangedFile>) -> State {
    let mut state =
        State::boot("/work/test-repo".to_owned(), "test-repo".to_owned(), ThemePreference::Dark, Vec::new());
    state.files = files;
    state.refresh_in_flight = false;
    state.sync_tree_state();
    state.ensure_rows_cached();
    state
}

fn open_search_with_results(state: &mut State, query: &str, paths: &[&str]) {
    let mut search = ProjectSearch::new();
    search.query = query.to_owned();
    search.update_query_lower();
    search.set_results(
        paths
            .iter()
            .map(|p| SearchResultSummary { file_path: p.to_string(), total_matches: 1, context_count: 1 })
            .collect(),
    );
    state.project_search = Some(search);
}

fn collect_visible_file_names(state: &State) -> Vec<String> {
    state
        .visible_cached_rows()
        .iter()
        .filter_map(|row| match row {
            SidebarRow::File { name, .. } => Some(name.clone()),
            _ => None,
        })
        .collect()
}

fn collect_visible_dir_names(state: &State) -> Vec<String> {
    state
        .visible_cached_rows()
        .iter()
        .filter_map(|row| match row {
            SidebarRow::Dir { name, .. } => Some(name.clone()),
            _ => None,
        })
        .collect()
}

fn collect_visible_file_targets(state: &State) -> Vec<String> {
    state
        .visible_sidebar_targets()
        .iter()
        .filter_map(|t| match t {
            SidebarTarget::File(path) => Some(path.clone()),
            _ => None,
        })
        .collect()
}

#[test]
fn visible_rows_shows_all_when_search_closed() {
    let state = test_state(sample_files());
    assert!(state.visible_cached_rows().len() >= 8);
}

#[test]
fn visible_rows_filters_to_matching_files_when_search_open() {
    let mut state = test_state(sample_files());
    open_search_with_results(&mut state, "test", &["src/main.rs"]);

    let file_names = collect_visible_file_names(&state);
    assert_eq!(file_names, vec!["main.rs"]);

    let dir_names = collect_visible_dir_names(&state);
    assert_eq!(dir_names, vec!["src"]);
}

#[test]
fn visible_rows_includes_parent_dirs_of_matching_files() {
    let mut state = test_state(sample_files());
    open_search_with_results(&mut state, "test", &["src/views/sidebar.rs"]);

    let dir_names = collect_visible_dir_names(&state);
    assert!(dir_names.contains(&"src".to_owned()));
    assert!(dir_names.contains(&"views".to_owned()));

    let file_names = collect_visible_file_names(&state);
    assert_eq!(file_names, vec!["sidebar.rs"]);
}

#[test]
fn visible_rows_unfiltered_when_search_open_but_query_empty() {
    let mut state = test_state(sample_files());
    state.project_search = Some(ProjectSearch::new());
    assert!(state.visible_cached_rows().len() >= 8);
}

#[test]
fn visible_rows_unfiltered_after_search_closed() {
    let mut state = test_state(sample_files());
    open_search_with_results(&mut state, "test", &["src/main.rs"]);
    let filtered_count = state.visible_cached_rows().len();

    if let Some(search) = state.project_search.as_mut() {
        search.is_open = false;
    }

    assert!(state.visible_cached_rows().len() > filtered_count);
}

#[test]
fn sidebar_targets_respect_search_filter() {
    let mut state = test_state(sample_files());
    open_search_with_results(&mut state, "test", &["src/main.rs"]);

    let file_targets = collect_visible_file_targets(&state);
    assert_eq!(file_targets, vec!["src/main.rs"]);
    assert!(!file_targets.contains(&"src/app.rs".to_owned()));
}

#[test]
fn first_sync_expands_every_directory_and_rows_follow_the_tree() {
    let state = test_state(sample_files());
    assert!(state.expanded_dirs.contains(&"src".to_owned()));
    assert!(state.expanded_dirs.contains(&"src/views".to_owned()));
    assert_eq!(state.cached_rows.len(), 8);
    match &state.cached_rows[0] {
        SidebarRow::Root { name, expanded } => {
            assert_eq!(name, "test-repo");
            assert!(*expanded);
        }
        other => panic!("unexpected row {other:?}"),
    }
    match &state.cached_rows[2] {
        SidebarRow::Dir { path, depth, .. } => {
            assert_eq!(path, "src/views");
            assert_eq!(*depth, 2);
        }
        other => panic!("unexpected row {other:?}"),
    }
}

#[test]
fn toggling_directories_changes_visible_rows() {
    let mut state = test_state(sample_files());
    state.toggle_dir(&"src/views".to_owned(), false);
    state.ensure_rows_cached();
    assert_eq!(state.cached_rows.len(), 6);
    state.toggle_dir(&"src".to_owned(), true);
    state.ensure_rows_cached();
    assert_eq!(state.cached_rows.len(), 2);
    assert!(!state.expanded_dirs.contains(&"src/views".to_owned()));
    state.toggle_dir(&"src".to_owned(), true);
    state.ensure_rows_cached();
    assert_eq!(state.cached_rows.len(), 8);
    state.toggle_root(true);
    state.ensure_rows_cached();
    assert_eq!(state.cached_rows.len(), 1);
    assert!(!state.expanded_dirs.contains(&"src".to_owned()));
}

#[test]
fn targets_and_paths_of_selection() {
    let mut state = test_state(sample_files());
    state.focused_sidebar_target = Some(SidebarTarget::Dir("src/views".to_owned()));
    assert_eq!(state.targeted_file_paths(), vec!["src/views/sidebar.rs", "src/views/diff.rs"]);
    state.selected_sidebar_targets.insert(SidebarTarget::File("src/main.rs".to_owned()));
    state.selected_sidebar_targets.insert(SidebarTarget::Dir("src".to_owned()));
    state.selected_sidebar_targets.insert(SidebarTarget::File("src/main.rs".to_owned()));
    assert_eq!(state.selected_file_count(), 2);
    assert!(state.has_explicit_selection());
    let paths = state.targeted_file_paths();
    assert_eq!(paths.len(), 5);
    assert_eq!(paths[0], "src/main.rs");
    state.clear_explicit_selection();
    assert!(!state.has_explicit_selection());
}

#[test]
fn staged_counts_and_full_staging() {
    let mut files = sample_files();
    files[0].staged = true;
    files[0].unstaged = false;
    let state = test_state(files);
    assert_eq!(state.staged_file_count(), 1);
    assert_eq!(state.unstaged_file_count(), 4);
    assert!(state.sidebar_target_is_fully_staged(&SidebarTarget::File("src/main.rs".to_owned())));
    assert!(!state.sidebar_target_is_fully_staged(&SidebarTarget::Dir("src".to_owned())));
    assert!(!state.are_all_paths_staged(&Vec::new()));
    assert!(!state.are_all_paths_staged(&vec!["missing".to_owned()]));
}

#[test]
fn selection_is_kept_to_visible_targets() {
    let mut state = test_state(sample_files());
    state.selected_sidebar_targets.insert(SidebarTarget::File("src/app.rs".to_owned()));
    state.selected_sidebar_targets.insert(SidebarTarget::File("src/main.rs".to_owned()));
    state.focused_sidebar_target = Some(SidebarTarget::File("src/app.rs".to_owned()));
    open_search_with_results(&mut state, "q", &["src/main.rs"]);
    state.retain_sidebar_selection();
    assert_eq!(state.selected_file_count(), 1);
    assert!(state.is_sidebar_target_selected(&SidebarTarget::File("src/main.rs".to_owned())));
    assert!(state.focused_sidebar_target.is_none());
    state.ensure_sidebar_focus();
    assert!(matches!(state.focused_sidebar_target, Some(SidebarTarget::Root)));
    assert_eq!(state.focused_sidebar_row_index(), Some(0));
}

#[test]
fn refresh_requests_are_queued_while_one_runs() {
    let mut state = test_state(sample_files());
    assert!(state.queue_refresh());
    assert!(!state.queue_refresh());
    assert!(state.finish_refresh());
    assert!(!state.finish_refresh());
    state.active_diff_request = u64::MAX;
    assert_eq!(state.next_diff_request(), 0);
}

#[test]
fn row_targets_and_dir_membership() {
    let state = test_state(sample_files());
    let row = SidebarRow::File { name: "x".to_owned(), index: 99, depth: 1, status: FileStatus::Added };
    assert!(matches!(state.sidebar_target_for_row(&row), SidebarTarget::Root));
    assert!(is_path_within_dir("src/a.rs", "src"));
    assert!(!is_path_within_dir("srcx/a.rs", "src"));
    assert!(!is_path_within_dir("src", "src"));
    assert_eq!(state.descendant_dir_paths("src"), vec!["src/views"]);
    assert_eq!(state.all_dir_paths(), vec!["src", "src/views"]);
}

#[test]
fn toggling_a_directory_twice_restores_the_expanded_set() {
    let mut state = test_state(sample_files());
    let before: Vec<String> = state.all_dir_paths().into_iter().filter(|d| state.expanded_dirs.contains(d)).collect();
    state.toggle_dir(&"src/views".to_owned(), false);
    assert!(!state.expanded_dirs.contains(&"src/views".to_owned()));
    state.toggle_dir(&"src/views".to_owned(), false);
    let after: Vec<String> = state.all_dir_paths().into_iter().filter(|d| state.expanded_dirs.contains(d)).collect();
    assert_eq!(before, after);
    assert!(state.expanded_dirs.contains(&"src/views".to_owned()));
}
