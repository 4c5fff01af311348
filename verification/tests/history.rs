use anduin::config::ThemePreference;
use anduin::git::diff::{ChangedFile, FileDiff, FileStatus};
use anduin::history::{HistoryKey, HistoryLoad, COMMITS_PER_PAGE};
use anduin::shortcuts::{Key, KeyboardEvent, Modifiers, NamedKey};
use anduin::sidebar::{SidebarTarget, State};
use anduin::state::{ActivePane, ChangesFocus, Commit, HistoryFocus, SidebarTab, StatusTone};

fn test_state(files: Vec<ChangedFile>) -> State {
    let mut state =
        State::boot("/tmp/test-repo".to_owned(), "test-repo".to_owned(), ThemePreference::Dark, Vec::new());
    state.files = files;
    state.refresh_in_flight = false;
    state.sync_tree_state();
    state.ensure_rows_cached();
    state
}

fn changed_file(path: &str, status: FileStatus) -> ChangedFile {
    ChangedFile { path: path.to_owned(), status, staged: false, unstaged: true }
}

fn sample_commit() -> Commit {
    Commit {
        hash: "abc123".to_owned(),
        short_hash: "abc123".to_owned(),
        author: "Test User".to_owned(),
        date: "2026-03-10".to_owned(),
        message: "Test commit".to_owned(),
    }
}

fn commit(n: usize) -> Commit {
    Commit {
        hash: format!("hash{n}"),
        short_hash: format!("h{n}"),
        author: "Ann".to_owned(),
        date: "today".to_owned(),
        message: format!("change {n}"),
    }
}

fn press(key: NamedKey) -> KeyboardEvent {
    KeyboardEvent::KeyPressed { key: Key::Named(key), modifiers: Modifiers::default() }
}

fn diff(path: &str) -> FileDiff {
    FileDiff { path: path.to_owned(), raw_patch: "+x\n".to_owned() }
}

#[test]
fn history_initial_load_batches_scroll_with_first_selection() {
    let mut state = test_state(Vec::new());
    state.sidebar_tab = SidebarTab::History;
    state.commits_loading = true;

    let load = state.commits_loaded(Ok(vec![sample_commit()]));

    assert_eq!(state.selected_commit, Some(0));
    assert!(matches!(load, HistoryLoad::CommitFiles { ref hash } if hash == "abc123"));
}

#[test]
fn repo_opened_resets_changes_to_file_list() {
    let mut state = test_state(Vec::new());
    state.active_pane = ActivePane::Diff;
    state.changes_focus = ChangesFocus::DiffView;
    state.sidebar_tab = SidebarTab::History;
    state.history_focus = HistoryFocus::DiffView;

    state.repo_opened("/work/other".to_owned(), "other".to_owned());

    assert_eq!(state.sidebar_tab, SidebarTab::Changes);
    assert_eq!(state.active_pane, ActivePane::Sidebar);
    assert_eq!(state.changes_focus, ChangesFocus::FileList);
    assert_eq!(state.history_focus, HistoryFocus::CommitList);
    assert!(state.current_diff.is_none());
}

#[test]
fn switching_back_to_changes_resets_focus_to_file_list() {
    let mut state = test_state(vec![changed_file("src/main.rs", FileStatus::Modified)]);
    state.sidebar_tab = SidebarTab::History;
    state.active_pane = ActivePane::Diff;
    state.changes_focus = ChangesFocus::DiffView;
    state.history_focus = HistoryFocus::DiffView;
    state.commits = vec![sample_commit()];

    let _ = state.switch_sidebar_tab(SidebarTab::Changes);

    assert_eq!(state.sidebar_tab, SidebarTab::Changes);
    assert_eq!(state.active_pane, ActivePane::Sidebar);
    assert_eq!(state.changes_focus, ChangesFocus::FileList);
    assert!(state.history_diff.is_none());
    assert!(state.history_commit_header.is_none());
    assert!(state.focused_sidebar_target.is_some());
}

#[test]
fn entering_history_loads_the_first_page_once() {
    let mut state = test_state(Vec::new());

    let load = state.switch_sidebar_tab(SidebarTab::History);

    assert!(matches!(load, HistoryLoad::Commits { skip: 0 }));
    assert!(state.commits_loading);
    assert_eq!(state.history_focus, HistoryFocus::CommitList);
    let again = state.switch_sidebar_tab(SidebarTab::History);
    assert!(matches!(again, HistoryLoad::Nothing));
}

#[test]
fn entering_history_again_reselects_the_selected_commit() {
    let mut state = test_state(Vec::new());
    state.commits = vec![commit(0), commit(1), commit(2)];
    state.selected_commit = Some(2);

    let load = state.switch_sidebar_tab(SidebarTab::History);

    assert!(matches!(load, HistoryLoad::CommitFiles { ref hash } if hash == "hash2"));
    assert_eq!(state.history_commit_header.as_ref().map(|c| c.short_hash.as_str()), Some("h2"));
}

#[test]
fn a_short_page_marks_the_history_complete() {
    let mut state = test_state(Vec::new());
    state.commits_loading = true;
    state.selected_commit = Some(0);

    let load = state.commits_loaded(Ok(vec![commit(0), commit(1)]));

    assert!(matches!(load, HistoryLoad::Nothing));
    assert!(state.commits_exhausted);
    assert!(!state.commits_loading);
    assert_eq!(state.commits.len(), 2);
    assert!(matches!(state.load_more_commits(), HistoryLoad::Nothing));
}

#[test]
fn a_full_page_allows_loading_more() {
    let mut state = test_state(Vec::new());
    let page: Vec<Commit> = (0..COMMITS_PER_PAGE).map(commit).collect();

    let _ = state.commits_loaded(Ok(page));

    assert!(!state.commits_exhausted);
    assert!(matches!(state.load_more_commits(), HistoryLoad::Commits { skip } if skip == COMMITS_PER_PAGE));
    assert!(state.commits_loading);
}

#[test]
fn failing_to_load_commits_shows_the_error() {
    let mut state = test_state(Vec::new());
    state.commits_loading = true;

    let _ = state.commits_loaded(Err("no history".to_owned()));

    assert!(!state.commits_loading);
    let message = state.status_message.as_ref().map(|m| (m.text.as_str(), m.tone));
    assert_eq!(message, Some(("no history", StatusTone::Error)));
}

#[test]
fn commit_files_select_the_first_and_request_its_diff() {
    let mut state = test_state(Vec::new());
    state.commits = vec![commit(0)];
    let _ = state.select_commit(0);

    let load = state.commit_files_loaded(Ok(vec![
        changed_file("a.rs", FileStatus::Added),
        changed_file("b.rs", FileStatus::Modified),
    ]));

    match load {
        HistoryLoad::FileDiff { request_id, hash, path, status } => {
            assert_eq!(request_id, 1);
            assert_eq!(hash, "hash0");
            assert_eq!(path, "a.rs");
            assert_eq!(status, FileStatus::Added);
        }
        other => panic!("unexpected load {other:?}"),
    }
    assert_eq!(state.history_selected_file, Some(0));
    assert_eq!(state.history_selected_path.as_deref(), Some("a.rs"));
    assert_eq!(state.history_focus, HistoryFocus::FileList);
}

#[test]
fn only_the_latest_history_diff_is_kept() {
    let mut state = test_state(Vec::new());
    state.commits = vec![commit(0)];
    let _ = state.select_commit(0);
    let _ = state.commit_files_loaded(Ok(vec![changed_file("a.rs", FileStatus::Added)]));

    assert!(!state.history_diff_loaded(0, Ok(diff("old.rs"))));
    assert!(state.history_diff.is_none());
    assert!(state.history_diff_loaded(1, Ok(diff("a.rs"))));
    assert_eq!(state.history_diff.as_ref().map(|d| d.path.as_str()), Some("a.rs"));
}

#[test]
fn selecting_a_missing_commit_requests_nothing() {
    let mut state = test_state(Vec::new());
    state.commits = vec![commit(0)];

    let load = state.select_commit(5);

    assert!(matches!(load, HistoryLoad::Nothing));
    assert_eq!(state.selected_commit, Some(5));
    assert!(state.history_commit_header.is_none());
}

#[test]
fn arrow_keys_move_through_commits_and_files() {
    let mut state = test_state(Vec::new());
    state.sidebar_tab = SidebarTab::History;
    state.commits = vec![commit(0), commit(1)];
    let _ = state.select_commit(0);

    let down = state.history_key(&press(NamedKey::ArrowDown));
    assert!(matches!(down, HistoryKey::CommitSelected(HistoryLoad::CommitFiles { ref hash }) if hash == "hash1"));
    assert_eq!(state.selected_commit, Some(1));
    assert!(matches!(state.history_key(&press(NamedKey::ArrowDown)), HistoryKey::Nothing));

    assert!(matches!(state.history_key(&press(NamedKey::Enter)), HistoryKey::Nothing));
    let _ = state.commit_files_loaded(Ok(vec![changed_file("x.rs", FileStatus::Modified)]));
    state.history_focus = HistoryFocus::CommitList;
    assert!(matches!(state.history_key(&press(NamedKey::Enter)), HistoryKey::FocusFiles));
    assert_eq!(state.history_focus, HistoryFocus::FileList);

    assert!(matches!(state.history_key(&press(NamedKey::Enter)), HistoryKey::Nothing));
    let request = state.active_diff_request;
    assert!(state.history_diff_loaded(request, Ok(diff("x.rs"))));
    assert!(matches!(state.history_key(&press(NamedKey::Enter)), HistoryKey::FocusDiff));
    assert_eq!(state.history_focus, HistoryFocus::DiffView);
    assert!(matches!(state.history_key(&press(NamedKey::ArrowUp)), HistoryKey::Nothing));
}

#[test]
fn arrow_up_in_the_file_list_selects_the_previous_file() {
    let mut state = test_state(Vec::new());
    state.commits = vec![commit(0)];
    let _ = state.select_commit(0);
    let _ = state.commit_files_loaded(Ok(vec![
        changed_file("a.rs", FileStatus::Added),
        changed_file("b.rs", FileStatus::Added),
    ]));
    let _ = state.history_key(&press(NamedKey::ArrowDown));
    assert_eq!(state.history_selected_path.as_deref(), Some("b.rs"));

    let up = state.history_key(&press(NamedKey::ArrowUp));

    assert!(matches!(up, HistoryKey::FileSelected(HistoryLoad::FileDiff { ref path, .. }) if path == "a.rs"));
    assert_eq!(state.history_selected_file, Some(0));
}

#[test]
fn switching_to_changes_focuses_the_selected_file() {
    let mut state = test_state(vec![changed_file("src/main.rs", FileStatus::Modified)]);
    state.sidebar_tab = SidebarTab::History;
    state.selected_path = Some("src/main.rs".to_owned());

    let _ = state.switch_sidebar_tab(SidebarTab::Changes);

    assert!(matches!(state.focused_sidebar_target, Some(SidebarTarget::File(ref p)) if p == "src/main.rs"));
}
