use anduin::config::ThemePreference;
use anduin::git::diff::{ChangedFile, FileStatus};
use anduin::repo::commit_button_label;
use anduin::sidebar::{SidebarTarget, State};
use anduin::sidebar_view::{commit_detail, RowMarks};
use anduin::state::{
    Commit, CommitComposer, DiscardButton, DiscardConfirm, ProjectSearch, SearchPane, SearchResultSummary,
    SidebarTab,
};

fn changed_file(path: &str, staged: bool) -> ChangedFile {
    ChangedFile { path: path.to_owned(), status: FileStatus::Modified, staged, unstaged: !staged }
}

fn state_with(files: Vec<ChangedFile>) -> State {
    let mut state = State::boot("/work/repo".to_owned(), "repo".to_owned(), ThemePreference::Dark, Vec::new());
    state.files = files;
    state.refresh_in_flight = false;
    state.sync_tree_state();
    state.ensure_rows_cached();
    state
}

#[test]
fn row_marks_follow_focus_selection_and_staging() {
    let mut state = state_with(vec![changed_file("src/a.rs", true), changed_file("src/b.rs", false)]);
    state.focused_sidebar_target = Some(SidebarTarget::File("src/a.rs".to_owned()));
    state.selected_sidebar_targets.insert(SidebarTarget::File("src/b.rs".to_owned()));

    let marks = state.sidebar_row_marks();

    assert_eq!(marks.len(), 4);
    let plain = RowMarks { focused: false, selected: false, fully_staged: false };
    assert_eq!(marks[0], plain);
    assert_eq!(marks[1], plain);
    assert_eq!(marks[2], RowMarks { focused: true, selected: false, fully_staged: true });
    assert_eq!(marks[3], RowMarks { focused: false, selected: true, fully_staged: false });
}

#[test]
fn sidebar_summary_counts_changes_and_commits() {
    let mut state = state_with(vec![changed_file("a.rs", true), changed_file("b.rs", false)]);
    assert_eq!(state.sidebar_summary(), "2 changed • 1 staged");
    state.selected_sidebar_targets.insert(SidebarTarget::File("a.rs".to_owned()));
    assert_eq!(state.sidebar_summary(), "2 changed • 1 staged");
    state.selected_sidebar_targets.insert(SidebarTarget::File("b.rs".to_owned()));
    assert_eq!(state.sidebar_summary(), "2 changed • 1 staged • 2 selected");

    state.sidebar_tab = SidebarTab::History;
    state.commits_loading = true;
    assert_eq!(state.sidebar_summary(), "Loading commits…");
    state.commits = vec![Commit {
        hash: "h".to_owned(),
        short_hash: "h".to_owned(),
        author: "Ann".to_owned(),
        date: "today".to_owned(),
        message: "m".to_owned(),
    }];
    assert_eq!(state.sidebar_summary(), "1 commits loaded");
    state.commits_exhausted = true;
    assert_eq!(state.sidebar_summary(), "1 commits (all loaded)");
    assert_eq!(commit_detail(&state.commits[0]), "Ann · today");
}

#[test]
fn branch_name_falls_back_to_the_app_name() {
    let mut state = state_with(Vec::new());
    assert_eq!(state.branch_display(), "Anduin");
    state.current_branch = Some("main".to_owned());
    assert_eq!(state.branch_display(), "main");
}

#[test]
fn composer_texts() {
    let mut state = state_with(vec![changed_file("a.rs", false)]);
    assert_eq!(state.composer_helper_text(), "No staged changes");
    state.files = vec![changed_file("a.rs", true)];
    assert_eq!(state.composer_helper_text(), "Committing 1 staged file");
    state.files = vec![changed_file("a.rs", true), changed_file("b.rs", true), changed_file("c.rs", false)];
    assert_eq!(state.composer_helper_text(), "Committing 2 staged files • 1 unstaged excluded");
    let mut composer = CommitComposer::new();
    assert_eq!(commit_button_label(&composer), "Commit");
    composer.submitting = true;
    assert_eq!(commit_button_label(&composer), "Committing…");
}

#[test]
fn discard_dialog_names_one_file_or_counts_many() {
    let one = DiscardConfirm { paths: vec!["a.rs".to_owned()], focused_button: DiscardButton::Cancel };
    let d = one.dialog();
    assert_eq!(d.question, "Discard changes to \"a.rs\"?");
    assert_eq!(d.preview, vec!["  a.rs"]);

    let paths: Vec<String> = (0..12).map(|i| format!("f{i}.rs")).collect();
    let many = DiscardConfirm { paths, focused_button: DiscardButton::Discard };
    let d = many.dialog();
    assert_eq!(d.question, "Discard changes to 12 files?");
    assert_eq!(d.preview.len(), 11);
    assert_eq!(d.preview[0], "  f0.rs");
    assert_eq!(d.preview[9], "  f9.rs");
    assert_eq!(d.preview[10], "  … and 2 more");
}

#[test]
fn search_pane_follows_query_and_results() {
    let mut search = ProjectSearch::new();
    assert_eq!(search.pane(), SearchPane::Prompt);
    search.query = "needle".to_owned();
    search.searching = true;
    assert_eq!(search.pane(), SearchPane::Searching);
    search.searching = false;
    assert_eq!(search.pane(), SearchPane::NoMatches);
    assert_eq!(search.no_matches_detail(), "for \"needle\"");
    search.set_results(vec![SearchResultSummary { file_path: "a.rs".to_owned(), total_matches: 1, context_count: 1 }]);
    assert_eq!(search.pane(), SearchPane::Results);
}
