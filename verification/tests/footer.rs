use anduin::config::ThemePreference;
use anduin::footer::{
    action, build_footer_model, display_target, history_enter_label, maybe_action, section, section_opt,
    PanelCommand,
};
use anduin::git::diff::{ChangedFile, FileDiff, FileStatus};
use anduin::sidebar::{SidebarTarget, State};
use anduin::state::{Commit, HistoryFocus, SidebarTab};

fn test_state() -> State {
    let mut state =
        State::boot("/tmp/test-repo".to_owned(), "test-repo".to_owned(), ThemePreference::Dark, Vec::new());
    state.refresh_in_flight = false;
    state
}

fn sample_commit() -> Commit {
    Commit {
        hash: "abc1234".to_owned(),
        short_hash: "abc1234".to_owned(),
        author: "Test User".to_owned(),
        date: "2026-03-12".to_owned(),
        message: "Test commit".to_owned(),
    }
}

fn no_commands() -> Vec<PanelCommand> {
    Vec::new()
}

fn command(key: &str, label: &str, section: &str) -> PanelCommand {
    PanelCommand { key: key.to_owned(), label: label.to_owned(), section: section.to_owned() }
}

#[test]
fn footer_actions_and_sections() {
    let a = action("c", "Commit");
    assert_eq!(a.key, "c");
    assert_eq!(a.label, "Commit");
    assert!(a.enabled);
    assert!(maybe_action("k", "Discard", false).is_none());
    assert_eq!(maybe_action("k", "Discard", true).map(|a| a.label), Some("Discard".to_owned()));
    let s = section("Files", vec![action("a", "Stage all")]);
    assert_eq!(s.title, "Files");
    assert_eq!(s.actions.len(), 1);
    assert!(section_opt("Navigation", vec![None, None]).is_none());
    let s = section_opt("Navigation", vec![None, maybe_action("enter", "Focus diff", true), Some(action("x", "y"))])
        .unwrap();
    assert_eq!(s.title, "Navigation");
    assert_eq!(s.actions.len(), 2);
    assert_eq!(s.actions[0].key, "enter");
}

#[test]
fn no_repo_model_shows_start_actions() {
    let state = test_state();
    let model = build_footer_model(&state, &no_commands());

    assert_eq!(model.target_label, "no repository");
    assert_eq!(model.mode_label, "current: none");
    assert_eq!(model.preview_actions[1].label, "Open repo");
    assert_eq!(model.sections[0].title, "Start");
}

#[test]
fn changes_file_model_shows_file_target_and_only_available_actions() {
    let mut state = test_state();
    state.current_branch = Some("main".to_owned());
    state.files = vec![ChangedFile {
        path: "src/main.rs".to_owned(),
        status: FileStatus::Modified,
        staged: false,
        unstaged: true,
    }];
    state.focused_sidebar_target = Some(SidebarTarget::File("src/main.rs".to_owned()));

    let model = build_footer_model(&state, &no_commands());

    assert_eq!(model.target_label, "src/main.rs");
    assert_eq!(model.mode_label, "current: file");
    assert_eq!(model.preview_actions[1].label, "Stage");
    assert_eq!(model.sections[0].title, "Files");
    assert_eq!(model.sections[0].actions.len(), 3);
    assert!(model.sections.iter().all(|section| section.actions.iter().all(|action| action.enabled)));
    assert!(model
        .sections
        .iter()
        .all(|section| section.actions.iter().all(|action| action.label != "Commit staged changes")));
}

#[test]
fn clean_repo_model_hides_transient_only_preview_actions() {
    let mut state = test_state();
    state.current_branch = Some("main".to_owned());
    state.focused_sidebar_target = Some(SidebarTarget::Root);

    let model = build_footer_model(&state, &no_commands());

    assert_eq!(model.target_label, "repository");
    assert_eq!(model.mode_label, "current: clean repo");
    assert_eq!(model.preview_actions.len(), 1);
    assert_eq!(model.preview_actions[0].label, "Actions");
}

#[test]
fn history_file_model_uses_commit_qualified_target_and_hides_transient_preview() {
    let mut state = test_state();
    state.current_branch = Some("main".to_owned());
    state.sidebar_tab = SidebarTab::History;
    state.history_focus = HistoryFocus::FileList;
    state.history_commit_header = Some(sample_commit());
    state.history_selected_path = Some("src/main.rs".to_owned());

    let model = build_footer_model(&state, &no_commands());

    assert_eq!(model.target_label, "src/main.rs @ abc1234");
    assert_eq!(model.mode_label, "current: history");
    assert_eq!(model.preview_actions.len(), 1);
    assert_eq!(model.preview_actions[0].label, "Actions");
    assert_eq!(model.sections[0].title, "History");
}

#[test]
fn history_diff_without_loaded_diff_hides_search() {
    let mut state = test_state();
    state.current_branch = Some("main".to_owned());
    state.sidebar_tab = SidebarTab::History;
    state.history_focus = HistoryFocus::DiffView;
    state.history_commit_header = Some(sample_commit());
    state.history_selected_path = Some("src/main.rs".to_owned());

    let model = build_footer_model(&state, &no_commands());

    assert!(model.preview_actions.iter().all(|action| action.label != "Search"));
    assert!(model
        .sections
        .iter()
        .all(|section| section.actions.iter().all(|action| action.label != "Search diff")));
}

#[test]
fn history_commit_list_without_loaded_files_hides_enter_action() {
    let mut state = test_state();
    state.current_branch = Some("main".to_owned());
    state.sidebar_tab = SidebarTab::History;
    state.history_focus = HistoryFocus::CommitList;
    state.history_commit_header = Some(sample_commit());
    state.commit_files.clear();

    let model = build_footer_model(&state, &no_commands());

    let history_section = match model.sections.iter().find(|section| section.title == "History") {
        Some(section) => section,
        None => panic!("history section present"),
    };
    assert!(history_section.actions.iter().all(|action| action.key != "enter"));
}

#[test]
fn display_target_names_dirs_commits_and_diff_view() {
    let mut state = test_state();
    state.current_branch = Some("main".to_owned());
    state.focused_sidebar_target = Some(SidebarTarget::Dir("src/views".to_owned()));
    assert_eq!(display_target(&state), "src/views/");
    state.focused_sidebar_target = None;
    assert_eq!(display_target(&state), "repository");
    state.sidebar_tab = SidebarTab::History;
    assert_eq!(display_target(&state), "history");
    state.history_commit_header = Some(sample_commit());
    assert_eq!(display_target(&state), "commit abc1234");
    state.history_focus = HistoryFocus::DiffView;
    assert_eq!(display_target(&state), "diff view");
    state.history_commit_header = None;
    state.history_selected_path = Some("a.rs".to_owned());
    assert_eq!(display_target(&state), "a.rs");
}

#[test]
fn enter_label_follows_the_history_focus() {
    let mut state = test_state();
    state.sidebar_tab = SidebarTab::History;
    assert_eq!(history_enter_label(&state), None);
    state.selected_commit = Some(0);
    state.commit_files = vec![ChangedFile {
        path: "a.rs".to_owned(),
        status: FileStatus::Added,
        staged: false,
        unstaged: false,
    }];
    assert_eq!(history_enter_label(&state), Some("Focus file list"));
    state.history_focus = HistoryFocus::FileList;
    assert_eq!(history_enter_label(&state), None);
    state.history_diff = Some(FileDiff { path: "a.rs".to_owned(), raw_patch: String::new() });
    assert_eq!(history_enter_label(&state), Some("Focus diff"));
    state.history_focus = HistoryFocus::DiffView;
    assert_eq!(history_enter_label(&state), None);
}

#[test]
fn staged_changes_offer_commit_and_unstage() {
    let mut state = test_state();
    state.current_branch = Some("main".to_owned());
    state.files = vec![ChangedFile {
        path: "a.rs".to_owned(),
        status: FileStatus::Modified,
        staged: true,
        unstaged: false,
    }];
    state.focused_sidebar_target = Some(SidebarTarget::Dir("src".to_owned()));
    state.current_diff = Some(FileDiff { path: "a.rs".to_owned(), raw_patch: String::new() });
    let commands = vec![
        command("c", "Commit staged changes", "Commit"),
        command("b", "Switch branch", "Repo"),
        command("/", "Search diff", "Search & View"),
    ];

    let model = build_footer_model(&state, &commands);

    assert_eq!(model.mode_label, "current: dir");
    let preview: Vec<&str> = model.preview_actions.iter().map(|a| a.label.as_str()).collect();
    assert_eq!(preview, vec!["Actions", "Stage", "Commit"]);
    let titles: Vec<&str> = model.sections.iter().map(|s| s.title.as_str()).collect();
    assert_eq!(titles, vec!["Files", "Commit", "Repo", "Search & View", "Navigation"]);
    let files: Vec<&str> = model.sections[0].actions.iter().map(|a| a.key.as_str()).collect();
    assert_eq!(files, vec!["space", "u", "k"]);
    let nav: Vec<&str> = model.sections[4].actions.iter().map(|a| a.label.as_str()).collect();
    assert_eq!(nav, vec!["Move selection", "Collapse / Expand", "Focus diff"]);
    assert_eq!(model.sections[1].actions[0].label, "Commit staged changes");
}

#[test]
fn history_model_orders_command_sections() {
    let mut state = test_state();
    state.current_branch = Some("main".to_owned());
    state.sidebar_tab = SidebarTab::History;
    let commands = vec![
        command("b", "Switch branch", "Repo"),
        command("y", "Copy commit hash", "Commit"),
        command("x", "Other", "Elsewhere"),
    ];

    let model = build_footer_model(&state, &commands);

    let titles: Vec<&str> = model.sections.iter().map(|s| s.title.as_str()).collect();
    assert_eq!(titles, vec!["Commit", "Repo"]);
    state.current_branch = None;
    let start = build_footer_model(&state, &commands);
    assert_eq!(start.sections[0].actions.len(), 3);
}
