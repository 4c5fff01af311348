use anduin::config::ThemePreference;
use anduin::state::{
    BranchPicker, CommitComposer, ProjectPicker, ProjectSearch, SearchResultSummary, ThemeMode,
};

fn strings(v: &[&str]) -> Vec<String> {
    v.iter().map(|s| s.to_string()).collect()
}

#[test]
fn theme_mode_preferences_and_toggle() {
    assert_eq!(ThemeMode::from_preference(ThemePreference::System), ThemeMode::Dark);
    assert_eq!(ThemeMode::from_preference(ThemePreference::Light), ThemeMode::Light);
    assert_eq!(ThemeMode::Light.preference(), ThemePreference::Light);
    let mut m = ThemeMode::Dark;
    m.toggle();
    assert_eq!(m, ThemeMode::Light);
    assert!(!m.is_dark());
    m.toggle();
    assert!(m.is_dark());
}

#[test]
fn commit_needs_staged_files_and_a_summary() {
    let mut c = CommitComposer::new();
    assert!(!c.can_submit(1));
    c.summary = "  \n".to_owned();
    assert!(!c.can_submit(1));
    c.summary = " fix ".to_owned();
    assert!(c.can_submit(1));
    assert!(!c.can_submit(0));
    c.submitting = true;
    assert!(!c.can_submit(1));
}

#[test]
fn branches_filter_prefix_matches_first() {
    let mut p = BranchPicker::new(strings(&["feature/main-fix", "main", "dev", "Maintenance"]), "dev".to_owned());
    assert_eq!(p.filtered_branches(), vec!["feature/main-fix", "main", "dev", "Maintenance"]);
    p.filter = "MAIN".to_owned();
    assert_eq!(p.filtered_branches(), vec!["main", "Maintenance", "feature/main-fix"]);
    p.filter = "zzz".to_owned();
    assert!(p.filtered_branches().is_empty());
}

#[test]
fn repos_filter_excludes_current_and_prefers_names() {
    let mut p = ProjectPicker::new(
        strings(&["/src/anduin", "/work/app-anduin", "/home/x/notes", "/src/other"]),
        "/src/other".to_owned(),
    );
    assert_eq!(p.filtered_repos(), vec!["/src/anduin", "/work/app-anduin", "/home/x/notes"]);
    p.filter = "and".to_owned();
    assert_eq!(p.filtered_repos(), vec!["/src/anduin", "/work/app-anduin"]);
    p.filter = "home".to_owned();
    assert_eq!(p.filtered_repos(), vec!["/home/x/notes"]);
}

fn result(path: &str, matches: usize, contexts: usize) -> SearchResultSummary {
    SearchResultSummary { file_path: path.to_owned(), total_matches: matches, context_count: contexts }
}

#[test]
fn search_summaries_follow_state() {
    let mut s = ProjectSearch::new();
    assert_eq!(s.cached_file_summary, "0 files");
    s.rebuild_cached_summaries();
    assert_eq!(s.cached_summary, "Search all diffs");
    s.query = "fo\"o".to_owned();
    s.searching = true;
    s.rebuild_cached_summaries();
    assert_eq!(s.cached_summary, "Searching for \"fo\\\"o\"…");
    s.set_results(vec![result("a", 1, 1)]);
    assert_eq!(s.cached_summary, "\"fo\\\"o\" • 1 file • 1 match");
    assert_eq!(s.cached_file_summary, "1 file");
    assert_eq!(s.cached_result_summary, "1 context block • 1 total match");
    s.set_results(vec![result("a", 2, 1), result("b", 3, 2)]);
    assert_eq!(s.cached_summary, "\"fo\\\"o\" • 2 files • 5 matches");
    assert_eq!(s.cached_result_summary, "3 context blocks • 5 total matches");
    s.clear_results();
    assert_eq!(s.cached_summary, "\"fo\\\"o\" • 0 files • 0 matches");
}

#[test]
fn search_lowercases_query_unless_case_sensitive() {
    let mut s = ProjectSearch::new();
    s.query = "ÄbC".to_owned();
    s.update_query_lower();
    assert_eq!(s.query_lower, "äbc");
    s.case_sensitive = true;
    s.update_query_lower();
    assert_eq!(s.query_lower, "");
}

#[test]
fn search_results_are_found_by_path() {
    let mut s = ProjectSearch::new();
    s.set_results(vec![result("a", 1, 1), result("b", 1, 1), result("a", 2, 2)]);
    assert!(s.is_matching_path(&"b".to_owned()));
    assert!(!s.is_matching_path(&"c".to_owned()));
    assert_eq!(s.result_index(&"a".to_owned()), Some(2));
    assert_eq!(s.result_index(&"c".to_owned()), None);
    s.request_id = u64::MAX;
    assert_eq!(s.next_request(), 0);
    assert_eq!(s.next_request(), 1);
}

#[test]
fn debug_formatting_quotes_and_escapes() {
    let mut search = ProjectSearch::new();
    search.query = "a\"b\n".to_owned();
    assert_eq!(search.no_matches_detail(), "for \"a\\\"b\\n\"");
}
