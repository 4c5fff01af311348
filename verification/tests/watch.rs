use anduin::watch::{is_relevant_event, is_relevant_kind, is_relevant_path, WatchEventKind};

#[test]
fn git_and_target_directories_are_ignored() {
    assert!(!is_relevant_path("/repo/.git/index", "/repo"));
    assert!(!is_relevant_path("/repo/target/debug/x", "/repo"));
    assert!(!is_relevant_path("/repo//./target", "/repo/"));
    assert!(is_relevant_path("/repo/src/main.rs", "/repo"));
    assert!(is_relevant_path("/repo/src/.git", "/repo"));
    assert!(is_relevant_path("/other/.git/x", "/repo"));
    assert!(is_relevant_path("/repo", "/repo"));
    assert!(is_relevant_path("/repository/.git", "/repo"));
}

#[test]
fn only_access_events_are_ignored() {
    assert!(!is_relevant_kind(WatchEventKind::Access));
    assert!(is_relevant_kind(WatchEventKind::Modify));
    let paths = vec!["/repo/.git/HEAD".to_owned(), "/repo/a.rs".to_owned()];
    assert!(is_relevant_event(WatchEventKind::Create, &paths, "/repo"));
    assert!(!is_relevant_event(WatchEventKind::Access, &paths, "/repo"));
    assert!(!is_relevant_event(WatchEventKind::Remove, &vec!["/repo/.git/x".to_owned()], "/repo"));
}
