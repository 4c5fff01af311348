use anduin::gitignore::{ignore_change, trim_end_slashes};

#[test]
fn trailing_slashes_are_trimmed() {
    assert_eq!(trim_end_slashes("build//"), "build");
    assert_eq!(trim_end_slashes("a/b"), "a/b");
    assert_eq!(trim_end_slashes("///"), "");
    assert_eq!(trim_end_slashes(""), "");
}

#[test]
fn a_new_file_pattern_is_appended_on_its_own_line() {
    let change = ignore_change("target/\n*.log", "notes.txt", false);
    assert_eq!(change.append.as_deref(), Some("\nnotes.txt\n"));
    assert_eq!(change.message, "Added notes.txt to .gitignore");

    let change = ignore_change("target/\n", "notes.txt", false);
    assert_eq!(change.append.as_deref(), Some("notes.txt\n"));

    let change = ignore_change("", "notes.txt", false);
    assert_eq!(change.append.as_deref(), Some("notes.txt\n"));
}

#[test]
fn directories_get_a_trailing_slash() {
    let change = ignore_change("", "build", true);
    assert_eq!(change.append.as_deref(), Some("build/\n"));
    assert_eq!(change.message, "Added build to .gitignore");
}

#[test]
fn an_ignored_path_is_not_added_again() {
    let change = ignore_change("*.log\n  build/  \r\nnotes.txt\n", "build", true);
    assert!(change.append.is_none());
    assert_eq!(change.message, "build already in .gitignore");

    let change = ignore_change("build\n", "build", true);
    assert!(change.append.is_none());

    let change = ignore_change("build/\n", "build", false);
    assert!(change.append.is_none());

    let change = ignore_change("rebuild\n", "build", false);
    assert_eq!(change.append.as_deref(), Some("build\n"));
}
