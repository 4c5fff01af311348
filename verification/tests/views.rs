use anduin::views::{split_diff_prefix, split_first_match, split_path_parts};

#[test]
fn split_first_match_case_sensitive() {
    assert_eq!(
        split_first_match("alpha beta gamma", "beta", "beta", true),
        ("alpha ", "beta", " gamma")
    );
}

#[test]
fn split_first_match_case_insensitive() {
    assert_eq!(
        split_first_match("alpha BETA gamma", "beta", "beta", false),
        ("alpha ", "BETA", " gamma")
    );
}

#[test]
fn split_first_match_handles_missing_query() {
    assert_eq!(
        split_first_match("alpha", "zzz", "zzz", false),
        ("alpha", "", "")
    );
}

#[test]
fn split_first_match_with_empty_query_keeps_line() {
    assert_eq!(split_first_match("abc", "", "", true), ("abc", "", ""));
}

#[test]
fn split_first_match_counts_bytes_of_multibyte_text() {
    assert_eq!(split_first_match("héllo wörld", "wörld", "wörld", true), ("héllo ", "wörld", ""));
}

#[test]
fn split_path_parts_splits_at_last_slash() {
    assert_eq!(split_path_parts("src/views/diff.rs"), ("src/views", "diff.rs"));
    assert_eq!(split_path_parts("README.md"), ("(repo root)", "README.md"));
    assert_eq!(split_path_parts("dir/"), ("dir", ""));
}

#[test]
fn split_diff_prefix_takes_known_prefixes_only() {
    assert_eq!(split_diff_prefix("+added"), ("+", "added"));
    assert_eq!(split_diff_prefix("-gone"), ("-", "gone"));
    assert_eq!(split_diff_prefix("@@ -1 +1 @@"), ("@", "@ -1 +1 @@"));
    assert_eq!(split_diff_prefix(" same"), (" ", "same"));
    assert_eq!(split_diff_prefix("diff --git"), ("", "diff --git"));
    assert_eq!(split_diff_prefix(""), ("", ""));
}
