use anduin::search::{
    extract_match_contexts, extract_match_contexts_from_lines, find_case_insensitive,
    find_match_line_indices_with_lower, search_file_diff, FileSearchOutcome, SEARCH_CONTEXT_RADIUS,
};

#[test]
fn finds_case_insensitive_matches() {
    let diff = "@@ -1 +1 @@\n-Foo\n+bar foo\n context";
    let matches = find_match_line_indices_with_lower(diff, None, "foo", Some("foo"), false);

    assert_eq!(matches, vec![1, 2]);
}

#[test]
fn finds_case_sensitive_matches() {
    let diff = "@@ -1 +1 @@\n-Foo\n+foo\n+FOO";
    let matches = find_match_line_indices_with_lower(diff, None, "foo", None, true);

    assert_eq!(matches, vec![2]);
}

#[test]
fn merges_overlapping_match_contexts() {
    let lines = vec!["0", "1", "2", "3", "4", "5", "6", "7", "8", "9"];
    let contexts = extract_match_contexts_from_lines(&lines, &[2, 4], 2);

    assert_eq!(contexts.len(), 1);
    assert_eq!(contexts[0].start_line, 0);
    assert_eq!(contexts[0].end_line, 6);
    assert!(contexts[0].lines[2].is_match);
    assert!(contexts[0].lines[4].is_match);
}

#[test]
fn splits_distant_match_contexts() {
    let lines = vec!["0", "1", "2", "3", "4", "5", "6", "7", "8", "9", "10", "11"];
    let contexts = extract_match_contexts_from_lines(&lines, &[1, 10], 1);

    assert_eq!(contexts.len(), 2);
    assert_eq!(contexts[0].start_line, 0);
    assert_eq!(contexts[0].end_line, 2);
    assert_eq!(contexts[1].start_line, 9);
    assert_eq!(contexts[1].end_line, 11);
}

#[test]
fn deduplicates_match_line_indices_in_contexts() {
    let lines = vec!["0", "1", "2", "3", "4"];
    let contexts = extract_match_contexts_from_lines(&lines, &[2, 2, 2], 1);

    assert_eq!(contexts.len(), 1);
    let match_lines: Vec<_> = contexts[0]
        .lines
        .iter()
        .filter(|line| line.is_match)
        .map(|line| line.line_number)
        .collect();
    assert_eq!(match_lines, vec![2]);
}

#[test]
fn case_insensitive_find_gives_byte_offset_in_lowercased_text() {
    assert_eq!(find_case_insensitive("Hello World", "world"), Some(6));
    assert_eq!(find_case_insensitive("ÄÖ abc", "abc"), Some(5));
    assert_eq!(find_case_insensitive("abc", "zzz"), None);
}

#[test]
fn lowercases_query_when_no_lowercase_is_given() {
    let diff = "A\nb\nAB";
    let matches = find_match_line_indices_with_lower(diff, None, "A", None, false);
    assert_eq!(matches, vec![0, 2]);
}

#[test]
fn uses_given_lowercased_diff_and_query() {
    let matches = find_match_line_indices_with_lower("X\nY", Some("x\ny"), "Y", Some("y"), false);
    assert_eq!(matches, vec![1]);
}

#[test]
fn empty_query_matches_no_line() {
    let matches = find_match_line_indices_with_lower("a\nb", None, "", None, true);
    assert!(matches.is_empty());
}

#[test]
fn contexts_clamp_at_both_ends_and_number_lines() {
    let lines = vec!["a", "b", "c"];
    let contexts = extract_match_contexts_from_lines(&lines, &[0], 5);
    assert_eq!(contexts.len(), 1);
    assert_eq!(contexts[0].start_line, 0);
    assert_eq!(contexts[0].end_line, 2);
    assert_eq!(contexts[0].lines[0].line_number_display, "   1");
    assert_eq!(contexts[0].lines[2].text, "c");
    assert!(contexts[0].lines[0].is_match);
    assert!(!contexts[0].lines[1].is_match);
}

#[test]
fn adjacent_windows_merge_into_one_context() {
    let lines: Vec<String> = (0..20).map(|i| i.to_string()).collect();
    let refs: Vec<&str> = lines.iter().map(|s| s.as_str()).collect();
    // windows 0..=3 and 4..=8 touch
    let contexts = extract_match_contexts_from_lines(&refs, &[6, 1], 2);
    assert_eq!(contexts.len(), 1);
    assert_eq!((contexts[0].start_line, contexts[0].end_line), (0, 8));
    // windows 0..=3 and 5..=9 leave line 4 out
    let contexts = extract_match_contexts_from_lines(&refs, &[1, 7], 2);
    assert_eq!(contexts.len(), 2);
    assert!(contexts[0].end_line + 1 < contexts[1].start_line);
}

#[test]
fn no_lines_or_no_matches_give_no_context() {
    let empty: Vec<&str> = Vec::new();
    assert!(extract_match_contexts_from_lines(&empty, &[0], 1).is_empty());
    assert!(extract_match_contexts_from_lines(&["a"], &[], 1).is_empty());
}

#[test]
fn contexts_of_raw_diff_use_its_lines() {
    let contexts = extract_match_contexts("x\r\ny\nz\n", &[1], SEARCH_CONTEXT_RADIUS);
    assert_eq!(contexts.len(), 1);
    assert_eq!(contexts[0].lines.len(), 3);
    assert_eq!(contexts[0].lines[0].text, "x");
    assert!(contexts[0].lines[1].is_match);
}

#[test]
fn search_file_diff_reports_no_match() {
    assert!(matches!(search_file_diff("+a\n-b\n", None, "zzz", Some("zzz"), false), FileSearchOutcome::NoMatch));
    assert!(matches!(search_file_diff("+a\n", None, "", None, true), FileSearchOutcome::NoMatch));
}

#[test]
fn search_file_diff_gives_contexts_and_count() {
    let diff = "@@ -1 +1 @@\n-Foo\n+bar foo\n context";
    match search_file_diff(diff, None, "foo", Some("foo"), false) {
        FileSearchOutcome::Matches(m) => {
            assert_eq!(m.total_matches, 2);
            assert_eq!(m.total_matches_display, "2");
            let indices = find_match_line_indices_with_lower(diff, None, "foo", Some("foo"), false);
            assert_eq!(m.contexts, extract_match_contexts(diff, &indices, SEARCH_CONTEXT_RADIUS));
            assert_eq!(m.contexts.len(), 1);
        }
        _ => panic!("expected matches"),
    }
    match search_file_diff(diff, None, "Foo", None, true) {
        FileSearchOutcome::Matches(m) => assert_eq!(m.total_matches, 1),
        _ => panic!("expected a match"),
    }
}
