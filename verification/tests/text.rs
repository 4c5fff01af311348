use anduin::state::ProjectSearch;
use anduin::text::{decimal_padded, split_char, split_lines, trim};

#[test]
fn lowercase_wrapper_lowercases() {
    let mut search = ProjectSearch::new();
    search.query = "ÀBc".to_owned();
    search.update_query_lower();
    assert_eq!(search.query_lower, "àbc");
}

#[test]
fn lines_split_like_str_lines() {
    assert_eq!(split_lines("a\r\nb\n\nc"), vec!["a", "b", "", "c"]);
    assert_eq!(split_lines("a\n"), vec!["a"]);
    assert!(split_lines("").is_empty());
}

#[test]
fn split_trim_and_padding() {
    assert_eq!(split_char("a//b", '/'), vec!["a", "", "b"]);
    assert_eq!(trim("\t x y \n"), "x y");
    assert_eq!(decimal_padded(7, 4), "   7");
    assert_eq!(decimal_padded(12345, 4), "12345");
}
