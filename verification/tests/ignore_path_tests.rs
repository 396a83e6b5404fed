use rustfmt_core::ignore_path::{FileName, IgnorePathSet};

#[test]
fn test_ignore_path_set() {
    let ignore = vec!["foo.rs".to_string(), "bar_dir/*".to_string()];
    let ignore_path_set = IgnorePathSet::from_ignore_list(&ignore).unwrap();

    assert!(ignore_path_set.is_match(&FileName::Real("src/foo.rs".to_string())));
    assert!(ignore_path_set.is_match(&FileName::Real("bar_dir/baz.rs".to_string())));
    assert!(!ignore_path_set.is_match(&FileName::Real("src/bar.rs".to_string())));
}

#[test]
fn standard_input_is_never_ignored() {
    let ignore = vec!["*".to_string()];
    let ignore_path_set = IgnorePathSet::from_ignore_list(&ignore).unwrap();
    assert!(!ignore_path_set.is_match(&FileName::Stdin));
    assert!(ignore_path_set.is_match(&FileName::Real("a.rs".to_string())));
}

#[test]
fn bad_patterns_are_refused() {
    let ignore = vec!["a{b".to_string()];
    assert!(IgnorePathSet::from_ignore_list(&ignore).is_err());
}

#[test]
fn comments_and_blank_lines_hold_no_pattern() {
    let ignore = vec!["".to_string(), "# foo.rs".to_string()];
    let ignore_path_set = IgnorePathSet::from_ignore_list(&ignore).unwrap();
    assert!(!ignore_path_set.is_match(&FileName::Real("foo.rs".to_string())));
    assert!(!ignore_path_set.is_match(&FileName::Real("src/foo.rs".to_string())));
}
