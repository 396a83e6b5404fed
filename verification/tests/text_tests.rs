use rustfmt_core::text::split_str;

#[test]
fn splits_keep_empty_pieces() {
    assert_eq!(split_str("a,b,,c", ','), vec!["a", "b", "", "c"]);
    assert_eq!(split_str("", ','), vec![""]);
    assert_eq!(split_str(",", ','), vec!["", ""]);
    for s in ["x,y", "a,,", ",a", "abc"] {
        assert_eq!(split_str(s, ','), s.split(',').collect::<Vec<_>>());
    }
}
