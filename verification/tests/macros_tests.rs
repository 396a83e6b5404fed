use rustfmt_core::config::Config;
use rustfmt_core::macros::{
    empty_macro_rewrite, get_prefix_space_width, indent_macro_snippet, is_empty_line,
    is_forced_bracket, is_try_macro, macro_name_text, style_from_positions, vec_semi_rewrite,
    MacroPosition, MacroStyle,
};
use rustfmt_core::shape::{Indent, Shape};

#[test]
fn styles_by_first_delimiter() {
    assert_eq!(style_from_positions(Some(3), Some(1), None), MacroStyle::Brackets);
    assert_eq!(style_from_positions(Some(1), Some(3), Some(2)), MacroStyle::Parens);
    assert_eq!(style_from_positions(None, None, Some(0)), MacroStyle::Braces);
    assert_eq!(style_from_positions(None, None, None), MacroStyle::Braces);
    assert_eq!(MacroStyle::Parens.opener(), "(");
    assert_eq!(MacroStyle::Brackets.opener(), "[");
    assert_eq!(MacroStyle::Braces.opener(), "{");
}

#[test]
fn macro_names() {
    assert_eq!(macro_name_text("foo", None), "foo!");
    assert_eq!(macro_name_text("macro_rules", Some("bar")), "macro_rules! bar");
    assert!(is_forced_bracket("vec!"));
    assert!(!is_forced_bracket("foo!"));
}

#[test]
fn empty_invocations() {
    assert_eq!(empty_macro_rewrite("foo!", MacroStyle::Parens, MacroPosition::Item), "foo!();");
    assert_eq!(
        empty_macro_rewrite("foo!", MacroStyle::Parens, MacroPosition::Expression),
        "foo!()"
    );
    assert_eq!(empty_macro_rewrite("vec!", MacroStyle::Brackets, MacroPosition::Item), "vec![]");
    assert_eq!(
        empty_macro_rewrite("foo!", MacroStyle::Braces, MacroPosition::Statement),
        "foo!{}"
    );
}

#[test]
fn blank_lines() {
    assert!(is_empty_line(""));
    assert!(is_empty_line("  \t"));
    assert!(!is_empty_line(" a"));
}

#[test]
fn prefix_widths() {
    let config = Config::default();
    assert_eq!(get_prefix_space_width(&config, "  \t x"), 7);
    assert_eq!(get_prefix_space_width(&config, "x  "), 0);
    assert_eq!(get_prefix_space_width(&config, "   "), 3);
}

#[test]
fn reindented_snippets() {
    let config = Config::default();
    let snippet = "foo!{  \nx,\n    y,\n\n}";
    assert_eq!(
        indent_macro_snippet(&config, snippet, Indent::new(4, 0)),
        Some("foo!{\n    x,\n        y,\n\n    }".to_string())
    );
    assert_eq!(
        indent_macro_snippet(&config, "foo!{\n  a,\n    b,\n  }", Indent::new(0, 0)),
        Some("foo!{\na,\n  b,\n}".to_string())
    );
    assert_eq!(indent_macro_snippet(&config, "foo!{\n\n  ", Indent::new(4, 0)), None);
    assert_eq!(indent_macro_snippet(&config, "", Indent::new(4, 0)), None);
    let mut tabs = Config::default();
    tabs.set_hard_tabs(true);
    assert_eq!(
        indent_macro_snippet(&tabs, "m!{\nx,\n  y,\n}", Indent::new(4, 0)),
        Some("m!{\n\tx,\n\t  y,\n\t}".to_string())
    );
}

#[test]
fn try_macros() {
    assert!(is_try_macro("try"));
    assert!(!is_try_macro("try_opt"));
}

#[test]
fn vec_with_length() {
    let mut config = Config::default();
    let shape = Shape::legacy(100, Indent::new(4, 0));
    assert_eq!(vec_semi_rewrite(&config, "vec!", "0", "10", shape), Some("vec![0; 10]".to_string()));
    let narrow = Shape::legacy(10, Indent::new(4, 0));
    assert_eq!(
        vec_semi_rewrite(&config, "vec!", "aaaa", "bbbb", narrow),
        Some("vec![\n        aaaa;\n        bbbb\n    ]".to_string())
    );
    assert_eq!(vec_semi_rewrite(&config, "vec!", "a", "b", Shape::legacy(3, Indent::new(0, 0))), None);
    assert_eq!(
        vec_semi_rewrite(&config, "vec!", "a\nb", "c", shape),
        Some("vec![\n        a\nb;\n        c\n    ]".to_string())
    );
    config.spaces_within_square_brackets = true;
    assert_eq!(vec_semi_rewrite(&config, "vec!", "0", "10", shape), Some("vec![ 0; 10 ]".to_string()));
}
