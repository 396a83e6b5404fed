use rustfmt_core::config::{
    parse_bool, parse_usize, Config, ConfigType, Edition, EmitMode, FileLines, FileRange,
    NewlineStyle, Verbosity,
};

#[test]
fn defaults() {
    let c = Config::default();
    assert_eq!(c.max_width(), 100);
    assert_eq!(c.tab_spaces(), 4);
    assert!(!c.hard_tabs());
    assert!(!c.error_on_unformatted);
    assert_eq!(c.verbose, Verbosity::Normal);
    assert_eq!(c.emit_mode, EmitMode::Files);
    assert_eq!(c.edition, Edition::Edition2015);
    assert_eq!(c.newline_style, NewlineStyle::Unix);
    assert!(c.license_template.is_none());
}

#[test]
fn numbers_parse_as_std_does() {
    assert_eq!(parse_usize("42"), Some(42));
    assert_eq!(parse_usize("+7"), Some(7));
    assert_eq!(parse_usize("007"), Some(7));
    assert_eq!(parse_usize(""), None);
    assert_eq!(parse_usize("+"), None);
    assert_eq!(parse_usize("1a"), None);
    assert_eq!(parse_usize("-1"), None);
    assert_eq!(parse_usize(&usize::MAX.to_string()), Some(usize::MAX));
    assert_eq!(parse_usize(&format!("{}0", usize::MAX)), None);
    for s in ["0", "+12", "99999", "x", "", "+-3"] {
        assert_eq!(parse_usize(s), s.parse::<usize>().ok());
    }
}

#[test]
fn booleans_parse_as_std_does() {
    assert_eq!(parse_bool("true"), Some(true));
    assert_eq!(parse_bool("false"), Some(false));
    assert_eq!(parse_bool("True"), None);
    assert_eq!(parse_bool(""), None);
}

#[test]
fn option_names_and_values() {
    assert!(Config::is_valid_name("max_width"));
    assert!(Config::is_valid_name("hard_tabs"));
    assert!(!Config::is_valid_name("maxwidth"));
    assert!(Config::is_valid_key_val("max_width", "120"));
    assert!(!Config::is_valid_key_val("max_width", "abc"));
    assert!(Config::is_valid_key_val("hard_tabs", "true"));
    assert!(!Config::is_valid_key_val("hard_tabs", "1"));
    assert!(!Config::is_valid_key_val("unknown", "1"));
}

#[test]
fn overriding_options() {
    let mut c = Config::default();
    c.override_value("max_width", "80");
    c.override_value("hard_tabs", "true");
    c.override_value("recursive", "true");
    assert_eq!(c.max_width(), 80);
    assert!(c.hard_tabs());
    assert!(c.recursive);
    assert_eq!(c.tab_spaces(), 4);
}

#[test]
fn hidden_options() {
    assert!(Config::is_hidden_option("verbose"));
    assert!(Config::is_hidden_option("file_lines"));
    assert!(Config::is_hidden_option("print_misformatted_file_names"));
    assert!(!Config::is_hidden_option("max_width"));
}

#[test]
fn doc_hints() {
    assert_eq!(<bool as ConfigType>::doc_hint(), "<boolean>");
    assert_eq!(<usize as ConfigType>::doc_hint(), "<unsigned integer>");
    assert_eq!(<isize as ConfigType>::doc_hint(), "<signed integer>");
    assert_eq!(<String as ConfigType>::doc_hint(), "<string>");
    assert_eq!(<FileLines as ConfigType>::doc_hint(), "<json>");
}

#[test]
fn file_line_ranges() {
    let all = FileLines::all();
    assert!(all.contains_line("a.rs", 1000));
    let fl = FileLines {
        ranges: Some(vec![
            FileRange { file: "a.rs".to_string(), lo: 3, hi: 5 },
            FileRange { file: "b.rs".to_string(), lo: 1, hi: 1 },
        ]),
    };
    assert!(fl.contains_line("a.rs", 3));
    assert!(fl.contains_line("a.rs", 5));
    assert!(!fl.contains_line("a.rs", 6));
    assert!(!fl.contains_line("c.rs", 1));
    let copy = fl.copy();
    for line in 0..8 {
        assert_eq!(copy.contains_line("a.rs", line), fl.contains_line("a.rs", line));
        assert_eq!(copy.contains_line("b.rs", line), fl.contains_line("b.rs", line));
    }
}
