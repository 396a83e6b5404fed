use rustfmt_core::config::{Config, Verbosity};
use rustfmt_core::formatting::{
    format_lines, should_emit_verbose, CharClass, ErrorKind, FormattingError, ReportedErrors, Timer,
};
use rustfmt_core::report::{Issue, IssueType};

const NORMAL: CharClass = CharClass { is_comment: false, is_string: false };
const COMMENT: CharClass = CharClass { is_comment: true, is_string: false };
const STRING: CharClass = CharClass { is_comment: false, is_string: true };

fn kinds(text: &str, kind: CharClass) -> Vec<CharClass> {
    text.chars().map(|_| kind).collect()
}

fn error(kind: ErrorKind, line_buffer: &str) -> FormattingError {
    FormattingError {
        line: 1,
        kind,
        is_comment: false,
        is_string: false,
        line_buffer: line_buffer.to_string(),
    }
}

#[test]
fn checks_report_trailing_whitespace_then_overflow() {
    let mut config = Config::default();
    config.set_error_on_line_overflow(true);
    config.set_max_width(10);
    let mut text = String::from("a \nbbbbbbbbbbbb\n\n\n");
    let ks = kinds(&text, NORMAL);
    let errors = format_lines(&mut text, &ks, "x.rs", &[], &config);
    assert_eq!(text, "a \nbbbbbbbbbbbb\n");
    assert_eq!(errors.len(), 2);
    assert_eq!(errors[0].line, 1);
    assert_eq!(errors[0].kind, ErrorKind::TrailingWhitespace);
    assert_eq!(errors[0].line_buffer, "a ");
    assert_eq!(errors[1].line, 2);
    assert_eq!(errors[1].kind, ErrorKind::LineOverflow(12, 10));
}

#[test]
fn tabs_count_as_tab_spaces() {
    let mut config = Config::default();
    config.set_error_on_line_overflow(true);
    config.set_max_width(10);
    let mut text = String::from("\tabcdefg\n");
    let ks = kinds(&text, NORMAL);
    let errors = format_lines(&mut text, &ks, "x.rs", &[], &config);
    assert_eq!(errors.len(), 1);
    assert_eq!(errors[0].kind, ErrorKind::LineOverflow(11, 10));
}

#[test]
fn comments_and_strings_need_error_on_unformatted() {
    let mut config = Config::default();
    config.set_error_on_line_overflow(true);
    config.set_max_width(4);
    let mut text = String::from("// abcdef \n");
    let ks = kinds(&text, COMMENT);
    let errors = format_lines(&mut text, &ks, "x.rs", &[], &config);
    assert_eq!(errors.len(), 0);
    config.set_error_on_unformatted(true);
    let errors = format_lines(&mut text, &ks, "x.rs", &[], &config);
    assert_eq!(errors.len(), 2);
    assert_eq!(errors[0].kind, ErrorKind::TrailingWhitespace);
    assert!(errors[0].is_comment);
    assert_eq!(errors[1].kind, ErrorKind::LineOverflow(9, 4));
    let mut text = String::from("\"abcdef\"\n");
    let mut ks = kinds(&text, STRING);
    *ks.last_mut().unwrap() = NORMAL;
    config.set_error_on_unformatted(false);
    let errors = format_lines(&mut text, &ks, "x.rs", &[], &config);
    assert_eq!(errors.len(), 0);
}

#[test]
fn skipped_lines_are_not_checked() {
    let mut config = Config::default();
    config.set_error_on_line_overflow(true);
    config.set_max_width(3);
    let mut text = String::from("abcd\nabcd\nabcd\n");
    let ks = kinds(&text, NORMAL);
    let errors = format_lines(&mut text, &ks, "x.rs", &[(2, 3)], &config);
    assert_eq!(errors.len(), 1);
    assert_eq!(errors[0].line, 1);
}

#[test]
fn license_check_comes_first() {
    let mut config = Config::default();
    config.license_template = Some("^// Copyright".to_string());
    let mut text = String::from("fn main() {}\n");
    let ks = kinds(&text, NORMAL);
    let errors = format_lines(&mut text, &ks, "x.rs", &[], &config);
    assert_eq!(errors.len(), 1);
    assert_eq!(errors[0].kind, ErrorKind::LicenseCheck);
    assert_eq!(errors[0].line, 1);
    let mut text = String::from("// Copyright 2018\nfn main() {}\n");
    let ks = kinds(&text, NORMAL);
    let errors = format_lines(&mut text, &ks, "x.rs", &[], &config);
    assert_eq!(errors.len(), 0);
}

#[test]
fn checks_twice_change_nothing_more() {
    let config = Config::default();
    let mut text = String::from("x\n\n\n");
    let ks = kinds(&text, NORMAL);
    format_lines(&mut text, &ks, "x.rs", &[], &config);
    assert_eq!(text, "x\n");
    let ks = kinds(&text, NORMAL);
    format_lines(&mut text, &ks, "x.rs", &[], &config);
    assert_eq!(text, "x\n");
}

#[test]
fn prefixes_of_each_kind() {
    assert_eq!(error(ErrorKind::LineOverflow(5, 3), "").msg_prefix(), "internal error:");
    assert_eq!(error(ErrorKind::ParseError, "").msg_prefix(), "internal error:");
    assert_eq!(error(ErrorKind::IoError("x".to_string()), "").msg_prefix(), "internal error:");
    assert_eq!(error(ErrorKind::LicenseCheck, "").msg_prefix(), "error:");
    assert_eq!(error(ErrorKind::VersionMismatch, "").msg_prefix(), "error:");
    let todo = Issue { issue_type: IssueType::Todo, missing_number: true };
    assert_eq!(error(ErrorKind::BadIssue(todo), "").msg_prefix(), "warning:");
    assert_eq!(error(ErrorKind::DeprecatedAttr, "").msg_prefix(), "warning:");
}

#[test]
fn suffix_for_comments_and_strings() {
    let mut e = error(ErrorKind::LineOverflow(5, 3), "");
    assert_eq!(e.msg_suffix(), "");
    e.is_string = true;
    assert_eq!(
        e.msg_suffix(),
        "set `error_on_unformatted = false` to suppress the warning against comments or string literals\n"
    );
}

#[test]
fn mark_after_last_visible_character() {
    assert_eq!(error(ErrorKind::LineOverflow(105, 100), "").format_len(), (100, 5));
    assert_eq!(error(ErrorKind::LostComment, "abc  ").format_len(), (3, 2));
    assert_eq!(error(ErrorKind::BadAttr, "   ").format_len(), (0, 3));
    // One byte past the start of the last visible character.
    assert_eq!(error(ErrorKind::TrailingWhitespace, "\u{e9} ").format_len(), (1, 2));
}

#[test]
fn error_kinds_about_comments() {
    assert!(ErrorKind::LostComment.is_comment());
    assert!(!ErrorKind::TrailingWhitespace.is_comment());
}

#[test]
fn summaries_combine() {
    let mut a = ReportedErrors::new();
    a.has_diff = true;
    let mut b = ReportedErrors::default();
    b.has_parsing_errors = true;
    a.add(&b);
    assert!(a.has_diff);
    assert!(a.has_parsing_errors);
    assert!(!a.has_operational_errors);
    let before = a;
    a.add(&ReportedErrors::new());
    assert_eq!(a, before);
    let mut c = b;
    c.add(&before);
    assert_eq!(c, a);
}

#[test]
fn verbose_messages_only_for_files() {
    let mut config = Config::default();
    assert!(!should_emit_verbose(false, &config));
    config.set_verbose(Verbosity::Verbose);
    assert!(should_emit_verbose(false, &config));
    assert!(!should_emit_verbose(true, &config));
}

#[test]
fn timer_phases() {
    let t = Timer::start();
    assert!(matches!(t, Timer::Initialized(_)));
    let t = t.done_parsing();
    assert!(matches!(t, Timer::DoneParsing(_, _)));
    let t = t.done_formatting();
    match t {
        Timer::DoneFormatting(init, parse, format) => {
            assert!(init <= parse);
            assert!(parse <= format);
        }
        _ => panic!("not done formatting"),
    }
    assert!(matches!(Timer::Disabled.done_parsing(), Timer::Disabled));
}

#[test]
fn format_lines_errors_are_reported() {
    let long_identifier = String::from_utf8(vec![b'a'; 239]).unwrap();
    let input = format!("fn {}() {{}}", long_identifier);
    // The formatted text of a file ends with a line feed.
    let mut text = input + "\n";
    let mut config = Config::default();
    config.set_error_on_line_overflow(true);
    let ks = kinds(&text, NORMAL);
    let errors = format_lines(&mut text, &ks, "stdin", &[], &config);
    assert_eq!(errors.len(), 1);
    assert_eq!(errors[0].line, 1);
    assert!(matches!(errors[0].kind, ErrorKind::LineOverflow(found, 100) if found == 247));
}

#[test]
fn format_lines_errors_are_reported_with_tabs() {
    let long_identifier = String::from_utf8(vec![b'a'; 97]).unwrap();
    let input = format!("fn a() {{\n\t{}\n}}", long_identifier);
    let mut text = input + "\n";
    let mut config = Config::default();
    config.set_error_on_line_overflow(true);
    config.set_hard_tabs(true);
    let ks = kinds(&text, NORMAL);
    let errors = format_lines(&mut text, &ks, "stdin", &[], &config);
    assert_eq!(errors.len(), 1);
    assert_eq!(errors[0].line, 2);
    assert!(matches!(errors[0].kind, ErrorKind::LineOverflow(found, 100) if found > 100));
}

#[test]
fn tabs_of_no_width() {
    let mut config = Config::default();
    config.set_tab_spaces(0);
    config.set_max_width(3);
    let mut text = "a\t\tbc\nab \n".to_string();
    let ks = kinds(&text, NORMAL);
    let errors = format_lines(&mut text, &ks, "stdin", &[], &config);
    assert_eq!(errors.len(), 1);
    assert_eq!(errors[0].line, 2);
    assert!(matches!(errors[0].kind, ErrorKind::TrailingWhitespace));
    assert_eq!(text, "a\t\tbc\nab \n");
}
