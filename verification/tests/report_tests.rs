use rustfmt_core::config::{parse_usize, Config, FileLines, FileRange};
use rustfmt_core::report::{
    decimal_text, error_lines, format_lines, target_str, ErrorKind, FormatReport, FormattingError,
    Input, Issue, IssueType,
};
use rustfmt_core::buffer::buffer_from;
use strings::string_buffer::StringBuffer;

fn buffer(text: &str) -> StringBuffer {
    buffer_from(text)
}

fn error(line: usize, kind: ErrorKind, is_comment: bool, line_buffer: &str) -> FormattingError {
    FormattingError { line, kind, is_comment, line_buffer: line_buffer.to_string() }
}

#[test]
fn decimal_numerals() {
    assert_eq!(decimal_text(0), "0");
    assert_eq!(decimal_text(7), "7");
    assert_eq!(decimal_text(1234), "1234");
    assert_eq!(decimal_text(usize::MAX), usize::MAX.to_string());
}

#[test]
fn decimal_numeral_parses_back() {
    for n in [0usize, 9, 10, 99, 100, 65535, usize::MAX] {
        assert_eq!(parse_usize(&decimal_text(n)), Some(n));
    }
}

#[test]
fn error_kind_messages() {
    assert_eq!(
        ErrorKind::LineOverflow(120, 100).to_text(),
        "line exceeded maximum width (maximum: 100, found: 120)"
    );
    assert_eq!(ErrorKind::TrailingWhitespace.to_text(), "left behind trailing whitespace");
    let todo = Issue { issue_type: IssueType::Todo, missing_number: true };
    assert_eq!(ErrorKind::BadIssue(todo).to_text(), "found TODO without issue number");
    let fixme = Issue { issue_type: IssueType::Fixme, missing_number: false };
    assert_eq!(ErrorKind::BadIssue(fixme).to_text(), "found FIXME");
}

#[test]
fn target_marks() {
    assert_eq!(target_str(3, 2), "   ^^");
    assert_eq!(target_str(0, 0), "");
}

#[test]
fn message_prefixes_and_notes() {
    let e = error(3, ErrorKind::LineOverflow(105, 100), true, "x");
    assert_eq!(e.msg_prefix(), "error:");
    assert_eq!(
        e.msg_suffix(),
        "use `error_on_line_overflow_comments = false` to suppress the warning against line comments\n"
    );
    let e = error(3, ErrorKind::LineOverflow(105, 100), false, "x");
    assert_eq!(e.msg_suffix(), "");
    let todo = Issue { issue_type: IssueType::Todo, missing_number: true };
    let e = error(3, ErrorKind::BadIssue(todo), false, "");
    assert_eq!(e.msg_prefix(), "WARNING:");
    assert_eq!(e.format_len(), (0, 0));
}

#[test]
fn mark_positions() {
    let e = error(1, ErrorKind::LineOverflow(105, 100), false, "x");
    assert_eq!(e.format_len(), (100, 5));
    let e = error(1, ErrorKind::TrailingWhitespace, false, "let x = 1;  ");
    assert_eq!(e.format_len(), (10, 2));
    // The start is in bytes, the length in characters.
    let e = error(1, ErrorKind::TrailingWhitespace, false, "\u{e9}\u{3000} ");
    assert_eq!(e.format_len(), (4, 2));
}

#[test]
fn report_records_files() {
    let mut report = FormatReport::new();
    assert!(!report.has_warnings());
    assert_eq!(report.warning_count(), 0);
    report.insert(
        "a.rs".to_string(),
        vec![
            error(1, ErrorKind::TrailingWhitespace, false, "a "),
            error(2, ErrorKind::TrailingWhitespace, false, "b "),
        ],
    );
    report.insert("b.rs".to_string(), vec![]);
    assert!(report.has_warnings());
    assert_eq!(report.warning_count(), 2);
    report.insert("a.rs".to_string(), vec![]);
    assert!(!report.has_warnings());
    assert_eq!(report.warning_count(), 0);
    let names: Vec<&str> = report.entries().iter().map(|(n, _)| n.as_str()).collect();
    assert_eq!(names, vec!["a.rs", "b.rs"]);
}

#[test]
fn report_text_shows_each_error() {
    let mut report = FormatReport::new();
    report.insert(
        "src/lib.rs".to_string(),
        vec![error(7, ErrorKind::TrailingWhitespace, false, "x  ")],
    );
    assert_eq!(
        report.to_text(),
        "error: left behind trailing whitespace\n --> src/lib.rs:7\n  |\n7 | x  \n  |  ^^\n\nwarning: rustfmt may have failed to format. See previous 1 errors.\n"
    );
}

#[test]
fn report_text_of_an_overflowing_comment() {
    let e = error(12, ErrorKind::LineOverflow(5, 3), true, "// ab");
    assert_eq!(
        error_lines("f.rs", &e),
        "error: line exceeded maximum width (maximum: 3, found: 5)\n  --> f.rs:12\n   |\n12 | // ab\n   |    ^^\n   note= use `error_on_line_overflow_comments = false` to suppress the warning against line comments\n\n"
    );
    let e = error(4, ErrorKind::TrailingWhitespace, false, "");
    assert_eq!(
        error_lines("f.rs", &e),
        "error: left behind trailing whitespace\n --> f.rs:4\n \n\n"
    );
}

#[test]
fn report_text_without_errors() {
    assert_eq!(FormatReport::new().to_text(), "");
    let mut report = FormatReport::new();
    report.insert("a.rs".to_string(), vec![]);
    assert_eq!(
        report.to_text(),
        "warning: rustfmt may have failed to format. See previous 0 errors.\n"
    );
}

#[test]
fn line_checks_find_trailing_whitespace_and_trim_line_feeds() {
    let config = Config::default();
    let mut text = buffer("fn main() {  \n    let x = 1;\n}\n\n\n");
    let mut report = FormatReport::new();
    format_lines(&mut text, "test.rs", &config, &mut report);
    assert_eq!(text.to_string(), "fn main() {  \n    let x = 1;\n}\n");
    let (name, errors) = &report.entries()[0];
    assert_eq!(name, "test.rs");
    assert_eq!(errors.len(), 1);
    assert_eq!(errors[0].line, 1);
    assert_eq!(errors[0].kind, ErrorKind::TrailingWhitespace);
    assert_eq!(errors[0].line_buffer, "fn main() {  ");
}

#[test]
fn line_checks_find_overflowing_lines() {
    let mut config = Config::default();
    config.set_error_on_line_overflow(true);
    config.set_max_width(10);
    let mut text = buffer("0123456789AB\n// 0123456789\nshort\n");
    let mut report = FormatReport::new();
    format_lines(&mut text, "test.rs", &config, &mut report);
    assert_eq!(text.to_string(), "0123456789AB\n// 0123456789\nshort\n");
    let errors = &report.entries()[0].1;
    assert_eq!(errors.len(), 2);
    assert_eq!(errors[0].line, 1);
    assert_eq!(errors[0].kind, ErrorKind::LineOverflow(12, 10));
    assert!(!errors[0].is_comment);
    assert_eq!(errors[1].line, 2);
    assert_eq!(errors[1].kind, ErrorKind::LineOverflow(13, 10));
    assert!(errors[1].is_comment);
    assert_eq!(errors[1].line_buffer, "// 0123456789");
}

#[test]
fn line_checks_skip_comment_lines_when_asked() {
    let mut config = Config::default();
    config.set_error_on_line_overflow(true);
    config.set_max_width(10);
    config.error_on_line_overflow_comments = false;
    let mut text = buffer("// 0123456789\n");
    let mut report = FormatReport::new();
    format_lines(&mut text, "test.rs", &config, &mut report);
    assert_eq!(report.warning_count(), 0);
}

#[test]
fn line_checks_only_look_at_selected_lines() {
    let mut config = Config::default();
    config.set_error_on_line_overflow(true);
    config.set_max_width(3);
    config.set_file_lines(FileLines {
        ranges: Some(vec![FileRange { file: "test.rs".to_string(), lo: 2, hi: 2 }]),
    });
    let mut text = buffer("aaaa \nbbbb \ncccc \n");
    let mut report = FormatReport::new();
    format_lines(&mut text, "test.rs", &config, &mut report);
    let errors = &report.entries()[0].1;
    assert_eq!(errors.len(), 2);
    assert_eq!(errors[0].line, 2);
    assert_eq!(errors[0].kind, ErrorKind::LineOverflow(4, 3));
    assert_eq!(errors[1].line, 2);
    assert_eq!(errors[1].kind, ErrorKind::TrailingWhitespace);
    let mut other = buffer("aaaa \n");
    format_lines(&mut other, "other.rs", &config, &mut report);
    assert_eq!(report.entries()[1].1.len(), 0);
}

#[test]
fn line_checks_pass_over_carriage_returns() {
    let config = Config::default();
    let mut text = buffer("ab \r\ncd\r\n");
    let mut report = FormatReport::new();
    format_lines(&mut text, "test.rs", &config, &mut report);
    let errors = &report.entries()[0].1;
    assert_eq!(errors.len(), 1);
    assert_eq!(errors[0].line_buffer, "ab ");
    assert_eq!(text.to_string(), "ab \r\ncd\r\n");
}

#[test]
fn line_checks_twice_change_nothing_more() {
    let config = Config::default();
    let mut text = buffer("x\n\n\n\n");
    let mut report = FormatReport::new();
    format_lines(&mut text, "t.rs", &config, &mut report);
    assert_eq!(text.to_string(), "x\n");
    format_lines(&mut text, "t.rs", &config, &mut report);
    assert_eq!(text.to_string(), "x\n");
    assert_eq!(report.entries().len(), 1);
}

#[test]
fn inputs() {
    match Input::Text("fn main() {}".to_string()) {
        Input::Text(t) => assert_eq!(t, "fn main() {}"),
        Input::File(_) => panic!("not a file"),
    }
}

#[test]
fn buffer_from_text() {
    let b = buffer_from("héllo\n");
    assert_eq!(b.to_string(), "héllo\n");
    assert_eq!(b.len, "héllo\n".len());
}
