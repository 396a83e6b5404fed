use rustfmt_core::changes::{fmt_lines, system_newlines, ChangeSet, WriteAction, WriteMode};
use rustfmt_core::config::{Config, NewlineStyle};
use rustfmt_core::buffer::buffer_from;
use strings::string_buffer::StringBuffer;

fn buffer(text: &str) -> StringBuffer {
    buffer_from(text)
}

#[test]
fn newline_styles() {
    let b = buffer("a\nb\r\nc");
    assert_eq!(system_newlines(&b, NewlineStyle::Unix), "a\nb\r\nc");
    assert_eq!(system_newlines(&b, NewlineStyle::Windows), "a\r\nb\r\nc");
}

#[test]
fn change_sets_hold_files() {
    let mut cs = ChangeSet::new();
    cs.insert("a.rs".to_string(), buffer("x\ny"));
    cs.insert("b.rs".to_string(), buffer("z"));
    cs.insert("a.rs".to_string(), buffer("w"));
    let text = cs.text();
    assert_eq!(text.len(), 2);
    assert_eq!(text[0].0, "a.rs");
    assert_eq!(text[0].1.to_string(), "w");
    assert_eq!(text[1].0, "b.rs");
    cs.get_mut("b.rs").push_str("!");
    cs.append_newlines();
    let text = cs.text();
    assert_eq!(text[0].1.to_string(), "w\n");
    assert_eq!(text[1].1.to_string(), "z!\n");
}

#[test]
fn writing_files() {
    let mut cs = ChangeSet::new();
    cs.insert("a.rs".to_string(), buffer("x\ny\n"));
    let mut config = Config::default();
    match cs.write_file("a.rs", &WriteMode::Return, &config) {
        WriteAction::Return { text } => assert_eq!(text, "x\ny\n"),
        other => panic!("unexpected {:?}", other),
    }
    config.set_newline_style(NewlineStyle::Windows);
    match cs.write_file("a.rs", &WriteMode::Overwrite, &config) {
        WriteAction::Overwrite { tmp_name, backup_name, text } => {
            assert_eq!(tmp_name, "a.rs.tmp");
            assert_eq!(backup_name, "a.rs.bk");
            assert_eq!(text, "x\r\ny\r\n");
        }
        other => panic!("unexpected {:?}", other),
    }
    match cs.write_file("a.rs", &WriteMode::NewFile("out".to_string()), &config) {
        WriteAction::NewFile { name, .. } => assert_eq!(name, "a.rs.out"),
        other => panic!("unexpected {:?}", other),
    }
    match cs.write_file("a.rs", &WriteMode::Display, &config) {
        WriteAction::Display { text } => assert_eq!(text, "x\r\ny\r\n"),
        other => panic!("unexpected {:?}", other),
    }
}

#[test]
fn writing_all_files() {
    let mut cs = ChangeSet::new();
    cs.insert("a.rs".to_string(), buffer("x\n"));
    cs.insert("b.rs".to_string(), buffer("y\n"));
    let config = Config::default();
    let all = cs.write_all_files(&WriteMode::Return, &config);
    assert_eq!(all.len(), 2);
    assert_eq!(all[0].0, "a.rs");
    match &all[1].1 {
        WriteAction::Return { text } => assert_eq!(text, "y\n"),
        other => panic!("unexpected {:?}", other),
    }
}

#[test]
fn simple_line_checks() {
    let long = "x".repeat(101);
    let mut cs = ChangeSet::new();
    cs.insert("a.rs".to_string(), buffer(&format!("fn main() {{ \n{}\n\n\n", long)));
    cs.insert("b.rs".to_string(), buffer("b\r\n"));
    let messages = fmt_lines(&mut cs);
    assert_eq!(
        messages,
        vec![
            "Rustfmt couldn't fix (sorry). a.rs:2: line longer than 100 characters".to_string(),
            "Rustfmt left trailing whitespace at a.rs:1 (sorry)".to_string(),
            "Rustfmt left trailing whitespace at b.rs:1 (sorry)".to_string(),
        ]
    );
    let text = cs.text();
    assert_eq!(text[0].1.to_string(), format!("fn main() {{ \n{}\n", long));
    assert_eq!(text[1].1.to_string(), "b\r\n");
}

#[test]
fn simple_line_checks_count_width_without_trailing_whitespace() {
    let mut cs = ChangeSet::new();
    cs.insert("c.rs".to_string(), buffer(&format!("{}   \n", "y".repeat(100))));
    let messages = fmt_lines(&mut cs);
    assert_eq!(messages, vec!["Rustfmt left trailing whitespace at c.rs:1 (sorry)".to_string()]);
}

#[test]
fn change_set_as_text() {
    let mut cs = ChangeSet::new();
    cs.insert("a.rs".to_string(), buffer("x"));
    cs.insert("b.rs".to_string(), buffer("y\n"));
    assert_eq!(cs.to_text(), "a.rs:\nx\n\nb.rs:\ny\n\n\n");
}
