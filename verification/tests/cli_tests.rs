use rustfmt_core::cli::{
    configure_for_stdin, execute, files_exit_code, stdin_exit_code, Action, Emit, InlineConfig,
    OperationError, Opt, OptError, PrintConfig,
};
use rustfmt_core::config::{Config, Edition, EmitMode, FileLines, Verbosity};
use rustfmt_core::formatting::ReportedErrors;

fn opt() -> Opt {
    Opt {
        check: false,
        emit: None,
        config_path: None,
        edition: None,
        print_config: None,
        files_with_diff: false,
        inline_config: None,
        recursive: false,
        quiet: false,
        verbose: false,
        file_lines: FileLines::all(),
        error_on_unformatted: false,
        files: vec!["src/lib.rs".to_string()],
    }
}

#[test]
fn emit_modes() {
    assert_eq!(Emit::from_str("files"), Ok(Emit::Files));
    assert_eq!(Emit::from_str("stdout"), Ok(Emit::Stdout));
    assert_eq!(Emit::from_str("checkstyle"), Ok(Emit::Checkstyle));
    assert_eq!(Emit::from_str("json"), Ok(Emit::Json));
    assert_eq!(Emit::from_str("xml"), Err("unknown --emit mode: xml".to_string()));
    for e in [Emit::Files, Emit::Stdout, Emit::Checkstyle, Emit::Json] {
        assert_eq!(Emit::from_str(e.to_text()), Ok(e));
    }
    assert_eq!(Emit::Json.to_emit_mode(), EmitMode::Json);
    assert_eq!(Emit::Stdout.to_emit_mode(), EmitMode::Stdout);
}

#[test]
fn print_config_choices() {
    assert_eq!(PrintConfig::from_str("default"), Ok(PrintConfig::Default));
    assert_eq!(PrintConfig::from_str("minimal"), Ok(PrintConfig::Minimal));
    assert_eq!(PrintConfig::from_str("current"), Ok(PrintConfig::Current));
    assert_eq!(
        PrintConfig::from_str("all"),
        Err("expected one of [current,default,minimal], found `all`".to_string())
    );
}

#[test]
fn error_messages() {
    assert_eq!(OptError::QuietAndVerbose.to_text(), "--quiet and --verbose cannot be used at once.");
    assert_eq!(OptError::EmitAndCheck.to_text(), "--emit and --check cannot be used at once.");
    assert_eq!(
        OptError::StdinBadEmit(Emit::Files).to_text(),
        "Emit mode files not supported with standard output."
    );
    assert_eq!(
        OperationError::UnknownHelpTopic("x".to_string()).to_text(),
        "Unknown help topic: `x`."
    );
    assert_eq!(
        OperationError::UnknownPrintConfigTopic("y".to_string()).to_text(),
        "Unknown print-config option: `y`."
    );
    assert_eq!(
        OperationError::MinimalPathWithStdin.to_text(),
        "The `--print-config=minimal` option doesn't work with standard input."
    );
    assert_eq!(OperationError::IoError("gone".to_string()).to_text(), "io error: gone");
}

#[test]
fn inline_config_values() {
    let help = InlineConfig::from_str(" help ").unwrap();
    assert!(help.is_help());
    assert!(help.0.is_empty());
    let c = InlineConfig::from_str("max_width=80,hard_tabs=true").unwrap();
    assert!(!c.is_help());
    assert_eq!(
        c.0,
        vec![
            ("max_width".to_string(), "80".to_string()),
            ("hard_tabs".to_string(), "true".to_string())
        ]
    );
    let c = InlineConfig::from_str("max_width=80,max_width=90").unwrap();
    assert_eq!(c.0, vec![("max_width".to_string(), "90".to_string())]);
    assert_eq!(
        InlineConfig::from_str("max_width").unwrap_err(),
        "--config expects comma-separated list of key=val pairs, found `max_width`"
    );
    assert_eq!(
        InlineConfig::from_str("hard_tabs=true,max_width=x").unwrap_err(),
        "invalid key=val pair: `max_width=x`"
    );
    assert_eq!(
        InlineConfig::from_str("a,max_width=x").unwrap_err(),
        "--config expects comma-separated list of key=val pairs, found `a`"
    );
}

#[test]
fn option_conflicts() {
    let mut o = opt();
    assert_eq!(o.verify(), Ok(()));
    o.quiet = true;
    o.verbose = true;
    assert_eq!(o.verify(), Err(OptError::QuietAndVerbose));
    let mut o = opt();
    o.check = true;
    o.emit = Some(Emit::Stdout);
    assert_eq!(o.verify(), Err(OptError::EmitAndCheck));
    let mut o = opt();
    o.files = vec![];
    o.emit = Some(Emit::Files);
    assert_eq!(o.verify(), Err(OptError::StdinBadEmit(Emit::Files)));
    o.emit = Some(Emit::Json);
    assert_eq!(o.verify(), Ok(()));
}

#[test]
fn options_applied_to_config() {
    let mut o = opt();
    o.verbose = true;
    o.check = true;
    o.edition = Some(Edition::Edition2018);
    o.files_with_diff = true;
    o.inline_config = Some(vec![InlineConfig::from_str("max_width=80,tab_spaces=2").unwrap()]);
    let mut config = Config::default();
    o.apply_to(&mut config);
    assert_eq!(config.verbose, Verbosity::Verbose);
    assert_eq!(config.emit_mode, EmitMode::Diff);
    assert_eq!(config.edition, Edition::Edition2018);
    assert!(config.print_misformatted_file_names);
    assert_eq!(config.max_width(), 80);
    assert_eq!(config.tab_spaces(), 2);
    let mut o = opt();
    o.quiet = true;
    o.emit = Some(Emit::Json);
    let mut config = Config::default();
    o.apply_to(&mut config);
    assert_eq!(config.verbose, Verbosity::Quiet);
    assert_eq!(config.emit_mode, EmitMode::Json);
}

#[test]
fn what_a_run_does() {
    let o = opt();
    assert_eq!(execute(&o), Ok(Action::Format));
    let mut o = opt();
    o.print_config = Some(PrintConfig::Default);
    assert_eq!(execute(&o), Ok(Action::PrintDefaultConfig));
    o.print_config = Some(PrintConfig::Minimal);
    assert_eq!(execute(&o), Ok(Action::PrintConfig(PrintConfig::Minimal)));
    o.inline_config = Some(vec![InlineConfig::from_str("help").unwrap()]);
    assert_eq!(execute(&o), Ok(Action::PrintDocs));
    o.quiet = true;
    o.verbose = true;
    assert_eq!(execute(&o), Err(OptError::QuietAndVerbose));
}

#[test]
fn exit_codes() {
    let mut e = ReportedErrors::new();
    assert_eq!(stdin_exit_code(&e), 0);
    assert_eq!(files_exit_code(&e, true), 0);
    e.has_diff = true;
    assert_eq!(stdin_exit_code(&e), 0);
    assert_eq!(files_exit_code(&e, false), 0);
    assert_eq!(files_exit_code(&e, true), 1);
    let mut e = ReportedErrors::new();
    e.has_parsing_errors = true;
    assert_eq!(stdin_exit_code(&e), 1);
    assert_eq!(files_exit_code(&e, false), 1);
}

#[test]
fn standard_input_configuration() {
    let mut o = opt();
    let mut config = Config::default();
    configure_for_stdin(&mut config, &o);
    assert_eq!(config.emit_mode, EmitMode::Stdout);
    assert_eq!(config.verbose, Verbosity::Quiet);
    o.check = true;
    configure_for_stdin(&mut config, &o);
    assert_eq!(config.emit_mode, EmitMode::Diff);
    o.check = false;
    o.emit = Some(Emit::Checkstyle);
    configure_for_stdin(&mut config, &o);
    assert_eq!(config.emit_mode, EmitMode::Checkstyle);
    assert_eq!(o.config_path(), None);
}
