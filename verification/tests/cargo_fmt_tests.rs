use rustfmt_core::cargo_fmt::{
    exit_code_of, files_to_format, fmt_args, own_args, plan, rustfmt_args, target_from_json,
    targets_from_json, targets_from_manifest, usage_text, verbose_command, verbosity_of, CargoAction, Target, TargetKind, Verbosity,
};

use rustc_serialize::json::Json;

fn strings(v: &[&str]) -> Vec<String> {
    v.iter().map(|s| s.to_string()).collect()
}

const MANIFEST: &str = r#"{"name":"x","version":"0.1.0","targets":[
  {"kind":["lib"],"name":"x","src_path":"/p/src/lib.rs"},
  {"kind":["bin"],"name":"y","src_path":"/p/src/main.rs"},
  {"kind":["test"],"name":"t","src_path":"/p/tests/t.rs"},
  {"kind":["dylib","rlib"],"name":"z","src_path":"/p/src/z.rs"}]}"#;

#[test]
fn target_kinds() {
    assert_eq!(TargetKind::from_name("bin"), TargetKind::Bin);
    assert_eq!(TargetKind::from_name("lib"), TargetKind::Lib);
    assert_eq!(TargetKind::from_name("dylib"), TargetKind::Lib);
    assert_eq!(TargetKind::from_name("staticlib"), TargetKind::Lib);
    assert_eq!(TargetKind::from_name("test"), TargetKind::Other);
    assert!(TargetKind::Lib.is_lib());
    assert!(!TargetKind::Lib.is_bin());
    assert!(TargetKind::Bin.is_bin());
    assert!(!TargetKind::Other.is_lib());
}

#[test]
fn targets_of_a_manifest() {
    let targets = targets_from_manifest(MANIFEST).unwrap();
    assert_eq!(targets.len(), 4);
    assert_eq!(targets[0].path, "/p/src/lib.rs");
    assert_eq!(targets[0].kind, TargetKind::Lib);
    assert_eq!(targets[2].kind, TargetKind::Other);
    assert_eq!(targets[3].kind, TargetKind::Lib);
    assert_eq!(
        files_to_format(&targets),
        strings(&["/p/src/lib.rs", "/p/src/main.rs", "/p/src/z.rs"])
    );
    assert!(targets_from_manifest("not json").is_none());
    assert!(targets_from_manifest("{\"name\":\"x\"}").is_none());
}

#[test]
fn only_libraries_and_binaries_are_formatted() {
    let targets = vec![
        Target { path: "a.rs".to_string(), kind: TargetKind::Other },
        Target { path: "b.rs".to_string(), kind: TargetKind::Bin },
    ];
    assert_eq!(files_to_format(&targets), strings(&["b.rs"]));
}

#[test]
fn arguments_around_the_separator() {
    let args = strings(&["cargo-fmt", "-v", "--", "--check", "a"]);
    assert_eq!(fmt_args(&args), strings(&["--check", "a"]));
    assert_eq!(own_args(&args), strings(&["-v"]));
    let args = strings(&["cargo-fmt", "-q"]);
    assert!(fmt_args(&args).is_empty());
    assert_eq!(own_args(&args), strings(&["-q"]));
    assert!(own_args(&[]).is_empty());
}

#[test]
fn plans_of_command_lines() {
    match plan(&strings(&["-v"])) {
        CargoAction::Format(v) => assert_eq!(v, Verbosity::Verbose),
        other => panic!("unexpected {:?}", other),
    }
    match plan(&strings(&[])) {
        CargoAction::Format(v) => assert_eq!(v, Verbosity::Normal),
        other => panic!("unexpected {:?}", other),
    }
    match plan(&strings(&["-q", "-v"])) {
        CargoAction::Usage { reason, exit_code } => {
            assert_eq!(reason, "quiet mode and verbose mode are not compatible");
            assert_eq!(exit_code, 1);
        }
        other => panic!("unexpected {:?}", other),
    }
    match plan(&strings(&["--help"])) {
        CargoAction::Usage { reason, exit_code } => {
            assert_eq!(reason, "");
            assert_eq!(exit_code, 0);
        }
        other => panic!("unexpected {:?}", other),
    }
    match plan(&strings(&["--bogus"])) {
        CargoAction::Usage { reason, exit_code } => {
            assert!(reason.contains("bogus"));
            assert_eq!(exit_code, 1);
        }
        other => panic!("unexpected {:?}", other),
    }
}

#[test]
fn usage_lists_the_flags() {
    let u = usage_text("oops");
    assert!(u.starts_with("oops\nusage: cargo fmt [options]"));
    assert!(u.contains("--help"));
    assert!(u.contains("show this message"));
    assert!(u.contains("--verbose"));
    assert!(u.ends_with("Arguments after `--` are passed to rustfmt."));
}

#[test]
fn verbosity_from_flags() {
    assert_eq!(verbosity_of(false, false), Some(Verbosity::Normal));
    assert_eq!(verbosity_of(false, true), Some(Verbosity::Quiet));
    assert_eq!(verbosity_of(true, false), Some(Verbosity::Verbose));
    assert_eq!(verbosity_of(true, true), None);
}

#[test]
fn formatter_command() {
    let files = strings(&["a.rs", "b.rs"]);
    let args = strings(&["--check"]);
    assert_eq!(verbose_command(&files, &args), "rustfmt --check a.rs b.rs");
    assert_eq!(rustfmt_args(&files, &args), strings(&["a.rs", "b.rs", "--check"]));
    assert_eq!(exit_code_of(true, Some(3)), 0);
    assert_eq!(exit_code_of(false, Some(3)), 3);
    assert_eq!(exit_code_of(false, None), 1);
}

#[test]
fn target_of_a_manifest_entry() {
    let entry = Json::from_str(r#"{"kind":["bin","lib"],"src_path":"a/main.rs"}"#).unwrap();
    let t = target_from_json(&entry).unwrap();
    assert_eq!(t.path, "a/main.rs");
    assert_eq!(t.kind, TargetKind::Bin);
    let no_kind = Json::from_str(r#"{"kind":[],"src_path":"a/main.rs"}"#).unwrap();
    assert!(target_from_json(&no_kind).is_none());
    let no_path = Json::from_str(r#"{"kind":["lib"]}"#).unwrap();
    assert!(target_from_json(&no_path).is_none());
    let kind_not_text = Json::from_str(r#"{"kind":[1],"src_path":"x.rs"}"#).unwrap();
    assert!(target_from_json(&kind_not_text).is_none());
    assert!(target_from_json(&Json::from_str("[1]").unwrap()).is_none());
}

#[test]
fn targets_of_a_manifest_value() {
    let json = Json::from_str(MANIFEST).unwrap();
    let targets = targets_from_json(&json).unwrap();
    assert_eq!(targets.len(), 4);
    assert_eq!(targets[1].path, "/p/src/main.rs");
    assert_eq!(targets[1].kind, TargetKind::Bin);
    let bad = Json::from_str(r#"{"targets":[{"kind":["lib"],"src_path":"l.rs"},{"kind":["bin"]}]}"#)
        .unwrap();
    assert!(targets_from_json(&bad).is_none());
    let not_array = Json::from_str(r#"{"targets":{"a":1}}"#).unwrap();
    assert!(targets_from_json(&not_array).is_none());
    let empty = Json::from_str(r#"{"targets":[]}"#).unwrap();
    assert_eq!(targets_from_json(&empty).unwrap().len(), 0);
}
