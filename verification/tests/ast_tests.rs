use rustfmt_core::ast::{
    contains_skip, count_wildcard_suffix_len, format_abi, format_constness, format_defaultness,
    format_mutability, format_unsafety, format_visibility, is_skip, semicolon_for_expr,
    semicolon_for_stmt, stmt_expr, Abi, Constness, Defaultness, ExprKind, ListItem, MetaItem,
    MetaItemKind, Mutability, NestedMetaItem, StmtKind, Unsafety, Visibility,
};
use rustfmt_core::config::Config;

fn segments(v: &[&str]) -> Vec<String> {
    v.iter().map(|s| s.to_string()).collect()
}

#[test]
fn visibilities() {
    assert_eq!(format_visibility(&Visibility::Public), "pub ");
    assert_eq!(format_visibility(&Visibility::Inherited), "");
    assert_eq!(format_visibility(&Visibility::PubCrate), "pub(crate) ");
    assert_eq!(format_visibility(&Visibility::JustCrate), "crate ");
    let v = Visibility::Restricted { segments: segments(&["a", "b"]), is_global: false };
    assert_eq!(format_visibility(&v), "pub(in a::b) ");
    let v = Visibility::Restricted { segments: segments(&["{{root}}", "c"]), is_global: true };
    assert_eq!(format_visibility(&v), "pub(in c) ");
    let v = Visibility::Restricted { segments: segments(&["super"]), is_global: false };
    assert_eq!(format_visibility(&v), "pub(super) ");
    let v = Visibility::Restricted { segments: segments(&["self"]), is_global: false };
    assert_eq!(format_visibility(&v), "pub(self) ");
}

#[test]
fn qualifiers() {
    assert_eq!(format_constness(Constness::Const), "const ");
    assert_eq!(format_constness(Constness::NotConst), "");
    assert_eq!(format_defaultness(Defaultness::Default), "default ");
    assert_eq!(format_defaultness(Defaultness::Final), "");
    assert_eq!(format_unsafety(Unsafety::Unsafe), "unsafe ");
    assert_eq!(format_unsafety(Unsafety::Normal), "");
    assert_eq!(format_mutability(Mutability::Mutable), "mut ");
    assert_eq!(format_mutability(Mutability::Immutable), "");
}

#[test]
fn calling_conventions() {
    let rust = Abi { name: "Rust".to_string() };
    let c = Abi { name: "C".to_string() };
    let system = Abi { name: "system".to_string() };
    assert_eq!(format_abi(&rust, false, false), "");
    assert_eq!(format_abi(&rust, false, true), "extern \"Rust\" ");
    assert_eq!(format_abi(&c, false, false), "extern ");
    assert_eq!(format_abi(&c, true, false), "extern \"C\" ");
    assert_eq!(format_abi(&system, false, false), "extern \"system\" ");
}

#[test]
fn semicolons() {
    let mut config = Config::default();
    assert!(semicolon_for_expr(&config, ExprKind::Ret));
    assert!(!semicolon_for_expr(&config, ExprKind::Other));
    assert!(semicolon_for_stmt(&config, StmtKind::Semi(ExprKind::Other)));
    assert!(!semicolon_for_stmt(&config, StmtKind::Semi(ExprKind::Loop)));
    assert!(semicolon_for_stmt(&config, StmtKind::Semi(ExprKind::Break)));
    assert!(!semicolon_for_stmt(&config, StmtKind::Expr(ExprKind::Other)));
    assert!(semicolon_for_stmt(&config, StmtKind::Local));
    config.trailing_semicolon = false;
    assert!(!semicolon_for_expr(&config, ExprKind::Break));
    assert!(!semicolon_for_stmt(&config, StmtKind::Semi(ExprKind::Continue)));
    assert_eq!(stmt_expr(StmtKind::Expr(ExprKind::Loop)), Some(ExprKind::Loop));
    assert_eq!(stmt_expr(StmtKind::Item), None);
}

fn word(name: &str) -> MetaItem {
    MetaItem { name: name.to_string(), node: MetaItemKind::Word }
}

#[test]
fn skip_attributes() {
    assert!(is_skip(&word("rustfmt_skip")));
    assert!(!is_skip(&word("inline")));
    let cfg_attr = MetaItem {
        name: "cfg_attr".to_string(),
        node: MetaItemKind::List(vec![
            NestedMetaItem::MetaItem(word("rustfmt")),
            NestedMetaItem::MetaItem(word("rustfmt_skip")),
        ]),
    };
    assert!(is_skip(&cfg_attr));
    let short = MetaItem {
        name: "cfg_attr".to_string(),
        node: MetaItemKind::List(vec![NestedMetaItem::MetaItem(word("rustfmt_skip"))]),
    };
    assert!(!is_skip(&short));
    let literal = MetaItem {
        name: "cfg_attr".to_string(),
        node: MetaItemKind::List(vec![NestedMetaItem::Literal, NestedMetaItem::Literal]),
    };
    assert!(!is_skip(&literal));
    assert!(contains_skip(&[None, Some(word("test")), Some(word("rustfmt_skip"))]));
    assert!(!contains_skip(&[None, Some(word("test"))]));
}

fn item(text: Option<&str>, comment: bool) -> ListItem {
    ListItem {
        item: text.map(|t| t.to_string()),
        pre_comment: None,
        post_comment: if comment { Some("// c".to_string()) } else { None },
    }
}

#[test]
fn wildcard_suffixes() {
    let items = vec![item(Some("a"), false), item(Some("_"), false), item(Some("_"), false)];
    assert_eq!(count_wildcard_suffix_len(&items), 2);
    let items = vec![item(Some("_"), false), item(Some("_"), true), item(Some("_"), false)];
    assert_eq!(count_wildcard_suffix_len(&items), 2);
    let items = vec![item(Some("_"), false), item(None, false)];
    assert_eq!(count_wildcard_suffix_len(&items), 0);
    assert_eq!(count_wildcard_suffix_len(&[]), 0);
}
