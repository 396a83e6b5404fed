//! The parts of a syntax tree that the layout helpers read, and the text those
//! helpers write for them.
use vstd::prelude::*;

use vstd::string::StringExecFns;

use crate::config::{str_eq, Config};

verus! {

/// Who can see an item.
#[derive(Debug)]
pub enum Visibility {
    /// `pub`
    Public,
    /// No visibility written.
    Inherited,
    /// `pub(crate)`
    PubCrate,
    /// `crate`
    JustCrate,
    /// `pub(in path)`, with the segments of the path and whether it starts with `::`.
    Restricted { segments: Vec<String>, is_global: bool },
}

/// The segments joined with `::`.
pub open spec fn joined_path(segments: Seq<Seq<char>>) -> Seq<char>
    decreases segments.len(),
{
    if segments.len() == 0 {
        Seq::empty()
    } else if segments.len() == 1 {
        segments[0]
    } else {
        joined_path(segments.drop_last()) + "::"@ + segments.last()
    }
}

/// The text of a visibility before an item. A restricted visibility names its
/// path after `in`, the leading segment of a global path left out, and without
/// `in` when the path is `self` or `super`.
pub open spec fn visibility_text(vis: Visibility) -> Seq<char> {
    match vis {
        Visibility::Public => "pub "@,
        Visibility::Inherited => ""@,
        Visibility::PubCrate => "pub(crate) "@,
        Visibility::JustCrate => "crate "@,
        Visibility::Restricted { segments, is_global } => {
            let segs = segments@.map_values(|s: String| s@);
            let path = joined_path(
                if is_global {
                    segs.drop_first()
                } else {
                    segs
                },
            );
            "pub("@ + (if path == "self"@ || path == "super"@ {
                ""@
            } else {
                "in "@
            }) + path + ") "@
        },
    }
}

/// The text of a visibility before an item (see `visibility_text`). A global
/// restricted path has a leading segment to leave out.
pub fn format_visibility(vis: &Visibility) -> (r: String)
    requires
        *vis matches Visibility::Restricted { segments, is_global } ==> (is_global ==> segments@.len()
            > 0),
    ensures
        r@ == visibility_text(*vis),
{
    match vis {
        Visibility::Public => String::from_str("pub "),
        Visibility::Inherited => String::from_str(""),
        Visibility::PubCrate => String::from_str("pub(crate) "),
        Visibility::JustCrate => String::from_str("crate "),
        Visibility::Restricted { segments, is_global } => {
            let ghost segs = segments@.map_values(|s: String| s@);
            let start: usize = if *is_global {
                1
            } else {
                0
            };
            let ghost used = if *is_global {
                segs.drop_first()
            } else {
                segs
            };
            let mut path = String::new();
            let mut i: usize = start;
            assert(used.take(0) =~= Seq::<Seq<char>>::empty());
            while i < segments.len()
                invariant
                    start <= i <= segments@.len(),
                    segs == segments@.map_values(|s: String| s@),
                    used == segs.skip(start as int),
                    path@ == joined_path(used.take(i - start)),
                decreases segments.len() - i,
            {
                if i > start {
                    path.append("::");
                }
                path.append(segments[i].as_str());
                assert(used.take(i + 1 - start).drop_last() =~= used.take(i - start));
                assert(used[i - start] == segments@[i as int]@);
                i = i + 1;
            }
            assert(used.take(i - start) =~= used);
            proof {
                reveal_strlit("self");
                reveal_strlit("super");
                reveal_strlit("");
            }
            let keyword = str_eq(path.as_str(), "self") || str_eq(path.as_str(), "super");
            let mut r = String::from_str("pub(");
            if !keyword {
                r.append("in ");
            }
            r.append(path.as_str());
            r.append(") ");
            r
        },
    }
}

/// Whether a function is `const`.
#[derive(Clone, Copy, Debug, PartialEq, Eq, Structural)]
pub enum Constness {
    Const,
    NotConst,
}

/// Whether an impl item is `default`.
#[derive(Clone, Copy, Debug, PartialEq, Eq, Structural)]
pub enum Defaultness {
    Default,
    Final,
}

/// Whether an item is `unsafe`.
#[derive(Clone, Copy, Debug, PartialEq, Eq, Structural)]
pub enum Unsafety {
    Unsafe,
    Normal,
}

/// Whether a binding or a reference is `mut`.
#[derive(Clone, Copy, Debug, PartialEq, Eq, Structural)]
pub enum Mutability {
    Mutable,
    Immutable,
}

pub fn format_constness(constness: Constness) -> (r: &'static str)
    ensures
        r@ == (if constness == Constness::Const {
            "const "@
        } else {
            ""@
        }),
{
    match constness {
        Constness::Const => "const ",
        Constness::NotConst => "",
    }
}

pub fn format_defaultness(defaultness: Defaultness) -> (r: &'static str)
    ensures
        r@ == (if defaultness == Defaultness::Default {
            "default "@
        } else {
            ""@
        }),
{
    match defaultness {
        Defaultness::Default => "default ",
        Defaultness::Final => "",
    }
}

pub fn format_unsafety(unsafety: Unsafety) -> (r: &'static str)
    ensures
        r@ == (if unsafety == Unsafety::Unsafe {
            "unsafe "@
        } else {
            ""@
        }),
{
    match unsafety {
        Unsafety::Unsafe => "unsafe ",
        Unsafety::Normal => "",
    }
}

pub fn format_mutability(mutability: Mutability) -> (r: &'static str)
    ensures
        r@ == (if mutability == Mutability::Mutable {
            "mut "@
        } else {
            ""@
        }),
{
    match mutability {
        Mutability::Mutable => "mut ",
        Mutability::Immutable => "",
    }
}

/// The kind of an expression, as far as the semicolon rules read it.
#[derive(Clone, Copy, Debug, PartialEq, Eq, Structural)]
pub enum ExprKind {
    Ret,
    Continue,
    Break,
    While,
    WhileLet,
    Loop,
    ForLoop,
    /// Any other expression.
    Other,
}

/// The kind of a statement, with the kind of its expression where it has one.
#[derive(Clone, Copy, Debug, PartialEq, Eq, Structural)]
pub enum StmtKind {
    Local,
    Item,
    Expr(ExprKind),
    Semi(ExprKind),
    Mac,
}

/// Whether an expression in tail position gets a semicolon: a `return`,
/// `continue` or `break` does where the configuration asks for trailing semicolons.
pub fn semicolon_for_expr(config: &Config, expr: ExprKind) -> (r: bool)
    ensures
        r == ((expr == ExprKind::Ret || expr == ExprKind::Continue || expr == ExprKind::Break)
            && config.trailing_semicolon),
{
    match expr {
        ExprKind::Ret | ExprKind::Continue | ExprKind::Break => config.trailing_semicolon,
        _ => false,
    }
}

/// Whether a statement gets a semicolon: never a loop or an expression
/// statement; a `break`, `continue` or `return` where the configuration asks for
/// trailing semicolons; anything else does.
pub fn semicolon_for_stmt(config: &Config, stmt: StmtKind) -> (r: bool)
    ensures
        r == match stmt {
            StmtKind::Semi(e) => match e {
                ExprKind::While | ExprKind::WhileLet | ExprKind::Loop | ExprKind::ForLoop => false,
                ExprKind::Break | ExprKind::Continue | ExprKind::Ret => config.trailing_semicolon,
                ExprKind::Other => true,
            },
            StmtKind::Expr(_) => false,
            _ => true,
        },
{
    match stmt {
        StmtKind::Semi(e) => match e {
            ExprKind::While | ExprKind::WhileLet | ExprKind::Loop | ExprKind::ForLoop => false,
            ExprKind::Break | ExprKind::Continue | ExprKind::Ret => config.trailing_semicolon,
            ExprKind::Other => true,
        },
        StmtKind::Expr(_) => false,
        _ => true,
    }
}

/// The expression of an expression statement.
pub fn stmt_expr(stmt: StmtKind) -> (r: Option<ExprKind>)
    ensures
        r == match stmt {
            StmtKind::Expr(e) => Some(e),
            _ => None::<ExprKind>,
        },
{
    match stmt {
        StmtKind::Expr(e) => Some(e),
        _ => None,
    }
}


/// A calling convention, by its name (`Rust`, `C`, `system`, ...).
#[derive(Debug)]
pub struct Abi {
    pub name: String,
}

/// The text of a calling convention before an item: none for the Rust one
/// outside a foreign module; `extern` alone for C when it was not written; else
/// `extern` and the quoted name.
pub open spec fn abi_text(abi: Abi, explicit_abi: bool, is_mod: bool) -> Seq<char> {
    if abi.name@ == "Rust"@ && !is_mod {
        ""@
    } else if abi.name@ == "C"@ && !explicit_abi {
        "extern "@
    } else {
        "extern \""@ + abi.name@ + "\" "@
    }
}

/// The text of a calling convention before an item (see `abi_text`).
pub fn format_abi(abi: &Abi, explicit_abi: bool, is_mod: bool) -> (r: String)
    ensures
        r@ == abi_text(*abi, explicit_abi, is_mod),
{
    if str_eq(abi.name.as_str(), "Rust") && !is_mod {
        String::from_str("")
    } else if str_eq(abi.name.as_str(), "C") && !explicit_abi {
        String::from_str("extern ")
    } else {
        let mut r = String::from_str("extern \"");
        r.append(abi.name.as_str());
        r.append("\" ");
        r
    }
}

/// The form of an attribute's meta item.
#[derive(Debug)]
pub enum MetaItemKind {
    /// A bare name, as in `#[rustfmt_skip]`.
    Word,
    /// A name with a list, as in `#[cfg_attr(a, b)]`.
    List(Vec<NestedMetaItem>),
    /// A name with a value, as in `#[doc = "..."]`.
    NameValue,
}

/// The meta item of an attribute: a name and what follows it.
#[derive(Debug)]
pub struct MetaItem {
    pub name: String,
    pub node: MetaItemKind,
}

/// An element of a meta item's list: a meta item or a literal.
#[derive(Debug)]
pub enum NestedMetaItem {
    MetaItem(MetaItem),
    Literal,
}

/// Whether a meta item says not to format: `rustfmt_skip`, or a `cfg_attr` with
/// two elements whose second says so.
pub open spec fn skips(m: MetaItem) -> bool
    decreases m,
{
    match m.node {
        MetaItemKind::Word => m.name@ == "rustfmt_skip"@,
        MetaItemKind::List(l) => m.name@ == "cfg_attr"@ && l@.len() == 2 && match l@[1] {
            NestedMetaItem::MetaItem(mi) => skips(mi),
            NestedMetaItem::Literal => false,
        },
        MetaItemKind::NameValue => false,
    }
}

/// Whether a meta item says not to format (see `skips`).
pub fn is_skip(meta_item: &MetaItem) -> (r: bool)
    ensures
        r == skips(*meta_item),
    decreases meta_item,
{
    match &meta_item.node {
        MetaItemKind::Word => str_eq(meta_item.name.as_str(), "rustfmt_skip"),
        MetaItemKind::List(l) => str_eq(meta_item.name.as_str(), "cfg_attr") && l.len() == 2
            && is_skip_nested(&l[1]),
        MetaItemKind::NameValue => false,
    }
}

/// Whether an element of a list says not to format: a meta item that does.
pub fn is_skip_nested(meta_item: &NestedMetaItem) -> (r: bool)
    ensures
        r == match *meta_item {
            NestedMetaItem::MetaItem(mi) => skips(mi),
            NestedMetaItem::Literal => false,
        },
    decreases meta_item,
{
    match meta_item {
        NestedMetaItem::MetaItem(mi) => is_skip(mi),
        NestedMetaItem::Literal => false,
    }
}

/// Whether an attribute, by its meta item where it has one, says not to format.
pub open spec fn attr_skips(a: Option<MetaItem>) -> bool {
    match a {
        Some(m) => skips(m),
        None => false,
    }
}

/// Whether one of the attributes, by its meta item where it has one, says not
/// to format.
pub fn contains_skip(attrs: &[Option<MetaItem>]) -> (r: bool)
    ensures
        r == exists|i: int| 0 <= i < attrs@.len() && attr_skips(#[trigger] attrs@[i]),
{
    let mut i: usize = 0;
    while i < attrs.len()
        invariant
            i <= attrs@.len(),
            forall|j: int| 0 <= j < i ==> !attr_skips(#[trigger] attrs@[j]),
        decreases attrs.len() - i,
    {
        match &attrs[i] {
            Some(m) => {
                if is_skip(m) {
                    assert(attr_skips(attrs@[i as int]));
                    return true;
                }
            },
            None => {},
        }
        i = i + 1;
    }
    false
}


/// An element of a formatted list: its text, if it could be formatted, and the
/// comments before and after it.
#[derive(Debug)]
pub struct ListItem {
    pub item: Option<String>,
    pub pre_comment: Option<String>,
    pub post_comment: Option<String>,
}

/// Whether a list element is the wildcard `_`.
pub open spec fn is_wildcard(item: ListItem) -> bool {
    item.item matches Some(t) && t@ == "_"@
}

/// The number of wildcards `_` that end the list, counted from its end and
/// stopping after the first one that has a comment.
pub open spec fn wildcard_suffix(items: Seq<ListItem>) -> nat
    decreases items.len(),
{
    if items.len() == 0 {
        0
    } else if is_wildcard(items.last()) {
        if items.last().pre_comment is Some || items.last().post_comment is Some {
            1
        } else {
            1 + wildcard_suffix(items.drop_last())
        }
    } else {
        0
    }
}

/// The number of wildcards `_` that end the list (see `wildcard_suffix`).
pub fn count_wildcard_suffix_len(items: &[ListItem]) -> (r: usize)
    ensures
        r == wildcard_suffix(items@),
{
    let mut suffix_len: usize = 0;
    let mut i: usize = items.len();
    assert(items@.take(items@.len() as int) =~= items@);
    while i > 0
        invariant
            i <= items@.len(),
            suffix_len + i == items@.len(),
            wildcard_suffix(items@) == suffix_len + wildcard_suffix(items@.take(i as int)),
        decreases i,
    {
        let item = &items[i - 1];
        assert(items@.take(i as int).last() == items@[i - 1]);
        assert(items@.take(i as int).drop_last() =~= items@.take(i - 1));
        let wildcard = match &item.item {
            Some(t) => str_eq(t.as_str(), "_"),
            None => false,
        };
        if !wildcard {
            return suffix_len;
        }
        suffix_len = suffix_len + 1;
        if item.pre_comment.is_some() || item.post_comment.is_some() {
            return suffix_len;
        }
        i = i - 1;
    }
    suffix_len
}

} // verus!
