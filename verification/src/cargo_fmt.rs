//! The `cargo fmt` command: which files of a crate it formats, and how it reads
//! its own command line.
use vstd::prelude::*;

use vstd::string::StringExecFns;

use getopts::Options;
use rustc_serialize::json::Json;

use crate::config::str_eq;

verus! {

/// How much `cargo fmt` prints.
#[derive(Clone, Copy, Debug, PartialEq, Eq, Structural)]
pub enum Verbosity {
    Verbose,
    Normal,
    Quiet,
}

/// The kind of a compile target of a crate.
#[derive(Clone, Copy, Debug, PartialEq, Eq, Structural)]
pub enum TargetKind {
    /// dylib, staticlib, lib
    Lib,
    /// bin
    Bin,
    /// test, plugin,...
    Other,
}

/// The kind named `kind` in a crate's manifest.
pub open spec fn kind_of_name(kind: Seq<char>) -> TargetKind {
    if kind == "bin"@ {
        TargetKind::Bin
    } else if kind == "lib"@ || kind == "dylib"@ || kind == "staticlib"@ {
        TargetKind::Lib
    } else {
        TargetKind::Other
    }
}

impl TargetKind {
    pub fn is_lib(&self) -> (r: bool)
        ensures
            r == (*self == TargetKind::Lib),
    {
        match self {
            TargetKind::Lib => true,
            _ => false,
        }
    }

    pub fn is_bin(&self) -> (r: bool)
        ensures
            r == (*self == TargetKind::Bin),
    {
        match self {
            TargetKind::Bin => true,
            _ => false,
        }
    }

    /// The kind named `kind` in a crate's manifest.
    pub fn from_name(kind: &str) -> (r: TargetKind)
        ensures
            r == kind_of_name(kind@),
    {
        if str_eq(kind, "bin") {
            TargetKind::Bin
        } else if str_eq(kind, "lib") || str_eq(kind, "dylib") || str_eq(kind, "staticlib") {
            TargetKind::Lib
        } else {
            TargetKind::Other
        }
    }
}

/// A compile target of a crate: its main source file and its kind.
#[derive(Debug)]
pub struct Target {
    pub path: String,
    pub kind: TargetKind,
}

#[verifier::external_type_specification]
#[verifier::external_body]
pub struct ExJson(Json);

/// A JSON value as the manifest logic reads it: numbers are told apart from
/// the rest but not read; an object's members are in the order the value
/// holds them.
pub enum JsonTree {
    Null,
    Bool(bool),
    Number,
    String(Seq<char>),
    Array(Seq<JsonTree>),
    Object(Seq<(Seq<char>, JsonTree)>),
}

/// The value a `rustc_serialize::json::Json` holds, as a tree; the members of
/// an object in the order of its map, that is by key.
pub uninterp spec fn json_tree(j: Json) -> JsonTree;

/// The value `Json::from_str` reads from the text `data`, or `None` where the
/// text is not JSON.
pub uninterp spec fn json_parsed(data: Seq<char>) -> Option<JsonTree>;

/// `rustc_serialize::json::Json::from_str`: the value of the JSON text `data`,
/// named `json_parsed`, or `None` where it is not JSON.
#[verifier::external_body]
fn json_from_str(data: &str) -> (r: Option<Json>)
    ensures
        match r {
            Some(j) => json_parsed(data@) == Some(json_tree(j)),
            None => json_parsed(data@) is None,
        },
{
    Json::from_str(data).ok()
}

/// One level of a JSON value: its kind, and the parts it is made of.
pub enum JsonNode<'a> {
    Null,
    Bool(bool),
    Number,
    String(&'a str),
    Array(Vec<&'a Json>),
    Object(Vec<(&'a str, &'a Json)>),
}

/// Whether `n` is the top level of the tree `t`.
pub open spec fn node_of(n: JsonNode, t: JsonTree) -> bool {
    match t {
        JsonTree::Null => n is Null,
        JsonTree::Bool(b) => n matches JsonNode::Bool(c) && c == b,
        JsonTree::Number => n is Number,
        JsonTree::String(s) => n matches JsonNode::String(x) && x@ == s,
        JsonTree::Array(items) => n matches JsonNode::Array(v) && v@.len() == items.len()
            && forall|i: int| 0 <= i < items.len() ==> json_tree(*#[trigger] v@[i]) == items[i],
        JsonTree::Object(es) => n matches JsonNode::Object(v) && v@.len() == es.len() && forall|
            i: int,
        |
            0 <= i < es.len() ==> (#[trigger] v@[i]).0@ == es[i].0 && json_tree(*v@[i].1)
                == es[i].1,
    }
}

/// The top level of a `Json`, read by matching on its variants: the three
/// kinds of number are one, an array's elements and an object's members
/// (`BTreeMap::iter`, by key) are borrowed in order.
#[verifier::external_body]
fn json_node<'a>(j: &'a Json) -> (r: JsonNode<'a>)
    ensures
        node_of(r, json_tree(*j)),
{
    match j {
        Json::Null => JsonNode::Null,
        Json::Boolean(b) => JsonNode::Bool(*b),
        Json::I64(_) | Json::U64(_) | Json::F64(_) => JsonNode::Number,
        Json::String(s) => JsonNode::String(s.as_str()),
        Json::Array(a) => JsonNode::Array(a.iter().collect()),
        Json::Object(o) => JsonNode::Object(o.iter().map(|(k, v)| (k.as_str(), v)).collect()),
    }
}

/// The value of the first member named `key`.
pub open spec fn member(es: Seq<(Seq<char>, JsonTree)>, key: Seq<char>) -> Option<JsonTree>
    decreases es.len(),
{
    if es.len() == 0 {
        None
    } else if es[0].0 == key {
        Some(es[0].1)
    } else {
        member(es.drop_first(), key)
    }
}

/// The source path and the first kind of a target entry of a manifest: an
/// object whose `src_path` is a string and whose `kind` is an array that
/// starts with a string.
pub open spec fn target_fields(t: JsonTree) -> Option<(Seq<char>, Seq<char>)> {
    match t {
        JsonTree::Object(es) => match member(es, "src_path"@) {
            Some(JsonTree::String(p)) => match member(es, "kind"@) {
                Some(JsonTree::Array(ks)) => if ks.len() > 0 {
                    match ks[0] {
                        JsonTree::String(k) => Some((p, k)),
                        _ => None,
                    }
                } else {
                    None
                },
                _ => None,
            },
            _ => None,
        },
        _ => None,
    }
}

/// The fields of each target entry, or `None` where one of them lacks them.
pub open spec fn all_target_fields(ts: Seq<JsonTree>) -> Option<Seq<(Seq<char>, Seq<char>)>>
    decreases ts.len(),
{
    if ts.len() == 0 {
        Some(Seq::empty())
    } else {
        match (all_target_fields(ts.drop_last()), target_fields(ts.last())) {
            (Some(fs), Some(f)) => Some(fs.push(f)),
            _ => None,
        }
    }
}

/// The fields of the targets of a manifest: the entries of the array under
/// `targets` of the top-level object.
pub open spec fn manifest_fields(t: JsonTree) -> Option<Seq<(Seq<char>, Seq<char>)>> {
    match t {
        JsonTree::Object(es) => match member(es, "targets"@) {
            Some(JsonTree::Array(ts)) => all_target_fields(ts),
            _ => None,
        },
        _ => None,
    }
}

/// The fields of the targets listed in the manifest text `data`, or `None`
/// where it is not JSON or lists none in the expected form.
pub open spec fn manifest_target_fields(data: Seq<char>) -> Option<Seq<(Seq<char>, Seq<char>)>> {
    match json_parsed(data) {
        Some(t) => manifest_fields(t),
        None => None,
    }
}

/// The value of the first member of `es` named `key`.
fn find_member<'a>(es: &Vec<(&'a str, &'a Json)>, key: &str) -> (r: Option<&'a Json>)
    ensures
        match member(
            es@.map_values(|e: (&'a str, &'a Json)| (e.0@, json_tree(*e.1))),
            key@,
        ) {
            Some(t) => r matches Some(j) && json_tree(*j) == t,
            None => r is None,
        },
{
    let ghost ev = es@.map_values(|e: (&'a str, &'a Json)| (e.0@, json_tree(*e.1)));
    assert(ev.subrange(0, ev.len() as int) =~= ev);
    let mut i: usize = 0;
    while i < es.len()
        invariant
            i <= es@.len(),
            ev == es@.map_values(|e: (&'a str, &'a Json)| (e.0@, json_tree(*e.1))),
            member(ev, key@) == member(ev.subrange(i as int, ev.len() as int), key@),
        decreases es.len() - i,
    {
        let ghost rest = ev.subrange(i as int, ev.len() as int);
        assert(rest.drop_first() =~= ev.subrange(i + 1, ev.len() as int));
        if str_eq(es[i].0, key) {
            return Some(es[i].1);
        }
        i = i + 1;
    }
    None
}

/// The target that the entry `jtarget` of a manifest describes: its source
/// path and the kind its first kind names, or `None` where the entry lacks
/// them.
pub fn target_from_json(jtarget: &Json) -> (r: Option<Target>)
    ensures
        match target_fields(json_tree(*jtarget)) {
            Some(f) => r matches Some(t) && t.path@ == f.0 && t.kind == kind_of_name(f.1),
            None => r is None,
        },
{
    let es = match json_node(jtarget) {
        JsonNode::Object(es) => es,
        _ => {
            return None;
        },
    };
    proof {
        let eso = json_tree(*jtarget)->Object_0;
        assert(es@.map_values(|e: (&str, &Json)| (e.0@, json_tree(*e.1))) =~= eso);
    }
    let path = match find_member(&es, "src_path") {
        Some(j) => match json_node(j) {
            JsonNode::String(p) => p,
            _ => {
                return None;
            },
        },
        None => {
            return None;
        },
    };
    let kinds = match find_member(&es, "kind") {
        Some(j) => match json_node(j) {
            JsonNode::Array(ks) => ks,
            _ => {
                return None;
            },
        },
        None => {
            return None;
        },
    };
    if kinds.len() == 0 {
        return None;
    }
    let kind = match json_node(kinds[0]) {
        JsonNode::String(k) => TargetKind::from_name(k),
        _ => {
            return None;
        },
    };
    Some(Target { path: String::from_str(path), kind })
}

/// The targets of a manifest value: those of the entries of its `targets`
/// array, or `None` where it has no such array or an entry lacks its fields.
pub fn targets_from_json(json: &Json) -> (r: Option<Vec<Target>>)
    ensures
        match manifest_fields(json_tree(*json)) {
            Some(fs) => r matches Some(ts) && ts@.len() == fs.len() && forall|i: int|
                0 <= i < fs.len() ==> (#[trigger] ts@[i]).path@ == fs[i].0 && ts@[i].kind
                    == kind_of_name(fs[i].1),
            None => r is None,
        },
{
    let es = match json_node(json) {
        JsonNode::Object(es) => es,
        _ => {
            return None;
        },
    };
    let ghost eso = json_tree(*json)->Object_0;
    assert(es@.map_values(|e: (&str, &Json)| (e.0@, json_tree(*e.1))) =~= eso);
    let jtargets = match find_member(&es, "targets") {
        Some(j) => match json_node(j) {
            JsonNode::Array(ts) => ts,
            _ => {
                return None;
            },
        },
        None => {
            return None;
        },
    };
    let ghost tv = jtargets@.map_values(|j: &Json| json_tree(*j));
    proof {
        let items = member(eso, "targets"@)->Some_0->Array_0;
        assert(tv =~= items);
        assert(tv.take(0) =~= Seq::<JsonTree>::empty());
    }
    let mut targets: Vec<Target> = Vec::new();
    let mut i: usize = 0;
    while i < jtargets.len()
        invariant
            i <= jtargets@.len(),
            tv == jtargets@.map_values(|j: &Json| json_tree(*j)),
            manifest_fields(json_tree(*json)) == all_target_fields(tv),
            targets@.len() == i,
            targets_fit(targets@, all_target_fields(tv.take(i as int))),
        decreases jtargets.len() - i,
    {
        assert(tv.take(i + 1).drop_last() =~= tv.take(i as int));
        assert(tv.take(i + 1).last() == tv[i as int]);
        let ghost fs_old = all_target_fields(tv.take(i as int))->Some_0;
        let ghost before = targets@;
        assert(tv[i as int] == json_tree(*jtargets@[i as int]));
        match target_from_json(jtargets[i]) {
            Some(t) => {
                let ghost tg = t;
                targets.push(t);
                proof {
                    assert(targets@ == before.push(tg));
                    let f = target_fields(tv[i as int])->Some_0;
                    assert(all_target_fields(tv.take(i + 1)) == Some(fs_old.push(f)));
                    assert forall|k: int| 0 <= k < i + 1 implies (#[trigger] targets@[k]).path@
                        == fs_old.push(f)[k].0 && targets@[k].kind == kind_of_name(
                        fs_old.push(f)[k].1,
                    ) by {
                        if k < i {
                            assert(before.push(tg)[k] == before[k]);
                        }
                    }
                }
            },
            None => {
                proof {
                    lemma_all_target_fields_none(tv, i as int);
                }
                return None;
            },
        }
        i = i + 1;
    }
    assert(tv.take(i as int) =~= tv);
    Some(targets)
}

/// Whether the targets `ts` are those of the fields `fs`, one for one.
pub open spec fn targets_fit(ts: Seq<Target>, fs: Option<Seq<(Seq<char>, Seq<char>)>>) -> bool {
    match fs {
        Some(fs) => ts.len() == fs.len() && forall|k: int|
            0 <= k < fs.len() ==> (#[trigger] ts[k]).path@ == fs[k].0 && ts[k].kind
                == kind_of_name(fs[k].1),
        None => false,
    }
}

/// Where one entry lacks its fields, the entries together have none.
proof fn lemma_all_target_fields_none(ts: Seq<JsonTree>, i: int)
    requires
        0 <= i < ts.len(),
        target_fields(ts[i]) is None,
    ensures
        all_target_fields(ts) is None,
    decreases ts.len(),
{
    if i < ts.len() - 1 {
        assert(ts.drop_last()[i] == ts[i]);
        lemma_all_target_fields_none(ts.drop_last(), i);
    }
}

/// The targets listed in the manifest text `data`, or `None` where it is not
/// JSON or lists none in the expected form.
pub fn targets_from_manifest(data: &str) -> (r: Option<Vec<Target>>)
    ensures
        match manifest_target_fields(data@) {
            Some(fs) => r matches Some(ts) && ts@.len() == fs.len() && forall|i: int|
                0 <= i < fs.len() ==> (#[trigger] ts@[i]).path@ == fs[i].0 && ts@[i].kind
                    == kind_of_name(fs[i].1),
            None => r is None,
        },
{
    match json_from_str(data) {
        Some(json) => targets_from_json(&json),
        None => None,
    }
}
/// The paths of the targets that are formatted: the libraries and the binaries,
/// in order.
pub open spec fn formatted_paths(ts: Seq<(Seq<char>, TargetKind)>) -> Seq<Seq<char>>
    decreases ts.len(),
{
    if ts.len() == 0 {
        Seq::empty()
    } else {
        let rest = formatted_paths(ts.drop_last());
        if ts.last().1 == TargetKind::Lib || ts.last().1 == TargetKind::Bin {
            rest.push(ts.last().0)
        } else {
            rest
        }
    }
}

/// The view of a list of targets.
pub open spec fn target_views(ts: Seq<Target>) -> Seq<(Seq<char>, TargetKind)> {
    ts.map_values(|t: Target| (t.path@, t.kind))
}

/// The view of a list of texts.
pub open spec fn string_views(v: Seq<String>) -> Seq<Seq<char>> {
    v.map_values(|s: String| s@)
}

/// The source files of the library and binary targets, in order.
pub fn files_to_format(targets: &Vec<Target>) -> (r: Vec<String>)
    ensures
        string_views(r@) == formatted_paths(target_views(targets@)),
{
    let ghost tv = target_views(targets@);
    let mut files: Vec<String> = Vec::new();
    let mut i: usize = 0;
    assert(tv.take(0) =~= Seq::<(Seq<char>, TargetKind)>::empty());
    assert(string_views(files@) =~= Seq::<Seq<char>>::empty());
    while i < targets.len()
        invariant
            i <= targets@.len(),
            tv == target_views(targets@),
            string_views(files@) == formatted_paths(tv.take(i as int)),
        decreases targets.len() - i,
    {
        assert(tv.take(i + 1).drop_last() =~= tv.take(i as int));
        let ghost before = files@;
        if targets[i].kind.is_lib() || targets[i].kind.is_bin() {
            files.push(String::from_str(targets[i].path.as_str()));
            assert(string_views(files@) =~= string_views(before).push(targets@[i as int].path@));
        }
        i = i + 1;
    }
    assert(tv.take(i as int) =~= tv);
    files
}

/// The position of the first `--` in `args`, or `args.len()`.
pub open spec fn separator_index(args: Seq<Seq<char>>) -> int
    decreases args.len(),
{
    if args.len() == 0 {
        0
    } else if args[0] == "--"@ {
        0
    } else {
        1 + separator_index(args.drop_first())
    }
}

/// The position of the first `--` in `args`, or `args.len()`.
fn find_separator(args: &[String]) -> (r: usize)
    ensures
        r == separator_index(string_views(args@)),
        r <= args@.len(),
{
    let ghost av = string_views(args@);
    let mut i: usize = 0;
    while i < args.len() && !str_eq(args[i].as_str(), "--")
        invariant
            i <= args@.len(),
            av == string_views(args@),
            forall|j: int| 0 <= j < i ==> av[j] != "--"@,
        decreases args.len() - i,
    {
        assert(av[i as int] == args@[i as int]@);
        i = i + 1;
    }
    proof {
        if i < args@.len() {
            assert(av[i as int] == args@[i as int]@);
        }
        lemma_separator_index(av, i as int);
    }
    i
}

/// `k` is the position of the first `--`, or the length when there is none.
proof fn lemma_separator_index(args: Seq<Seq<char>>, k: int)
    requires
        0 <= k <= args.len(),
        forall|j: int| 0 <= j < k ==> args[j] != "--"@,
        k < args.len() ==> args[k] == "--"@,
    ensures
        separator_index(args) == k,
    decreases args.len(),
{
    if args.len() > 0 && k > 0 {
        assert forall|j: int| 0 <= j < k - 1 implies args.drop_first()[j] != "--"@ by {
            assert(args.drop_first()[j] == args[j + 1]);
        }
        lemma_separator_index(args.drop_first(), k - 1);
    }
}

/// The arguments that `cargo fmt` hands to the formatter: all those after the
/// first `--`.
pub fn fmt_args(args: &[String]) -> (r: Vec<String>)
    ensures
        string_views(r@) == ({
            let av = string_views(args@);
            let k = separator_index(av);
            if k < av.len() {
                av.skip(k + 1)
            } else {
                Seq::empty()
            }
        }),
{
    let k = find_separator(args);
    let ghost av = string_views(args@);
    let mut r: Vec<String> = Vec::new();
    if k == args.len() {
        assert(string_views(r@) =~= Seq::<Seq<char>>::empty());
        return r;
    }
    let mut i: usize = k + 1;
    assert(string_views(r@) =~= av.subrange(k + 1, k + 1));
    while i < args.len()
        invariant
            k < i <= args@.len(),
            av == string_views(args@),
            string_views(r@) == av.subrange(k + 1, i as int),
        decreases args.len() - i,
    {
        let ghost before = r@;
        r.push(String::from_str(args[i].as_str()));
        assert(string_views(r@) =~= string_views(before).push(av[i as int]));
        assert(string_views(r@) =~= av.subrange(k + 1, i + 1));
        i = i + 1;
    }
    assert(av.subrange(k + 1, i as int) =~= av.skip(k + 1));
    r
}

/// The arguments that `cargo fmt` reads itself: those after the program's name
/// and before the first `--`.
pub fn own_args(args: &[String]) -> (r: Vec<String>)
    ensures
        string_views(r@) == ({
            let av = string_views(args@);
            if av.len() == 0 {
                Seq::empty()
            } else {
                let rest = av.drop_first();
                rest.take(separator_index(rest))
            }
        }),
{
    let ghost av = string_views(args@);
    let mut r: Vec<String> = Vec::new();
    if args.len() == 0 {
        assert(string_views(r@) =~= Seq::<Seq<char>>::empty());
        return r;
    }
    let ghost rest = av.drop_first();
    let mut i: usize = 1;
    assert(string_views(r@) =~= rest.take(0));
    while i < args.len() && !str_eq(args[i].as_str(), "--")
        invariant
            1 <= i <= args@.len(),
            av == string_views(args@),
            rest == av.drop_first(),
            forall|j: int| 0 <= j < i - 1 ==> rest[j] != "--"@,
            string_views(r@) == rest.take(i - 1),
        decreases args.len() - i,
    {
        assert(rest[i - 1] == args@[i as int]@);
        let ghost before = r@;
        r.push(String::from_str(args[i].as_str()));
        assert(string_views(r@) =~= string_views(before).push(rest[i - 1]));
        assert(string_views(r@) =~= rest.take(i as int));
        i = i + 1;
    }
    proof {
        if i < args@.len() {
            assert(rest[i - 1] == args@[i as int]@);
        }
        lemma_separator_index(rest, i - 1);
    }
    r
}

/// How much to print, from the verbose and quiet flags; `None` when both are given.
pub fn verbosity_of(verbose: bool, quiet: bool) -> (r: Option<Verbosity>)
    ensures
        r == (match (verbose, quiet) {
            (false, false) => Some(Verbosity::Normal),
            (false, true) => Some(Verbosity::Quiet),
            (true, false) => Some(Verbosity::Verbose),
            (true, true) => None::<Verbosity>,
        }),
{
    match (verbose, quiet) {
        (false, false) => Some(Verbosity::Normal),
        (false, true) => Some(Verbosity::Quiet),
        (true, false) => Some(Verbosity::Verbose),
        (true, true) => None,
    }
}

/// The exit code after the formatter ran: 0 when it succeeded, else its own
/// code, or 1 when it has none.
pub fn exit_code_of(success: bool, code: Option<i32>) -> (r: i32)
    ensures
        r == (if success {
            0
        } else {
            match code {
                Some(c) => c,
                None => 1,
            }
        }),
{
    if success {
        0
    } else {
        match code {
            Some(c) => c,
            None => 1,
        }
    }
}


#[verifier::external_type_specification]
#[verifier::external_body]
pub struct ExOptions(Options);

/// The flags registered in a `getopts::Options`: short name, long name and
/// description of each, in order.
pub uninterp spec fn option_flags(o: Options) -> Seq<(Seq<char>, Seq<char>, Seq<char>)>;

/// Whether each of the flags named `names` is present on the command line
/// `args`, as `getopts::Options::parse` with the flags `flags` registered, then
/// `Matches::opt_present`, find it; or the text of the failure to parse.
pub uninterp spec fn flags_present(
    flags: Seq<(Seq<char>, Seq<char>, Seq<char>)>,
    args: Seq<Seq<char>>,
    names: Seq<Seq<char>>,
) -> Result<Seq<bool>, Seq<char>>;

/// The text `getopts::Options::usage` writes for the flags `flags` after the
/// line `brief`.
pub uninterp spec fn usage_of(flags: Seq<(Seq<char>, Seq<char>, Seq<char>)>, brief: Seq<char>) -> Seq<
    char,
>;

/// `getopts::Options::new`: no flag registered.
#[verifier::external_body]
fn options_new() -> (r: Options)
    ensures
        option_flags(r) == Seq::<(Seq<char>, Seq<char>, Seq<char>)>::empty(),
{
    Options::new()
}

/// `getopts::Options::optflag`: registers a flag, after those registered before.
/// It panics unless the short name is one byte or empty and the long name is
/// not one byte long.
#[verifier::external_body]
fn options_flag(o: &mut Options, short_name: &str, long_name: &str, desc: &str)
    requires
        short_name@.len() == 1 && (short_name@[0] as u32) < 0x80,
        long_name@.len() > 1,
    ensures
        option_flags(*final(o)) == option_flags(*old(o)).push((short_name@, long_name@, desc@)),
{
    o.optflag(short_name, long_name, desc);
}

/// `getopts::Options::parse` on `args`, then `Matches::opt_present` for each of
/// `names`, or the failure's text. What it returns is named `flags_present`; of
/// a success, one answer per name. `opt_present` panics on a name that is not
/// registered, so each name must be the short name of a registered flag.
#[verifier::external_body]
fn options_parse(o: &Options, args: &[String], names: &[&str]) -> (r: Result<Vec<bool>, String>)
    requires
        forall|i: int|
            0 <= i < names@.len() ==> exists|j: int|
                0 <= j < option_flags(*o).len() && (#[trigger] option_flags(*o)[j]).0 == (
                #[trigger] names@[i])@,
    ensures
        match flags_present(option_flags(*o), string_views(args@), names@.map_values(|n: &str| n@)) {
            Ok(v) => r matches Ok(p) && p@ == v,
            Err(m) => r matches Err(e) && e@ == m,
        },
        r matches Ok(p) ==> p@.len() == names@.len(),
{
    match o.parse(args) {
        Ok(m) => Ok(names.iter().map(|n| m.opt_present(n)).collect()),
        Err(e) => Err(e.to_string()),
    }
}

/// `getopts::Options::usage`: the usage text of the registered flags after the
/// line `brief`, named `usage_of`.
#[verifier::external_body]
fn options_usage(o: &Options, brief: &str) -> (r: String)
    ensures
        r@ == usage_of(option_flags(*o), brief@),
{
    o.usage(brief)
}

/// The flags of `cargo fmt`.
pub open spec fn cargo_flags() -> Seq<(Seq<char>, Seq<char>, Seq<char>)> {
    seq![
        ("h"@, "help"@, "show this message"@),
        ("q"@, "quiet"@, "no output printed to stdout"@),
        ("v"@, "verbose"@, "use verbose output"@),
    ]
}

/// The options of `cargo fmt`: help, quiet and verbose.
pub fn cargo_options() -> (r: Options)
    ensures
        option_flags(r) == cargo_flags(),
{
    let mut opts = options_new();
    proof {
        reveal_strlit("h");
        reveal_strlit("help");
        reveal_strlit("q");
        reveal_strlit("quiet");
        reveal_strlit("v");
        reveal_strlit("verbose");
    }
    options_flag(&mut opts, "h", "help", "show this message");
    options_flag(&mut opts, "q", "quiet", "no output printed to stdout");
    options_flag(&mut opts, "v", "verbose", "use verbose output");
    opts
}

/// The text that explains `cargo fmt`: `reason`, then the usage of its flags,
/// then what it does.
pub open spec fn usage_message(reason: Seq<char>) -> Seq<char> {
    usage_of(cargo_flags(), reason + "\nusage: cargo fmt [options]"@)
        + "\nThis utility formats all bin and lib files of the current crate using rustfmt. Arguments after `--` are passed to rustfmt."@
}

/// The text that explains `cargo fmt`, after `reason`.
pub fn usage_text(reason: &str) -> (r: String)
    ensures
        r@ == usage_message(reason@),
{
    let opts = cargo_options();
    let mut brief = String::from_str(reason);
    brief.append("\nusage: cargo fmt [options]");
    let mut r = options_usage(&opts, brief.as_str());
    r.append(
        "\nThis utility formats all bin and lib files of the current crate using rustfmt. Arguments after `--` are passed to rustfmt.",
    );
    r
}

/// What `cargo fmt` does with its command line.
#[derive(Debug)]
pub enum CargoAction {
    /// Print the usage after `reason`, and exit with `exit_code`.
    Usage { reason: String, exit_code: i32 },
    /// Format the crate's files, printing as much as the verbosity says.
    Format(Verbosity),
}

/// The short names of the flags of `cargo fmt`, in the order of `cargo_flags`.
pub open spec fn cargo_flag_names() -> Seq<Seq<char>> {
    seq!["h"@, "q"@, "v"@]
}

/// What `cargo fmt` does with its own arguments `args`: with flags it does not
/// know, or with both quiet and verbose, it shows the usage after the reason and
/// fails; with help, it shows the usage and succeeds; else it formats.
pub open spec fn cargo_plan(args: Seq<Seq<char>>) -> (Seq<char>, i32, Option<Verbosity>) {
    match flags_present(cargo_flags(), args, cargo_flag_names()) {
        Err(m) => (m, 1, None),
        Ok(p) => if p[2] && p[1] {
            ("quiet mode and verbose mode are not compatible"@, 1, None)
        } else if p[0] {
            (""@, 0, None)
        } else {
            (
                ""@,
                0,
                Some(
                    if p[2] {
                        Verbosity::Verbose
                    } else if p[1] {
                        Verbosity::Quiet
                    } else {
                        Verbosity::Normal
                    },
                ),
            )
        },
    }
}

/// What `cargo fmt` does with its own arguments `args` (see `own_args`).
pub fn plan(args: &[String]) -> (r: CargoAction)
    ensures
        match r {
            CargoAction::Usage { reason, exit_code } => cargo_plan(string_views(args@)).2 is None
                && reason@ == cargo_plan(string_views(args@)).0 && exit_code == cargo_plan(
                string_views(args@),
            ).1,
            CargoAction::Format(v) => cargo_plan(string_views(args@)).2 == Some(v),
        },
{
    let opts = cargo_options();
    let names: [&str; 3] = ["h", "q", "v"];
    proof {
        reveal_strlit("h");
        reveal_strlit("q");
        reveal_strlit("v");
        reveal_strlit("");
        assert(option_flags(opts)[0].0 == names@[0]@);
        assert(option_flags(opts)[1].0 == names@[1]@);
        assert(option_flags(opts)[2].0 == names@[2]@);
        assert(names@.map_values(|n: &str| n@) =~= cargo_flag_names());
    }
    match options_parse(&opts, args, &names) {
        Err(e) => CargoAction::Usage { reason: e, exit_code: 1 },
        Ok(present) => {
            let help = present[0];
            let quiet = present[1];
            let verbose = present[2];
            match verbosity_of(verbose, quiet) {
                None => CargoAction::Usage {
                    reason: String::from_str("quiet mode and verbose mode are not compatible"),
                    exit_code: 1,
                },
                Some(v) => {
                    if help {
                        CargoAction::Usage { reason: String::new(), exit_code: 0 }
                    } else {
                        CargoAction::Format(v)
                    }
                },
            }
        },
    }
}


/// The words `ws`, each after a space.
pub open spec fn spaced(ws: Seq<Seq<char>>) -> Seq<char>
    decreases ws.len(),
{
    if ws.len() == 0 {
        Seq::empty()
    } else {
        spaced(ws.drop_last()) + " "@ + ws.last()
    }
}

/// Appends each of `ws` to `r`, after a space.
fn append_spaced(r: &mut String, ws: &Vec<String>)
    ensures
        final(r)@ == old(r)@ + spaced(string_views(ws@)),
{
    let ghost start = r@;
    let ghost wv = string_views(ws@);
    let mut i: usize = 0;
    assert(wv.take(0) =~= Seq::<Seq<char>>::empty());
    assert(r@ =~= start + spaced(wv.take(0)));
    while i < ws.len()
        invariant
            i <= ws@.len(),
            wv == string_views(ws@),
            r@ == start + spaced(wv.take(i as int)),
        decreases ws.len() - i,
    {
        r.append(" ");
        r.append(ws[i].as_str());
        assert(wv.take(i + 1).drop_last() =~= wv.take(i as int));
        assert(r@ =~= start + spaced(wv.take(i + 1)));
        i = i + 1;
    }
    assert(wv.take(i as int) =~= wv);
}

/// The command line that `cargo fmt` shows in verbose mode: `rustfmt`, the
/// arguments handed on, then the files.
pub fn verbose_command(files: &Vec<String>, fmt_args: &Vec<String>) -> (r: String)
    ensures
        r@ == "rustfmt"@ + spaced(string_views(fmt_args@)) + spaced(string_views(files@)),
{
    let mut r = String::from_str("rustfmt");
    append_spaced(&mut r, fmt_args);
    append_spaced(&mut r, files);
    r
}

/// The arguments of the formatter's command: the files, then the arguments
/// handed on.
pub fn rustfmt_args(files: &Vec<String>, fmt_args: &Vec<String>) -> (r: Vec<String>)
    ensures
        string_views(r@) == string_views(files@) + string_views(fmt_args@),
{
    let mut r: Vec<String> = Vec::new();
    let mut i: usize = 0;
    let ghost fv = string_views(files@);
    let ghost av = string_views(fmt_args@);
    assert(string_views(r@) =~= fv.take(0));
    while i < files.len()
        invariant
            i <= files@.len(),
            fv == string_views(files@),
            string_views(r@) == fv.take(i as int),
        decreases files.len() - i,
    {
        let ghost before = r@;
        r.push(String::from_str(files[i].as_str()));
        assert(string_views(r@) =~= string_views(before).push(fv[i as int]));
        assert(string_views(r@) =~= fv.take(i + 1));
        i = i + 1;
    }
    let mut j: usize = 0;
    assert(string_views(r@) =~= fv + av.take(0));
    while j < fmt_args.len()
        invariant
            j <= fmt_args@.len(),
            fv == string_views(files@),
            av == string_views(fmt_args@),
            string_views(r@) == fv + av.take(j as int),
        decreases fmt_args.len() - j,
    {
        let ghost before = r@;
        r.push(String::from_str(fmt_args[j].as_str()));
        assert(string_views(r@) =~= string_views(before).push(av[j as int]));
        assert(string_views(r@) =~= fv + av.take(j + 1));
        j = j + 1;
    }
    assert(av.take(j as int) =~= av);
    r
}


/// The arguments after the program's name are those `cargo fmt` reads, then,
/// where there is a `--`, the `--` and those it hands on.
pub proof fn lemma_args_partition(args: Seq<Seq<char>>)
    requires
        args.len() > 0,
    ensures
        ({
            let rest = args.drop_first();
            let k = separator_index(rest);
            &&& 0 <= k <= rest.len()
            &&& k < rest.len() ==> rest == rest.take(k) + seq!["--"@] + rest.skip(k + 1)
            &&& k == rest.len() ==> rest == rest.take(k)
            &&& separator_index(args) == if args[0] == "--"@ {
                0
            } else {
                k + 1
            }
        }),
{
    let rest = args.drop_first();
    lemma_separator_bounds(rest);
    let k = separator_index(rest);
    if k < rest.len() {
        assert(rest =~= rest.take(k) + seq!["--"@] + rest.skip(k + 1));
    } else {
        assert(rest =~= rest.take(k));
    }
}

/// `separator_index` is a position of the list or its end, at a `--` when it is a position.
proof fn lemma_separator_bounds(args: Seq<Seq<char>>)
    ensures
        0 <= separator_index(args) <= args.len(),
        separator_index(args) < args.len() ==> args[separator_index(args)] == "--"@,
    decreases args.len(),
{
    if args.len() > 0 && args[0] != "--"@ {
        lemma_separator_bounds(args.drop_first());
    }
}

} // verus!
