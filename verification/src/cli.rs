//! The command line of the formatter: its options, how they are checked, and
//! what a run does with them.
use vstd::prelude::*;

use vstd::string::{StrSliceExecFns, StringExecFns};

use crate::config::{
    spec_is_valid_key_val, str_eq, with_override, Config, Edition, EmitMode, FileLines, Verbosity,
};
use crate::text::{
    chars_of, first_index_of, first_where, split_on, split_str, trim_str, trim_ws,
};
use crate::formatting::ReportedErrors;

verus! {

/// Where the formatted text goes, as the `--emit` option names it.
#[derive(Clone, Copy, Debug, PartialEq, Eq, Structural)]
pub enum Emit {
    Files,
    Stdout,
    Checkstyle,
    Json,
}

/// The name of an emit mode on the command line.
pub open spec fn emit_name(e: Emit) -> Seq<char> {
    match e {
        Emit::Files => "files"@,
        Emit::Stdout => "stdout"@,
        Emit::Checkstyle => "checkstyle"@,
        Emit::Json => "json"@,
    }
}

impl Emit {
    /// The configuration's emit mode for this option.
    pub fn to_emit_mode(self) -> (r: EmitMode)
        ensures
            r == (match self {
                Emit::Files => EmitMode::Files,
                Emit::Json => EmitMode::Json,
                Emit::Checkstyle => EmitMode::Checkstyle,
                Emit::Stdout => EmitMode::Stdout,
            }),
    {
        match self {
            Emit::Files => EmitMode::Files,
            Emit::Json => EmitMode::Json,
            Emit::Checkstyle => EmitMode::Checkstyle,
            Emit::Stdout => EmitMode::Stdout,
        }
    }

    /// The name of the mode on the command line.
    pub fn to_text(&self) -> (r: &'static str)
        ensures
            r@ == emit_name(*self),
    {
        match self {
            Emit::Files => "files",
            Emit::Stdout => "stdout",
            Emit::Checkstyle => "checkstyle",
            Emit::Json => "json",
        }
    }

    /// The mode named `s`, or the message that no mode is named so.
    pub fn from_str(s: &str) -> (r: Result<Emit, String>)
        ensures
            r matches Ok(e) ==> emit_name(e) == s@,
            r is Err <==> !(s@ == "files"@ || s@ == "stdout"@ || s@ == "checkstyle"@ || s@
                == "json"@),
            r matches Err(m) ==> m@ == "unknown --emit mode: "@ + s@,
    {
        proof {
            reveal_strlit("files");
            reveal_strlit("stdout");
            reveal_strlit("checkstyle");
            reveal_strlit("json");
        }
        if str_eq(s, "files") {
            Ok(Emit::Files)
        } else if str_eq(s, "stdout") {
            Ok(Emit::Stdout)
        } else if str_eq(s, "checkstyle") {
            Ok(Emit::Checkstyle)
        } else if str_eq(s, "json") {
            Ok(Emit::Json)
        } else {
            let mut m = String::from_str("unknown --emit mode: ");
            m.append(s);
            Err(m)
        }
    }
}

/// Which configuration `--print-config` prints.
#[derive(Clone, Copy, Debug, PartialEq, Eq, Structural)]
pub enum PrintConfig {
    Default,
    Minimal,
    Current,
}

/// The name of a `--print-config` choice.
pub open spec fn print_config_name(p: PrintConfig) -> Seq<char> {
    match p {
        PrintConfig::Default => "default"@,
        PrintConfig::Minimal => "minimal"@,
        PrintConfig::Current => "current"@,
    }
}

impl PrintConfig {
    /// The choice named `s`, or the message that none is named so.
    pub fn from_str(s: &str) -> (r: Result<PrintConfig, String>)
        ensures
            r matches Ok(p) ==> print_config_name(p) == s@,
            r is Err <==> !(s@ == "default"@ || s@ == "minimal"@ || s@ == "current"@),
            r matches Err(m) ==> m@ == "expected one of [current,default,minimal], found `"@ + s@
                + "`"@,
    {
        proof {
            reveal_strlit("default");
            reveal_strlit("minimal");
            reveal_strlit("current");
        }
        if str_eq(s, "default") {
            Ok(PrintConfig::Default)
        } else if str_eq(s, "minimal") {
            Ok(PrintConfig::Minimal)
        } else if str_eq(s, "current") {
            Ok(PrintConfig::Current)
        } else {
            let mut m = String::from_str("expected one of [current,default,minimal], found `");
            m.append(s);
            m.append("`");
            Err(m)
        }
    }
}

/// A misuse of the command line's options.
#[derive(Clone, Copy, Debug, PartialEq, Eq, Structural)]
pub enum OptError {
    /// Attempt to use --quiet and --verbose at once.
    QuietAndVerbose,
    /// Attempt to use --emit and --check at once.
    EmitAndCheck,
    /// Attempt to use --emit with a mode which is not currently
    /// supported with standard input.
    StdinBadEmit(Emit),
}

/// The message of an option error.
pub open spec fn opt_error_text(e: OptError) -> Seq<char> {
    match e {
        OptError::QuietAndVerbose => "--quiet and --verbose cannot be used at once."@,
        OptError::EmitAndCheck => "--emit and --check cannot be used at once."@,
        OptError::StdinBadEmit(m) => "Emit mode "@ + emit_name(m)
            + " not supported with standard output."@,
    }
}

impl OptError {
    /// The message of the error.
    pub fn to_text(&self) -> (r: String)
        ensures
            r@ == opt_error_text(*self),
    {
        match self {
            OptError::QuietAndVerbose => String::from_str(
                "--quiet and --verbose cannot be used at once.",
            ),
            OptError::EmitAndCheck => String::from_str("--emit and --check cannot be used at once."),
            OptError::StdinBadEmit(m) => {
                let mut r = String::from_str("Emit mode ");
                r.append(m.to_text());
                r.append(" not supported with standard output.");
                r
            },
        }
    }
}

/// A failure of what a run was asked to do.
#[derive(Debug)]
pub enum OperationError {
    /// An unknown help topic was requested.
    UnknownHelpTopic(String),
    /// An unknown print-config option was requested.
    UnknownPrintConfigTopic(String),
    /// Attempt to generate a minimal config from standard input.
    MinimalPathWithStdin,
    /// An io error during reading or writing, with its message.
    IoError(String),
}

/// The message of an operation error.
pub open spec fn operation_error_text(e: OperationError) -> Seq<char> {
    match e {
        OperationError::UnknownHelpTopic(t) => "Unknown help topic: `"@ + t@ + "`."@,
        OperationError::UnknownPrintConfigTopic(t) => "Unknown print-config option: `"@ + t@
            + "`."@,
        OperationError::MinimalPathWithStdin =>
            "The `--print-config=minimal` option doesn't work with standard input."@,
        OperationError::IoError(m) => "io error: "@ + m@,
    }
}

impl OperationError {
    /// The message of the error.
    pub fn to_text(&self) -> (r: String)
        ensures
            r@ == operation_error_text(*self),
    {
        match self {
            OperationError::UnknownHelpTopic(t) => {
                let mut r = String::from_str("Unknown help topic: `");
                r.append(t.as_str());
                r.append("`.");
                r
            },
            OperationError::UnknownPrintConfigTopic(t) => {
                let mut r = String::from_str("Unknown print-config option: `");
                r.append(t.as_str());
                r.append("`.");
                r
            },
            OperationError::MinimalPathWithStdin => String::from_str(
                "The `--print-config=minimal` option doesn't work with standard input.",
            ),
            OperationError::IoError(m) => {
                let mut r = String::from_str("io error: ");
                r.append(m.as_str());
                r
            },
        }
    }
}


/// The predicate "is `=`".
pub open spec fn eq_sign_pred() -> spec_fn(char) -> bool {
    |c: char| c == '='
}

/// The `key=val` pair that one piece of a `--config` value gives, or the message
/// of what is wrong with it: it has no `=`, or it does not set an option.
pub open spec fn pair_of(piece: Seq<char>) -> Result<(Seq<char>, Seq<char>), Seq<char>> {
    let m = first_where(piece, eq_sign_pred());
    if m == piece.len() {
        Err(
            "--config expects comma-separated list of key=val pairs, found `"@ + piece + "`"@,
        )
    } else if !spec_is_valid_key_val(piece.take(m), piece.skip(m + 1)) {
        Err("invalid key=val pair: `"@ + piece + "`"@)
    } else {
        Ok((piece.take(m), piece.skip(m + 1)))
    }
}

/// The position of the pair with key `key`, or `es.len()` when there is none.
pub open spec fn key_index(es: Seq<(Seq<char>, Seq<char>)>, key: Seq<char>) -> int
    decreases es.len(),
{
    if es.len() == 0 {
        0
    } else if es[0].0 == key {
        0
    } else {
        1 + key_index(es.drop_first(), key)
    }
}

/// The pairs after setting `key` to `val`: in place of an earlier value for
/// `key`, or at the end.
pub open spec fn with_pair(es: Seq<(Seq<char>, Seq<char>)>, key: Seq<char>, val: Seq<char>) -> Seq<
    (Seq<char>, Seq<char>),
> {
    let i = key_index(es, key);
    if i < es.len() {
        es.update(i, (key, val))
    } else {
        es.push((key, val))
    }
}

/// The pairs that the pieces give, a later value of a key replacing an earlier
/// one, or the message about the first piece that gives none.
pub open spec fn pairs_of(pieces: Seq<Seq<char>>) -> Result<Seq<(Seq<char>, Seq<char>)>, Seq<char>>
    decreases pieces.len(),
{
    if pieces.len() == 0 {
        Ok(Seq::empty())
    } else {
        match pairs_of(pieces.drop_last()) {
            Err(m) => Err(m),
            Ok(es) => match pair_of(pieces.last()) {
                Err(m) => Err(m),
                Ok(kv) => Ok(with_pair(es, kv.0, kv.1)),
            },
        }
    }
}

/// What a `--config` value gives: a request for help when it is `help` (white
/// space around it aside), else the comma-separated `key=val` pairs.
pub open spec fn inline_config_of(s: Seq<char>) -> Result<(Seq<(Seq<char>, Seq<char>)>, bool), Seq<
    char,
>> {
    if trim_ws(s) == "help"@ {
        Ok((Seq::empty(), true))
    } else {
        match pairs_of(split_on(s, ',')) {
            Ok(es) => Ok((es, false)),
            Err(m) => Err(m),
        }
    }
}

/// The view of a list of pairs of texts.
pub open spec fn pair_views(v: Seq<(String, String)>) -> Seq<(Seq<char>, Seq<char>)> {
    v.map_values(|p: (String, String)| (p.0@, p.1@))
}

/// Options set on the command line with `--config`, and whether help was asked for.
#[derive(Debug)]
pub struct InlineConfig(pub Vec<(String, String)>, pub bool);

impl View for InlineConfig {
    type V = (Seq<(Seq<char>, Seq<char>)>, bool);

    open spec fn view(&self) -> (Seq<(Seq<char>, Seq<char>)>, bool) {
        (pair_views(self.0@), self.1)
    }
}

/// Sets `key` to `val` in `v`: in place of an earlier value for `key`, or at the end.
fn insert_pair(v: &mut Vec<(String, String)>, key: String, val: String)
    ensures
        pair_views(final(v)@) == with_pair(pair_views(old(v)@), key@, val@),
{
    let ghost es = pair_views(v@);
    let mut i: usize = 0;
    while i < v.len() && !str_eq(v[i].0.as_str(), key.as_str())
        invariant
            i <= v@.len(),
            es == pair_views(v@),
            forall|j: int| 0 <= j < i ==> (#[trigger] es[j]).0 != key@,
        decreases v.len() - i,
    {
        i = i + 1;
    }
    proof {
        lemma_key_index_at(es, key@, i as int);
    }
    let ghost kv = (key@, val@);
    if i < v.len() {
        v.set(i, (key, val));
        assert(pair_views(v@) =~= es.update(i as int, kv));
    } else {
        v.push((key, val));
        assert(pair_views(v@) =~= es.push(kv));
    }
}

/// The position `k` of a pair with key `key` with none before it is what `key_index` gives.
proof fn lemma_key_index_at(es: Seq<(Seq<char>, Seq<char>)>, key: Seq<char>, k: int)
    requires
        0 <= k <= es.len(),
        forall|j: int| 0 <= j < k ==> (#[trigger] es[j]).0 != key,
        k < es.len() ==> es[k].0 == key,
    ensures
        key_index(es, key) == k,
    decreases es.len(),
{
    if es.len() > 0 && k > 0 {
        assert(es[0].0 != key);
        assert forall|j: int| 0 <= j < k - 1 implies (#[trigger] es.drop_first()[j]).0 != key by {
            assert(es.drop_first()[j] == es[j + 1]);
        }
        lemma_key_index_at(es.drop_first(), key, k - 1);
    }
}

/// The pair that one piece of a `--config` value gives, or what is wrong with it.
fn pair_from(piece: &str) -> (r: Result<(String, String), String>)
    ensures
        match pair_of(piece@) {
            Ok(kv) => r matches Ok(p) && p.0@ == kv.0 && p.1@ == kv.1,
            Err(m) => r matches Err(e) && e@ == m,
        },
{
    let v = chars_of(piece);
    let m = first_index_of(&v, '=');
    proof {
        crate::text::lemma_first_where_props(v@, |x: char| x == '=');
        assert(first_where(piece@, eq_sign_pred()) == first_where(v@, |x: char| x == '=')) by {
            assert(eq_sign_pred() =~= (|x: char| x == '='));
        }
    }
    if m == v.len() {
        let mut e = String::from_str("--config expects comma-separated list of key=val pairs, found `");
        e.append(piece);
        e.append("`");
        return Err(e);
    }
    let key = piece.substring_char(0, m);
    let val = piece.substring_char(m + 1, v.len());
    assert(key@ == piece@.take(m as int));
    assert(val@ =~= piece@.skip(m + 1));
    if !Config::is_valid_key_val(key, val) {
        let mut e = String::from_str("invalid key=val pair: `");
        e.append(piece);
        e.append("`");
        return Err(e);
    }
    Ok((String::from_str(key), String::from_str(val)))
}

impl InlineConfig {
    /// Whether help was asked for.
    pub fn is_help(&self) -> (r: bool)
        ensures
            r == self.1,
    {
        self.1
    }

    /// The options that a `--config` value sets, or what is wrong with it.
    pub fn from_str(s: &str) -> (r: Result<InlineConfig, String>)
        ensures
            match inline_config_of(s@) {
                Ok(c) => r matches Ok(ic) && ic@ == c,
                Err(m) => r matches Err(e) && e@ == m,
            },
    {
        proof {
            reveal_strlit("help");
        }
        if str_eq(trim_str(s), "help") {
            let ic = InlineConfig(Vec::new(), true);
            assert(ic@.0 =~= Seq::<(Seq<char>, Seq<char>)>::empty());
            return Ok(ic);
        }
        let pieces = split_str(s, ',');
        let ghost ps = split_on(s@, ',');
        let mut pairs: Vec<(String, String)> = Vec::new();
        let mut i: usize = 0;
        assert(ps.take(0) =~= Seq::<Seq<char>>::empty());
        assert(pair_views(pairs@) =~= Seq::<(Seq<char>, Seq<char>)>::empty());
        while i < pieces.len()
            invariant
                i <= pieces@.len(),
                ps == split_on(s@, ','),
                trim_ws(s@) != "help"@,
                pieces@.len() == ps.len(),
                forall|j: int| 0 <= j < pieces@.len() ==> (#[trigger] pieces@[j])@ == ps[j],
                pairs_of(ps.take(i as int)) == Ok::<Seq<(Seq<char>, Seq<char>)>, Seq<char>>(
                    pair_views(pairs@),
                ),
            decreases pieces.len() - i,
        {
            assert(ps.take(i + 1).drop_last() =~= ps.take(i as int));
            assert(ps.take(i + 1).last() == pieces@[i as int]@);
            match pair_from(pieces[i]) {
                Ok((k, v)) => {
                    insert_pair(&mut pairs, k, v);
                },
                Err(e) => {
                    proof {
                        assert(pair_of(ps.take(i + 1).last()) is Err);
                        assert(pairs_of(ps.take(i + 1)) == Err::<Seq<(Seq<char>, Seq<char>)>, Seq<char>>(e@));
                        lemma_pairs_of_err(ps, i as int + 1);
                    }
                    return Err(e);
                },
            }
            i = i + 1;
        }
        assert(ps.take(i as int) =~= ps);
        Ok(InlineConfig(pairs, false))
    }
}

/// Once a prefix of the pieces gives an error, so does every longer one.
proof fn lemma_pairs_of_err(ps: Seq<Seq<char>>, k: int)
    requires
        0 <= k <= ps.len(),
        pairs_of(ps.take(k)) is Err,
    ensures
        pairs_of(ps) == pairs_of(ps.take(k)),
    decreases ps.len() - k,
{
    if k < ps.len() {
        assert(ps.take(k + 1).drop_last() =~= ps.take(k));
        lemma_pairs_of_err(ps, k + 1);
    } else {
        assert(ps.take(k) =~= ps);
    }
}


/// The options of a run of the formatter.
#[derive(Debug)]
pub struct Opt {
    /// Run in 'check' mode: report whether the input is formatted, with a diff.
    pub check: bool,
    /// Where the formatted text goes.
    pub emit: Option<Emit>,
    /// A path to the configuration file.
    pub config_path: Option<String>,
    /// The edition of the language.
    pub edition: Option<Edition>,
    /// Print a configuration instead of formatting.
    pub print_config: Option<PrintConfig>,
    /// Print the names of the files with a diff.
    pub files_with_diff: bool,
    /// Options set on the command line.
    pub inline_config: Option<Vec<InlineConfig>>,
    /// Format submodules recursively.
    pub recursive: bool,
    /// Print no output.
    pub quiet: bool,
    /// Print verbose output.
    pub verbose: bool,
    /// Limit formatting to these ranges of lines.
    pub file_lines: FileLines,
    /// Report lines left unformatted in comments and string literals.
    pub error_on_unformatted: bool,
    /// The files to format; none means standard input.
    pub files: Vec<String>,
}

/// What is wrong with the options, if anything: `--quiet` with `--verbose`,
/// `--emit` with `--check`, or, with no file given, an emit mode that does not
/// write to standard output.
pub open spec fn opt_problem(opt: Opt) -> Option<OptError> {
    if opt.quiet && opt.verbose {
        Some(OptError::QuietAndVerbose)
    } else if opt.check && opt.emit is Some {
        Some(OptError::EmitAndCheck)
    } else if opt.files@.len() == 0 && opt.emit == Some(Emit::Files) {
        Some(OptError::StdinBadEmit(Emit::Files))
    } else {
        None
    }
}

/// `config` with the pairs `es` set, one after the other.
pub open spec fn with_overrides(config: Config, es: Seq<(Seq<char>, Seq<char>)>) -> Config
    decreases es.len(),
{
    if es.len() == 0 {
        config
    } else {
        let c = with_overrides(config, es.drop_last());
        with_override(c, es.last().0, es.last().1)
    }
}

/// `config` with the options of each `--config` value set, one value after the other.
pub open spec fn with_inline_configs(config: Config, ics: Seq<InlineConfig>) -> Config
    decreases ics.len(),
{
    if ics.len() == 0 {
        config
    } else {
        with_overrides(with_inline_configs(config, ics.drop_last()), ics.last()@.0)
    }
}

/// Whether every pair of every `--config` value sets an option.
pub open spec fn inline_configs_valid(ics: Seq<InlineConfig>) -> bool {
    forall|i: int, j: int|
        0 <= i < ics.len() && 0 <= j < ics[i]@.0.len() ==> spec_is_valid_key_val(
            #[trigger] ics[i]@.0[j].0,
            ics[i]@.0[j].1,
        )
}

/// `config` with the options of the command line applied, the file lines aside:
/// verbosity, recursion, errors on unformatted text, edition, emit mode (a diff
/// in check mode), and printing of misformatted file names, then the `--config`
/// values in order.
pub open spec fn opt_applied(opt: Opt, config: Config) -> Config {
    let c6 = flags_applied(opt, config);
    match opt.inline_config {
        Some(ics) => with_inline_configs(c6, ics@),
        None => c6,
    }
}

/// `config` with the flags of the command line applied: verbosity, recursion,
/// errors on unformatted text, edition, emit mode (a diff in check mode), and
/// printing of misformatted file names.
pub open spec fn flags_applied(opt: Opt, config: Config) -> Config {
    Config {
        verbose: if opt.verbose {
            Verbosity::Verbose
        } else if opt.quiet {
            Verbosity::Quiet
        } else {
            config.verbose
        },
        recursive: opt.recursive || config.recursive,
        error_on_unformatted: opt.error_on_unformatted || config.error_on_unformatted,
        edition: match opt.edition {
            Some(e) => e,
            None => config.edition,
        },
        emit_mode: if opt.check {
            EmitMode::Diff
        } else {
            match opt.emit {
                Some(e) => match e {
                    Emit::Files => EmitMode::Files,
                    Emit::Json => EmitMode::Json,
                    Emit::Checkstyle => EmitMode::Checkstyle,
                    Emit::Stdout => EmitMode::Stdout,
                },
                None => config.emit_mode,
            }
        },
        print_misformatted_file_names: opt.files_with_diff || config.print_misformatted_file_names,
        ..config
    }
}

/// What a run does once its options are checked.
#[derive(Clone, Copy, Debug, PartialEq, Eq, Structural)]
pub enum Action {
    /// Print the documentation of the options.
    PrintDocs,
    /// Print the default configuration.
    PrintDefaultConfig,
    /// Print the configuration in use, whole or only what differs from the default.
    PrintConfig(PrintConfig),
    /// Format the files, or standard input.
    Format,
}

/// Whether one of the `--config` values asks for help.
pub open spec fn asks_help(ics: Seq<InlineConfig>) -> bool {
    exists|i: int| 0 <= i < ics.len() && (#[trigger] ics[i]).1
}

/// What a run with options `opt` does: help when a `--config` value asks for
/// it, else the configuration that `--print-config` names, else formatting.
pub open spec fn opt_action(opt: Opt) -> Action {
    if (opt.inline_config matches Some(ics) && asks_help(ics@)) {
        Action::PrintDocs
    } else {
        match opt.print_config {
            Some(PrintConfig::Default) => Action::PrintDefaultConfig,
            Some(p) => Action::PrintConfig(p),
            None => Action::Format,
        }
    }
}

impl Opt {
    /// Checks that the options can be used together.
    pub fn verify(&self) -> (r: Result<(), OptError>)
        ensures
            match opt_problem(*self) {
                Some(e) => r == Err::<(), OptError>(e),
                None => r is Ok,
            },
    {
        if self.quiet && self.verbose {
            return Err(OptError::QuietAndVerbose);
        }
        if self.check && self.emit.is_some() {
            return Err(OptError::EmitAndCheck);
        }
        if self.files.len() == 0 {
            match self.emit {
                None | Some(Emit::Stdout) | Some(Emit::Checkstyle) | Some(Emit::Json) => {},
                Some(emit_mode) => {
                    return Err(OptError::StdinBadEmit(emit_mode));
                },
            }
        }
        Ok(())
    }

    /// Applies the flags of the command line to `config`.
    #[verifier::rlimit(40)]
    #[verifier::spinoff_prover]
    fn apply_flags(&self, config: &mut Config)
        ensures
            *final(config) == flags_applied(*self, *old(config)),
    {
        let verbose = if self.verbose {
            Verbosity::Verbose
        } else if self.quiet {
            Verbosity::Quiet
        } else {
            config.verbose
        };
        config.set_verbose(verbose);
        let recursive = self.recursive || config.recursive;
        config.set_recursive(recursive);
        let error_on_unformatted = self.error_on_unformatted || config.error_on_unformatted;
        config.set_error_on_unformatted(error_on_unformatted);
        let edition = match self.edition {
            Some(e) => e,
            None => config.edition,
        };
        config.set_edition(edition);
        let emit_mode = if self.check {
            EmitMode::Diff
        } else {
            match self.emit {
                Some(e) => e.to_emit_mode(),
                None => config.emit_mode,
            }
        };
        config.set_emit_mode(emit_mode);
        let names = self.files_with_diff || config.print_misformatted_file_names;
        config.set_print_misformatted_file_names(names);
    }

    /// Applies the options to `config`.
    #[verifier::rlimit(30)]
    pub fn apply_to(&self, config: &mut Config)
        requires
            self.inline_config matches Some(ics) ==> inline_configs_valid(ics@),
        ensures
            *final(config) == (Config {
                file_lines: final(config).file_lines,
                ..opt_applied(*self, *old(config))
            }),
            final(config).file_lines.same_as(self.file_lines),
    {
        self.apply_flags(config);
        if let Some(inline_configs) = &self.inline_config {
            apply_inline_configs(config, inline_configs);
        }
        config.set_file_lines(self.file_lines.copy());
    }

    /// The path of the configuration file given, if any.
    pub fn config_path(&self) -> (r: Option<&String>)
        ensures
            r == match self.config_path {
                Some(p) => Some(&p),
                None => None::<&String>,
            },
    {
        match &self.config_path {
            Some(p) => Some(p),
            None => None,
        }
    }
}

/// Sets the options of each `--config` value in `ics` in `config`, one value after the other.
#[verifier::rlimit(30)]
fn apply_inline_configs(config: &mut Config, ics: &Vec<InlineConfig>)
    requires
        inline_configs_valid(ics@),
    ensures
        *final(config) == with_inline_configs(*old(config), ics@),
{
    let ghost c0 = *config;
    let mut i: usize = 0;
    assert(ics@.take(0) =~= Seq::<InlineConfig>::empty());
    while i < ics.len()
        invariant
            i <= ics@.len(),
            inline_configs_valid(ics@),
            *config == with_inline_configs(c0, ics@.take(i as int)),
        decreases ics.len() - i,
    {
        let pairs = &ics[i].0;
        let ghost before = *config;
        let mut j: usize = 0;
        assert(pair_views(pairs@).take(0) =~= Seq::<(Seq<char>, Seq<char>)>::empty());
        while j < pairs.len()
            invariant
                i < ics@.len(),
                j <= pairs@.len(),
                *pairs == ics@[i as int].0,
                inline_configs_valid(ics@),
                *config == with_overrides(before, pair_views(pairs@).take(j as int)),
            decreases pairs.len() - j,
        {
            assert(spec_is_valid_key_val(
                ics@[i as int]@.0[j as int].0,
                ics@[i as int]@.0[j as int].1,
            ));
            config.override_value(pairs[j].0.as_str(), pairs[j].1.as_str());
            assert(pair_views(pairs@).take(j + 1).drop_last() =~= pair_views(pairs@).take(
                j as int,
            ));
            j = j + 1;
        }
        assert(pair_views(pairs@).take(j as int) =~= pair_views(pairs@));
        assert(ics@.take(i + 1).drop_last() =~= ics@.take(i as int));
        i = i + 1;
    }
    assert(ics@.take(i as int) =~= ics@);
}

/// What a run with options `opt` does, or what is wrong with its options.
pub fn execute(opt: &Opt) -> (r: Result<Action, OptError>)
    ensures
        match opt_problem(*opt) {
            Some(e) => r == Err::<Action, OptError>(e),
            None => r == Ok::<Action, OptError>(opt_action(*opt)),
        },
{
    match opt.verify() {
        Err(e) => {
            return Err(e);
        },
        Ok(()) => {},
    }
    if let Some(inline_configs) = &opt.inline_config {
        let mut i: usize = 0;
        while i < inline_configs.len()
            invariant
                i <= inline_configs@.len(),
                opt_problem(*opt) is None,
                opt.inline_config == Some(*inline_configs),
                forall|j: int| 0 <= j < i ==> !(#[trigger] inline_configs@[j]).1,
            decreases inline_configs.len() - i,
        {
            if inline_configs[i].is_help() {
                assert(inline_configs@[i as int].1);
                assert(asks_help(inline_configs@));
                return Ok(Action::PrintDocs);
            }
            i = i + 1;
        }
    }
    match opt.print_config {
        Some(PrintConfig::Default) => Ok(Action::PrintDefaultConfig),
        Some(PrintConfig::Minimal) => Ok(Action::PrintConfig(PrintConfig::Minimal)),
        Some(PrintConfig::Current) => Ok(Action::PrintConfig(PrintConfig::Current)),
        None => Ok(Action::Format),
    }
}

/// The exit code of formatting standard input: 1 after an operational or a
/// parsing error, else 0.
pub fn stdin_exit_code(errors: &ReportedErrors) -> (r: i32)
    ensures
        r == (if errors.has_operational_errors || errors.has_parsing_errors {
            1i32
        } else {
            0i32
        }),
{
    if errors.has_operational_errors || errors.has_parsing_errors {
        1
    } else {
        0
    }
}

/// The exit code of formatting files: 1 after an operational or a parsing
/// error, or, in check mode, after a diff or a failed check; else 0.
pub fn files_exit_code(errors: &ReportedErrors, check: bool) -> (r: i32)
    ensures
        r == (if errors.has_operational_errors || errors.has_parsing_errors || ((errors.has_diff
            || errors.has_check_errors) && check) {
            1i32
        } else {
            0i32
        }),
{
    if errors.has_operational_errors || errors.has_parsing_errors || ((errors.has_diff
        || errors.has_check_errors) && check) {
        1
    } else {
        0
    }
}

/// The configuration for formatting standard input: a diff in check mode, else
/// the emit mode asked for (standard output by default); quiet; and the file
/// lines of the command line.
#[verifier::rlimit(30)]
pub fn configure_for_stdin(config: &mut Config, opt: &Opt)
    ensures
        *final(config) == (Config {
            emit_mode: if opt.check {
                EmitMode::Diff
            } else {
                match opt.emit {
                    Some(e) => match e {
                        Emit::Files => EmitMode::Files,
                        Emit::Json => EmitMode::Json,
                        Emit::Checkstyle => EmitMode::Checkstyle,
                        Emit::Stdout => EmitMode::Stdout,
                    },
                    None => EmitMode::Stdout,
                }
            },
            verbose: Verbosity::Quiet,
            file_lines: final(config).file_lines,
            ..*old(config)
        }),
        final(config).file_lines.same_as(opt.file_lines),
{
    if opt.check {
        config.set_emit_mode(EmitMode::Diff);
    } else {
        let mode = match opt.emit {
            Some(e) => e.to_emit_mode(),
            None => EmitMode::Stdout,
        };
        config.set_emit_mode(mode);
    }
    config.set_verbose(Verbosity::Quiet);
    config.set_file_lines(opt.file_lines.copy());
}


/// Each emit mode's name reads back as that mode: it is a name `from_str`
/// accepts, and no other mode has it.
pub proof fn lemma_emit_name_roundtrip(e: Emit, other: Emit)
    ensures
        ({
            let n = emit_name(e);
            n == "files"@ || n == "stdout"@ || n == "checkstyle"@ || n == "json"@
        }),
        emit_name(other) == emit_name(e) ==> other == e,
{
    reveal_strlit("files");
    reveal_strlit("stdout");
    reveal_strlit("checkstyle");
    reveal_strlit("json");
    if emit_name(other) == emit_name(e) && other != e {
        assert(emit_name(other)[0] == emit_name(e)[0]);
        assert(emit_name(other).len() == emit_name(e).len());
    }
}

/// Each `--print-config` choice's name reads back as that choice.
pub proof fn lemma_print_config_name_roundtrip(p: PrintConfig, other: PrintConfig)
    ensures
        ({
            let n = print_config_name(p);
            n == "default"@ || n == "minimal"@ || n == "current"@
        }),
        print_config_name(other) == print_config_name(p) ==> other == p,
{
    reveal_strlit("default");
    reveal_strlit("minimal");
    reveal_strlit("current");
    if print_config_name(other) == print_config_name(p) && other != p {
        assert(print_config_name(other)[0] == print_config_name(p)[0]);
    }
}

/// `key_index` is a position of the list or its end.
proof fn lemma_key_index_bounds(es: Seq<(Seq<char>, Seq<char>)>, key: Seq<char>)
    ensures
        0 <= key_index(es, key) <= es.len(),
    decreases es.len(),
{
    if es.len() > 0 {
        lemma_key_index_bounds(es.drop_first(), key);
    }
}

/// Every pair that `with_pair` adds or keeps sets an option when all did before.
proof fn lemma_with_pair_valid(es: Seq<(Seq<char>, Seq<char>)>, k: Seq<char>, v: Seq<char>)
    requires
        forall|i: int| 0 <= i < es.len() ==> spec_is_valid_key_val(#[trigger] es[i].0, es[i].1),
        spec_is_valid_key_val(k, v),
    ensures
        forall|i: int|
            0 <= i < with_pair(es, k, v).len() ==> spec_is_valid_key_val(
                #[trigger] with_pair(es, k, v)[i].0,
                with_pair(es, k, v)[i].1,
            ),
{
    let r = with_pair(es, k, v);
    assert forall|i: int| 0 <= i < r.len() implies spec_is_valid_key_val(
        #[trigger] r[i].0,
        r[i].1,
    ) by {
        lemma_key_index_bounds(es, k);
        let j = key_index(es, k);
        if j < es.len() {
            if i != j {
                assert(r[i] == es[i]);
            }
        } else if i < es.len() {
            assert(r[i] == es[i]);
        }
    }
}

/// Every pair that a list of pieces gives sets an option.
pub proof fn lemma_pairs_of_valid(pieces: Seq<Seq<char>>)
    ensures
        pairs_of(pieces) matches Ok(es) ==> forall|i: int|
            0 <= i < es.len() ==> spec_is_valid_key_val(#[trigger] es[i].0, es[i].1),
    decreases pieces.len(),
{
    if pieces.len() > 0 {
        lemma_pairs_of_valid(pieces.drop_last());
        if let Ok(es) = pairs_of(pieces.drop_last()) {
            if let Ok(kv) = pair_of(pieces.last()) {
                lemma_with_pair_valid(es, kv.0, kv.1);
            }
        }
    }
}

/// Every `key=val` pair of an accepted `--config` value sets an option, so the
/// options of the command line can always be applied.
pub proof fn lemma_inline_config_valid(s: Seq<char>)
    ensures
        inline_config_of(s) matches Ok(c) ==> forall|i: int|
            0 <= i < c.0.len() ==> spec_is_valid_key_val(#[trigger] c.0[i].0, c.0[i].1),
{
    lemma_pairs_of_valid(split_on(s, ','));
}

} // verus!
