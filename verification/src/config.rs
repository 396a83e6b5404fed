//! The options of the formatter, the lines it is to format, and how options
//! are read from `key=value` text.
use vstd::prelude::*;

use vstd::string::{StrSliceExecFns, StringExecFns};

verus! {

/// Whether two texts are the same characters.
pub fn str_eq(a: &str, b: &str) -> (r: bool)
    ensures
        r == (a@ == b@),
{
    let n = a.unicode_len();
    if n != b.unicode_len() {
        return false;
    }
    let mut i: usize = 0;
    while i < n
        invariant
            n == a@.len() == b@.len(),
            i <= n,
            forall|j: int| 0 <= j < i ==> a@[j] == b@[j],
        decreases n - i,
    {
        if a.get_char(i) != b.get_char(i) {
            return false;
        }
        i = i + 1;
    }
    assert(a@ =~= b@);
    true
}

/// A range of lines of a file, both ends included, counted from 1.
#[derive(Clone, Debug)]
pub struct FileRange {
    pub file: String,
    pub lo: usize,
    pub hi: usize,
}

/// The lines to format: every line of every file, or only the listed ranges.
#[derive(Clone, Debug)]
pub struct FileLines {
    pub ranges: Option<Vec<FileRange>>,
}

impl FileLines {
    /// Whether line `line` of `file` is to be formatted.
    pub open spec fn spec_contains_line(&self, file: Seq<char>, line: int) -> bool {
        match self.ranges {
            None => true,
            Some(rs) => exists|i: int|
                0 <= i < rs@.len() && (#[trigger] rs@[i]).file@ == file && rs@[i].lo <= line
                    <= rs@[i].hi,
        }
    }

    /// Whether `self` and `other` name the same ranges, in the same order.
    pub open spec fn same_as(&self, other: FileLines) -> bool {
        match (self.ranges, other.ranges) {
            (None, None) => true,
            (Some(a), Some(b)) => a@.len() == b@.len() && forall|i: int|
                0 <= i < a@.len() ==> (#[trigger] a@[i]).file@ == b@[i].file@ && a@[i].lo
                    == b@[i].lo && a@[i].hi == b@[i].hi,
            _ => false,
        }
    }

    /// Ranges that are the same select the same lines.
    pub proof fn lemma_same_as_contains(&self, other: FileLines, file: Seq<char>, line: int)
        requires
            self.same_as(other),
        ensures
            self.spec_contains_line(file, line) == other.spec_contains_line(file, line),
    {
        match (self.ranges, other.ranges) {
            (Some(a), Some(b)) => {
                if self.spec_contains_line(file, line) {
                    let i = choose|i: int|
                        0 <= i < a@.len() && (#[trigger] a@[i]).file@ == file && a@[i].lo <= line
                            <= a@[i].hi;
                    assert(b@[i].file@ == file && b@[i].lo <= line <= b@[i].hi);
                }
                if other.spec_contains_line(file, line) {
                    let i = choose|i: int|
                        0 <= i < b@.len() && (#[trigger] b@[i]).file@ == file && b@[i].lo <= line
                            <= b@[i].hi;
                    assert(a@[i].file@ == file && a@[i].lo <= line <= a@[i].hi);
                }
            },
            _ => {},
        }
    }

    /// A copy of the ranges.
    pub fn copy(&self) -> (r: FileLines)
        ensures
            r.same_as(*self),
    {
        match &self.ranges {
            None => FileLines { ranges: None },
            Some(rs) => {
                let mut v: Vec<FileRange> = Vec::new();
                let mut i: usize = 0;
                while i < rs.len()
                    invariant
                        i <= rs@.len(),
                        v@.len() == i,
                        forall|j: int|
                            0 <= j < i ==> (#[trigger] v@[j]).file@ == rs@[j].file@ && v@[j].lo
                                == rs@[j].lo && v@[j].hi == rs@[j].hi,
                    decreases rs.len() - i,
                {
                    let file = rs[i].file.clone();
                    v.push(FileRange { file, lo: rs[i].lo, hi: rs[i].hi });
                    i = i + 1;
                }
                FileLines { ranges: Some(v) }
            },
        }
    }

    /// Every line of every file.
    pub fn all() -> (r: FileLines)
        ensures
            r.ranges is None,
    {
        FileLines { ranges: None }
    }

    /// Whether line `line` of `file` is to be formatted.
    pub fn contains_line(&self, file: &str, line: usize) -> (r: bool)
        ensures
            r == self.spec_contains_line(file@, line as int),
    {
        match &self.ranges {
            None => true,
            Some(rs) => {
                let mut i: usize = 0;
                while i < rs.len()
                    invariant
                        i <= rs@.len(),
                        self.ranges == Some(*rs),
                        forall|j: int|
                            0 <= j < i ==> !((#[trigger] rs@[j]).file@ == file@ && rs@[j].lo <= line
                                <= rs@[j].hi),
                    decreases rs.len() - i,
                {
                    if str_eq(rs[i].file.as_str(), file) && rs[i].lo <= line && line <= rs[i].hi {
                        let ghost v = *rs;
                        assert((#[trigger] v@[i as int]).file@ == file@ && v@[i as int].lo <= line
                            <= v@[i as int].hi);
                        assert(self.ranges->0 == v);
                        return true;
                    }
                    i = i + 1;
                }
                false
            },
        }
    }
}

/// How much a run reports.
#[derive(Clone, Copy, Debug, PartialEq, Eq, Structural)]
pub enum Verbosity {
    Verbose,
    Normal,
    Quiet,
}

/// Where the formatted text goes.
#[derive(Clone, Copy, Debug, PartialEq, Eq, Structural)]
pub enum EmitMode {
    /// The files are overwritten.
    Files,
    /// The text is written to standard output.
    Stdout,
    /// A checkstyle report is written.
    Checkstyle,
    /// A JSON report is written.
    Json,
    /// A diff against the input is written.
    Diff,
}

/// The line endings of the files written.
#[derive(Clone, Copy, Debug, PartialEq, Eq, Structural)]
pub enum NewlineStyle {
    /// A carriage return and a line feed.
    Windows,
    /// A line feed.
    Unix,
}

/// The edition of the language.
#[derive(Clone, Copy, Debug, PartialEq, Eq, Structural)]
pub enum Edition {
    Edition2015,
    Edition2018,
}

/// The options of the formatter that the layout and checking code reads.
#[derive(Clone, Debug)]
pub struct Config {
    /// Maximum width of each line.
    pub max_width: usize,
    /// Number of spaces per tab.
    pub tab_spaces: usize,
    /// Use tab characters for indentation, spaces for alignment.
    pub hard_tabs: bool,
    /// Put spaces within non-empty parentheses.
    pub spaces_within_parens: bool,
    /// Error if a line is left longer than `max_width`.
    pub error_on_line_overflow: bool,
    /// Report overflowing lines that hold a `//` comment too.
    pub error_on_line_overflow_comments: bool,
    /// Report lines left too wide, or with trailing white space, in comments
    /// and string literals too.
    pub error_on_unformatted: bool,
    /// The pattern that the text of every file must match, if any.
    pub license_template: Option<String>,
    /// How much a run reports.
    pub verbose: Verbosity,
    /// The lines to format.
    pub file_lines: FileLines,
    /// Format the modules of a crate recursively.
    pub recursive: bool,
    /// Where the formatted text goes.
    pub emit_mode: EmitMode,
    /// Print the names of the files that are not formatted.
    pub print_misformatted_file_names: bool,
    /// The edition of the language.
    pub edition: Edition,
    /// The line endings of the files written.
    pub newline_style: NewlineStyle,
    /// Add a semicolon after `break`, `continue` and `return`.
    pub trailing_semicolon: bool,
    /// Put spaces within non-empty square brackets.
    pub spaces_within_square_brackets: bool,
}

impl Config {
    /// The documented defaults: a line is at most 100 wide, a tab is 4 spaces
    /// and indentation uses spaces.
    pub fn default() -> (c: Config)
        ensures
            c.max_width == 100,
            c.tab_spaces == 4,
            !c.hard_tabs,
            !c.spaces_within_parens,
            !c.error_on_line_overflow,
            c.error_on_line_overflow_comments,
            !c.error_on_unformatted,
            c.license_template is None,
            c.verbose == Verbosity::Normal,
            c.file_lines.ranges is None,
            !c.recursive,
            c.emit_mode == EmitMode::Files,
            !c.print_misformatted_file_names,
            c.edition == Edition::Edition2015,
            c.newline_style == NewlineStyle::Unix,
            c.trailing_semicolon,
            !c.spaces_within_square_brackets,
    {
        Config {
            max_width: 100,
            tab_spaces: 4,
            hard_tabs: false,
            spaces_within_parens: false,
            error_on_line_overflow: false,
            error_on_line_overflow_comments: true,
            error_on_unformatted: false,
            license_template: None,
            verbose: Verbosity::Normal,
            file_lines: FileLines::all(),
            recursive: false,
            emit_mode: EmitMode::Files,
            print_misformatted_file_names: false,
            edition: Edition::Edition2015,
            newline_style: NewlineStyle::Unix,
            trailing_semicolon: true,
            spaces_within_square_brackets: false,
        }
    }

    pub fn set_max_width(&mut self, value: usize)
        ensures
            *final(self) == (Config { max_width: value, ..*old(self) }),
    {
        self.max_width = value;
    }

    pub fn set_tab_spaces(&mut self, value: usize)
        ensures
            *final(self) == (Config { tab_spaces: value, ..*old(self) }),
    {
        self.tab_spaces = value;
    }

    pub fn set_hard_tabs(&mut self, value: bool)
        ensures
            *final(self) == (Config { hard_tabs: value, ..*old(self) }),
    {
        self.hard_tabs = value;
    }

    pub fn set_error_on_line_overflow(&mut self, value: bool)
        ensures
            *final(self) == (Config { error_on_line_overflow: value, ..*old(self) }),
    {
        self.error_on_line_overflow = value;
    }

    pub fn set_error_on_unformatted(&mut self, value: bool)
        ensures
            *final(self) == (Config { error_on_unformatted: value, ..*old(self) }),
    {
        self.error_on_unformatted = value;
    }

    pub fn set_verbose(&mut self, value: Verbosity)
        ensures
            *final(self) == (Config { verbose: value, ..*old(self) }),
    {
        self.verbose = value;
    }

    pub fn set_file_lines(&mut self, value: FileLines)
        ensures
            *final(self) == (Config { file_lines: value, ..*old(self) }),
    {
        self.file_lines = value;
    }

    pub fn set_recursive(&mut self, value: bool)
        ensures
            *final(self) == (Config { recursive: value, ..*old(self) }),
    {
        self.recursive = value;
    }

    pub fn set_emit_mode(&mut self, value: EmitMode)
        ensures
            *final(self) == (Config { emit_mode: value, ..*old(self) }),
    {
        self.emit_mode = value;
    }

    pub fn set_print_misformatted_file_names(&mut self, value: bool)
        ensures
            *final(self) == (Config { print_misformatted_file_names: value, ..*old(self) }),
    {
        self.print_misformatted_file_names = value;
    }

    pub fn set_edition(&mut self, value: Edition)
        ensures
            *final(self) == (Config { edition: value, ..*old(self) }),
    {
        self.edition = value;
    }

    pub fn set_newline_style(&mut self, value: NewlineStyle)
        ensures
            *final(self) == (Config { newline_style: value, ..*old(self) }),
    {
        self.newline_style = value;
    }

    pub fn max_width(&self) -> (r: usize)
        ensures
            r == self.max_width,
    {
        self.max_width
    }

    pub fn tab_spaces(&self) -> (r: usize)
        ensures
            r == self.tab_spaces,
    {
        self.tab_spaces
    }

    pub fn hard_tabs(&self) -> (r: bool)
        ensures
            r == self.hard_tabs,
    {
        self.hard_tabs
    }
}


/// Whether `c` is an ASCII decimal digit.
pub open spec fn is_digit(c: char) -> bool {
    '0' <= c <= '9'
}

/// The number that the decimal digits `s` write.
pub open spec fn digits_value(s: Seq<char>) -> nat
    decreases s.len(),
{
    if s.len() == 0 {
        0
    } else {
        digits_value(s.drop_last()) * 10 + ((s.last() as nat) - 48) as nat
    }
}

/// What `str::parse::<usize>` gives: the number written by one or more decimal
/// digits after an optional `+`, where it fits in a `usize`.
pub open spec fn parsed_usize(s: Seq<char>) -> Option<nat> {
    let t = unsigned_part(s);
    if t.len() > 0 && all_digits(t) && digits_value(t) <= usize::MAX {
        Some(digits_value(t))
    } else {
        None
    }
}

/// `s` without a leading `+`.
pub open spec fn unsigned_part(s: Seq<char>) -> Seq<char> {
    if s.len() > 0 && s[0] == '+' {
        s.drop_first()
    } else {
        s
    }
}

/// Whether every character of `t` is a decimal digit.
pub open spec fn all_digits(t: Seq<char>) -> bool {
    forall|i: int| 0 <= i < t.len() ==> is_digit(#[trigger] t[i])
}

/// What `str::parse::<bool>` gives.
pub open spec fn parsed_bool(s: Seq<char>) -> Option<bool> {
    if s == "true"@ {
        Some(true)
    } else if s == "false"@ {
        Some(false)
    } else {
        None
    }
}

/// `str::parse::<usize>`.
pub fn parse_usize(s: &str) -> (r: Option<usize>)
    ensures
        match parsed_usize(s@) {
            Some(n) => r == Some(n as usize),
            None => r is None,
        },
{
    let n = s.unicode_len();
    let start: usize = if n > 0 && s.get_char(0) == '+' {
        1
    } else {
        0
    };
    let ghost t = unsigned_part(s@);
    assert(t =~= s@.skip(start as int));
    if start == n {
        return None;
    }
    let mut value: usize = 0;
    let mut i: usize = start;
    while i < n
        invariant
            start <= i <= n,
            n == s@.len(),
            t == s@.skip(start as int),
            t == unsigned_part(s@),
            forall|j: int| 0 <= j < i - start ==> is_digit(#[trigger] t[j]),
            value == digits_value(t.take(i - start)),
        decreases n - i,
    {
        let c = s.get_char(i);
        assert(t[i - start] == c);
        if !('0' <= c && c <= '9') {
            assert(!is_digit(t[i - start]));
            assert(!all_digits(t));
            assert(parsed_usize(s@) is None);
            return None;
        }
        assert(t.take(i + 1 - start).drop_last() =~= t.take(i - start));
        let d = (c as u32 - 48) as usize;
        if value > (usize::MAX - d) / 10 {
            proof {
                assert(value * 10 + d > usize::MAX) by (nonlinear_arith)
                    requires
                        value > (usize::MAX - d) / 10,
                        d <= 9,
                ;
                if all_digits(t) {
                    lemma_digits_value_prefix(t, i + 1 - start);
                }
            }
            return None;
        }
        proof {
            assert(value * 10 + d <= usize::MAX) by (nonlinear_arith)
                requires
                    value <= (usize::MAX - d) / 10,
                    d <= 9,
            ;
        }
        value = value * 10 + d;
        i = i + 1;
    }
    assert(t.take(i - start) =~= t);
    Some(value)
}

/// The number written by all the digits is at least that written by the first `k`.
proof fn lemma_digits_value_prefix(t: Seq<char>, k: int)
    requires
        0 <= k <= t.len(),
        forall|j: int| 0 <= j < t.len() ==> is_digit(#[trigger] t[j]),
    ensures
        digits_value(t.take(k)) <= digits_value(t),
    decreases t.len() - k,
{
    if k < t.len() {
        lemma_digits_value_prefix(t, k + 1);
        assert(t.take(k + 1).drop_last() =~= t.take(k));
        assert(is_digit(t[k]));
        assert(t.take(k + 1).last() == t[k]);
        assert(digits_value(t.take(k)) <= digits_value(t.take(k)) * 10) by (nonlinear_arith);
    } else {
        assert(t.take(k) =~= t);
    }
}

/// `str::parse::<bool>`.
pub fn parse_bool(s: &str) -> (r: Option<bool>)
    ensures
        r == parsed_bool(s@),
{
    proof {
        reveal_strlit("true");
        reveal_strlit("false");
    }
    if str_eq(s, "true") {
        Some(true)
    } else if str_eq(s, "false") {
        Some(false)
    } else {
        None
    }
}

/// The options whose value is a number.
pub open spec fn is_usize_option(name: Seq<char>) -> bool {
    name == "max_width"@ || name == "tab_spaces"@
}

/// The options whose value is `true` or `false`.
pub open spec fn is_bool_option(name: Seq<char>) -> bool {
    ||| name == "hard_tabs"@
    ||| name == "spaces_within_parens"@
    ||| name == "error_on_line_overflow"@
    ||| name == "error_on_line_overflow_comments"@
    ||| name == "error_on_unformatted"@
    ||| name == "recursive"@
    ||| name == "print_misformatted_file_names"@
}

/// Whether `key = val` sets an option: `key` names one, and `val` parses as a
/// value of its type.
pub open spec fn spec_is_valid_key_val(key: Seq<char>, val: Seq<char>) -> bool {
    if is_usize_option(key) {
        parsed_usize(val) is Some
    } else if is_bool_option(key) {
        parsed_bool(val) is Some
    } else {
        false
    }
}

/// The options left out of the documentation.
pub open spec fn is_hidden(name: Seq<char>) -> bool {
    ||| name == "verbose"@
    ||| name == "verbose_diff"@
    ||| name == "file_lines"@
    ||| name == "width_heuristics"@
    ||| name == "recursive"@
    ||| name == "print_misformatted_file_names"@
}

/// `config` with option `key` set to the value `val` parses to.
pub open spec fn with_override(config: Config, key: Seq<char>, val: Seq<char>) -> Config {
    if key == "max_width"@ {
        Config { max_width: parsed_usize(val)->0 as usize, ..config }
    } else if key == "tab_spaces"@ {
        Config { tab_spaces: parsed_usize(val)->0 as usize, ..config }
    } else if key == "hard_tabs"@ {
        Config { hard_tabs: parsed_bool(val)->0, ..config }
    } else if key == "spaces_within_parens"@ {
        Config { spaces_within_parens: parsed_bool(val)->0, ..config }
    } else if key == "error_on_line_overflow"@ {
        Config { error_on_line_overflow: parsed_bool(val)->0, ..config }
    } else if key == "error_on_line_overflow_comments"@ {
        Config { error_on_line_overflow_comments: parsed_bool(val)->0, ..config }
    } else if key == "error_on_unformatted"@ {
        Config { error_on_unformatted: parsed_bool(val)->0, ..config }
    } else if key == "recursive"@ {
        Config { recursive: parsed_bool(val)->0, ..config }
    } else {
        Config { print_misformatted_file_names: parsed_bool(val)->0, ..config }
    }
}

/// Whether `name` is one of `names`.
fn in_names(name: &str, names: &[&str]) -> (r: bool)
    ensures
        r == exists|i: int| 0 <= i < names@.len() && names@[i]@ == name@,
{
    let mut i: usize = 0;
    while i < names.len()
        invariant
            i <= names@.len(),
            forall|j: int| 0 <= j < i ==> names@[j]@ != name@,
        decreases names.len() - i,
    {
        if str_eq(names[i], name) {
            return true;
        }
        i = i + 1;
    }
    false
}

impl Config {
    /// Whether `name` names an option whose value is a number.
    fn is_usize_name(name: &str) -> (r: bool)
        ensures
            r == is_usize_option(name@),
    {
        proof {
            reveal_strlit("max_width");
            reveal_strlit("tab_spaces");
        }
        str_eq(name, "max_width") || str_eq(name, "tab_spaces")
    }

    /// Whether `name` names an option whose value is `true` or `false`.
    fn is_bool_name(name: &str) -> (r: bool)
        ensures
            r == is_bool_option(name@),
    {
        proof {
            reveal_strlit("hard_tabs");
            reveal_strlit("spaces_within_parens");
            reveal_strlit("error_on_line_overflow");
            reveal_strlit("error_on_line_overflow_comments");
            reveal_strlit("error_on_unformatted");
            reveal_strlit("recursive");
            reveal_strlit("print_misformatted_file_names");
        }
        str_eq(name, "hard_tabs") || str_eq(name, "spaces_within_parens") || str_eq(
            name,
            "error_on_line_overflow",
        ) || str_eq(name, "error_on_line_overflow_comments") || str_eq(
            name,
            "error_on_unformatted",
        ) || str_eq(name, "recursive") || str_eq(name, "print_misformatted_file_names")
    }

    /// Whether `name` names an option.
    pub fn is_valid_name(name: &str) -> (r: bool)
        ensures
            r == (is_usize_option(name@) || is_bool_option(name@)),
    {
        Config::is_usize_name(name) || Config::is_bool_name(name)
    }

    /// Whether `key = val` sets an option.
    pub fn is_valid_key_val(key: &str, val: &str) -> (r: bool)
        ensures
            r == spec_is_valid_key_val(key@, val@),
    {
        if Config::is_usize_name(key) {
            parse_usize(val).is_some()
        } else if Config::is_bool_name(key) {
            parse_bool(val).is_some()
        } else {
            false
        }
    }

    /// Sets option `key` to the value `val` parses to.
    #[verifier::rlimit(30)]
    pub fn override_value(&mut self, key: &str, val: &str)
        requires
            spec_is_valid_key_val(key@, val@),
        ensures
            *final(self) == with_override(*old(self), key@, val@),
    {
        proof {
            reveal_strlit("max_width");
            reveal_strlit("tab_spaces");
            reveal_strlit("hard_tabs");
            reveal_strlit("spaces_within_parens");
            reveal_strlit("error_on_line_overflow");
            reveal_strlit("error_on_line_overflow_comments");
            reveal_strlit("error_on_unformatted");
            reveal_strlit("recursive");
            reveal_strlit("print_misformatted_file_names");
        }
        if str_eq(key, "max_width") {
            self.max_width = parse_usize(val).unwrap();
        } else if str_eq(key, "tab_spaces") {
            self.tab_spaces = parse_usize(val).unwrap();
        } else {
            let b = parse_bool(val).unwrap();
            if str_eq(key, "hard_tabs") {
                self.hard_tabs = b;
            } else if str_eq(key, "spaces_within_parens") {
                self.spaces_within_parens = b;
            } else if str_eq(key, "error_on_line_overflow") {
                self.error_on_line_overflow = b;
            } else if str_eq(key, "error_on_line_overflow_comments") {
                self.error_on_line_overflow_comments = b;
            } else if str_eq(key, "error_on_unformatted") {
                self.error_on_unformatted = b;
            } else if str_eq(key, "recursive") {
                self.recursive = b;
            } else {
                self.print_misformatted_file_names = b;
            }
        }
    }

    /// Whether option `name` is left out of the documentation.
    pub fn is_hidden_option(name: &str) -> (r: bool)
        ensures
            r == is_hidden(name@),
    {
        let hide_options: [&str; 6] = [
            "verbose",
            "verbose_diff",
            "file_lines",
            "width_heuristics",
            "recursive",
            "print_misformatted_file_names",
        ];
        proof {
            reveal_strlit("verbose");
            reveal_strlit("verbose_diff");
            reveal_strlit("file_lines");
            reveal_strlit("width_heuristics");
            reveal_strlit("recursive");
            reveal_strlit("print_misformatted_file_names");
        }
        let r = in_names(name, &hide_options);
        assert(r == is_hidden(name@)) by {
            if is_hidden(name@) {
                if name@ == "verbose"@ {
                    assert(hide_options@[0]@ == name@);
                } else if name@ == "verbose_diff"@ {
                    assert(hide_options@[1]@ == name@);
                } else if name@ == "file_lines"@ {
                    assert(hide_options@[2]@ == name@);
                } else if name@ == "width_heuristics"@ {
                    assert(hide_options@[3]@ == name@);
                } else if name@ == "recursive"@ {
                    assert(hide_options@[4]@ == name@);
                } else {
                    assert(hide_options@[5]@ == name@);
                }
            }
        }
        r
    }
}

/// A type that an option's value can have, with the hint that the option's
/// documentation shows for it.
pub trait ConfigType: Sized {
    /// The hint text for the documentation of an option of this type.
    fn doc_hint() -> String;
}

impl ConfigType for bool {
    fn doc_hint() -> (r: String)
        ensures
            r@ == "<boolean>"@,
    {
        String::from_str("<boolean>")
    }
}

impl ConfigType for usize {
    fn doc_hint() -> (r: String)
        ensures
            r@ == "<unsigned integer>"@,
    {
        String::from_str("<unsigned integer>")
    }
}

impl ConfigType for isize {
    fn doc_hint() -> (r: String)
        ensures
            r@ == "<signed integer>"@,
    {
        String::from_str("<signed integer>")
    }
}

impl ConfigType for String {
    fn doc_hint() -> (r: String)
        ensures
            r@ == "<string>"@,
    {
        String::from_str("<string>")
    }
}

impl ConfigType for FileLines {
    fn doc_hint() -> (r: String)
        ensures
            r@ == "<json>"@,
    {
        String::from_str("<json>")
    }
}


/// The edition named `s`: `2015` or `2018`.
pub fn parse_edition(s: &str) -> (r: Option<Edition>)
    ensures
        r == (if s@ == "2015"@ {
            Some(Edition::Edition2015)
        } else if s@ == "2018"@ {
            Some(Edition::Edition2018)
        } else {
            None::<Edition>
        }),
{
    if str_eq(s, "2015") {
        Some(Edition::Edition2015)
    } else if str_eq(s, "2018") {
        Some(Edition::Edition2018)
    } else {
        None
    }
}

} // verus!
