//! The checks made on each line of a formatted file, with the errors they
//! report, and the bookkeeping of a formatting run.
use vstd::prelude::*;

use vstd::string::{StrSliceExecFns, StringExecFns};

use std::time::Instant;

use crate::config::{Config, Verbosity};
use crate::pattern::{regex_compiles, regex_is_match, regex_match, regex_new};
use crate::report::Issue;
use crate::text::{
    chars_of, is_whitespace_char, is_ws_char, last_where, lemma_last_where, non_ws_pred, utf8_len,
    lemma_utf8_len_concat, string_of_chars, trailing_line_feeds, lemma_drop_trailing_line_feeds,
};

verus! {

/// What went wrong while formatting or checking a file.
#[derive(Clone, Debug, PartialEq, Eq)]
pub enum ErrorKind {
    /// Line has exceeded character limit (found, maximum).
    LineOverflow(usize, usize),
    /// Line ends in whitespace.
    TrailingWhitespace,
    /// A to-do marker without an issue number.
    BadIssue(Issue),
    /// License check has failed.
    LicenseCheck,
    /// Used deprecated skip attribute.
    DeprecatedAttr,
    /// Used a rustfmt:: attribute other than skip.
    BadAttr,
    /// An io error during reading or writing, with its message.
    IoError(String),
    /// The version in the configuration does not match this formatter's.
    VersionMismatch,
    /// A comment could not be formatted and would have been lost.
    LostComment,
    /// The input could not be parsed.
    ParseError,
}

impl ErrorKind {
    /// Whether the error is about a comment.
    pub open spec fn spec_is_comment(&self) -> bool {
        self is LostComment
    }

    /// Whether the error is about a comment.
    pub fn is_comment(&self) -> (r: bool)
        ensures
            r == self.spec_is_comment(),
    {
        match self {
            ErrorKind::LostComment => true,
            _ => false,
        }
    }
}

/// A formatting error, found after formatting, on line `line`.
#[derive(Debug)]
pub struct FormattingError {
    pub line: usize,
    pub kind: ErrorKind,
    pub is_comment: bool,
    pub is_string: bool,
    pub line_buffer: String,
}

/// The number of bytes of `s` up to and including its last character that is
/// not white space, counting that character as one byte; 0 when there is none.
pub open spec fn trailing_ws_start(s: Seq<char>) -> int {
    let k = last_where(s, non_ws_pred());
    if k >= 0 {
        utf8_len(s.take(k)) + 1int
    } else {
        0
    }
}

impl FormattingError {
    /// The word that starts the message: an internal error for what the
    /// formatter could not do, an error for a failed check, a warning otherwise.
    pub fn msg_prefix(&self) -> (r: &'static str)
        ensures
            r@ == (match self.kind {
                ErrorKind::LineOverflow(..) | ErrorKind::TrailingWhitespace | ErrorKind::IoError(_)
                | ErrorKind::ParseError | ErrorKind::LostComment => "internal error:"@,
                ErrorKind::LicenseCheck | ErrorKind::BadAttr | ErrorKind::VersionMismatch => "error:"@,
                ErrorKind::BadIssue(_) | ErrorKind::DeprecatedAttr => "warning:"@,
            }),
    {
        match self.kind {
            ErrorKind::LineOverflow(..)
            | ErrorKind::TrailingWhitespace
            | ErrorKind::IoError(_)
            | ErrorKind::ParseError
            | ErrorKind::LostComment => "internal error:",
            ErrorKind::LicenseCheck | ErrorKind::BadAttr | ErrorKind::VersionMismatch => "error:",
            ErrorKind::BadIssue(_) | ErrorKind::DeprecatedAttr => "warning:",
        }
    }

    /// The note after the message: how to silence errors on comments and string
    /// literals, for an error on one.
    pub fn msg_suffix(&self) -> (r: &'static str)
        ensures
            r@ == (if self.is_comment || self.is_string {
                unformatted_note()
            } else {
                ""@
            }),
    {
        if self.is_comment || self.is_string {
            "set `error_on_unformatted = false` to suppress the warning against comments or string literals\n"
        } else {
            ""
        }
    }

    /// Where the mark under the line starts and how long it is, in bytes: for an
    /// overflow, after the maximum width up to the width found; for the errors
    /// that mark the end of a line, from `trailing_ws_start` to the end.
    pub fn format_len(&self) -> (r: (usize, usize))
        requires
            self.kind matches ErrorKind::LineOverflow(found, max) ==> found >= max,
            !(self.kind is IoError || self.kind is ParseError || self.kind is LicenseCheck
                || self.kind is VersionMismatch),
            utf8_len(self.line_buffer@) <= usize::MAX,
        ensures
            self.kind matches ErrorKind::LineOverflow(found, max) ==> r == (max, (found - max) as usize),
            !(self.kind is LineOverflow) ==> r.0 == trailing_ws_start(self.line_buffer@) && r.1
                == utf8_len(self.line_buffer@) - trailing_ws_start(self.line_buffer@),
    {
        match self.kind {
            ErrorKind::LineOverflow(found, max) => (max, found - max),
            _ => {
                let v = chars_of(self.line_buffer.as_str());
                let mut e: usize = v.len();
                while e > 0 && is_whitespace_char(v[e - 1])
                    invariant
                        e <= v@.len(),
                        v@ == self.line_buffer@,
                        forall|j: int| e <= j < v@.len() ==> is_ws_char(#[trigger] v@[j]),
                    decreases e,
                {
                    e = e - 1;
                }
                proof {
                    lemma_last_where(v@, non_ws_pred(), e - 1);
                }
                let ghost s = v@;
                let start: usize = if e == 0 {
                    0
                } else {
                    let pre = self.line_buffer.as_str().substring_char(0, e - 1);
                    proof {
                        assert(s =~= s.take(e - 1) + s.skip(e - 1));
                        lemma_utf8_len_concat(s.take(e - 1), s.skip(e - 1));
                        crate::text::lemma_byte_len_ge(s.skip(e - 1));
                    }
                    pre.len() + 1
                };
                (start, self.line_buffer.as_str().len() - start)
            },
        }
    }
}

/// The note shown under an error on a comment or a string literal.
pub open spec fn unformatted_note() -> Seq<char> {
    "set `error_on_unformatted = false` to suppress the warning against comments or string literals\n"@
}

/// What kinds of problem a run has met.
#[derive(Clone, Copy, Debug, Default, PartialEq, Eq, Structural)]
pub struct ReportedErrors {
    /// Encountered e.g. an IO error.
    pub has_operational_errors: bool,
    /// Failed to reformat code because of parsing errors.
    pub has_parsing_errors: bool,
    /// Code is valid, but it is impossible to format it properly.
    pub has_formatting_errors: bool,
    /// Code contains macro call that was unable to format.
    pub has_macro_format_failure: bool,
    /// Failed a check, such as the license check or other opt-in checking.
    pub has_check_errors: bool,
    /// Formatted code differs from existing code (--check only).
    pub has_diff: bool,
}

/// Two summaries combined: each kind of problem is met where either met it.
pub open spec fn combined(a: ReportedErrors, b: ReportedErrors) -> ReportedErrors {
    ReportedErrors {
        has_operational_errors: a.has_operational_errors || b.has_operational_errors,
        has_parsing_errors: a.has_parsing_errors || b.has_parsing_errors,
        has_formatting_errors: a.has_formatting_errors || b.has_formatting_errors,
        has_macro_format_failure: a.has_macro_format_failure || b.has_macro_format_failure,
        has_check_errors: a.has_check_errors || b.has_check_errors,
        has_diff: a.has_diff || b.has_diff,
    }
}

/// The summary that met no problem.
pub open spec fn no_errors() -> ReportedErrors {
    ReportedErrors {
        has_operational_errors: false,
        has_parsing_errors: false,
        has_formatting_errors: false,
        has_macro_format_failure: false,
        has_check_errors: false,
        has_diff: false,
    }
}

/// Combining summaries does not depend on their order or grouping, combining a
/// summary with itself changes nothing, and the summary that met no problem
/// changes nothing.
pub proof fn lemma_combined_laws(a: ReportedErrors, b: ReportedErrors, c: ReportedErrors)
    ensures
        combined(a, b) == combined(b, a),
        combined(combined(a, b), c) == combined(a, combined(b, c)),
        combined(a, a) == a,
        combined(a, no_errors()) == a,
{
}

impl ReportedErrors {
    /// No problem met.
    pub fn new() -> (r: ReportedErrors)
        ensures
            r == no_errors(),
    {
        ReportedErrors {
            has_operational_errors: false,
            has_parsing_errors: false,
            has_formatting_errors: false,
            has_macro_format_failure: false,
            has_check_errors: false,
            has_diff: false,
        }
    }

    /// Combines two summaries: each kind of problem is met where either met it.
    pub fn add(&mut self, other: &ReportedErrors)
        ensures
            *final(self) == combined(*old(self), *other),
            final(self).has_operational_errors == (old(self).has_operational_errors
                || other.has_operational_errors),
            final(self).has_parsing_errors == (old(self).has_parsing_errors
                || other.has_parsing_errors),
            final(self).has_formatting_errors == (old(self).has_formatting_errors
                || other.has_formatting_errors),
            final(self).has_macro_format_failure == (old(self).has_macro_format_failure
                || other.has_macro_format_failure),
            final(self).has_check_errors == (old(self).has_check_errors || other.has_check_errors),
            final(self).has_diff == (old(self).has_diff || other.has_diff),
    {
        self.has_operational_errors = self.has_operational_errors || other.has_operational_errors;
        self.has_parsing_errors = self.has_parsing_errors || other.has_parsing_errors;
        self.has_formatting_errors = self.has_formatting_errors || other.has_formatting_errors;
        self.has_macro_format_failure = self.has_macro_format_failure
            || other.has_macro_format_failure;
        self.has_check_errors = self.has_check_errors || other.has_check_errors;
        self.has_diff = self.has_diff || other.has_diff;
    }
}

/// Whether progress messages are shown: in verbose mode, when the input is not
/// read from standard input.
pub fn should_emit_verbose(is_stdin: bool, config: &Config) -> (r: bool)
    ensures
        r == (config.verbose == Verbosity::Verbose && !is_stdin),
{
    config.verbose == Verbosity::Verbose && !is_stdin
}


/// The class of a character of a source file: whether it is part of a comment,
/// and whether it is part of a string literal.
#[derive(Clone, Copy, Debug, PartialEq, Eq, Structural)]
pub struct CharClass {
    pub is_comment: bool,
    pub is_string: bool,
}

/// A `FormattingError` with its line as text.
pub struct ErrorView {
    pub line: int,
    pub kind: ErrorKind,
    pub is_comment: bool,
    pub is_string: bool,
    pub line_buffer: Seq<char>,
}

impl View for FormattingError {
    type V = ErrorView;

    open spec fn view(&self) -> ErrorView {
        ErrorView {
            line: self.line as int,
            kind: self.kind,
            is_comment: self.is_comment,
            is_string: self.is_string,
            line_buffer: self.line_buffer@,
        }
    }
}

pub open spec fn error_views(es: Seq<FormattingError>) -> Seq<ErrorView> {
    es.map_values(|e: FormattingError| e@)
}

/// Where the line checks stand after some of a file's characters.
pub struct LinesState {
    /// Whether the last character of the current line is white space.
    pub last_was_space: bool,
    /// The width of the current line, a tab counting `tab_spaces`.
    pub line_len: int,
    /// The current line, counted from 1.
    pub cur_line: int,
    /// The number of line feeds since the last other character, carriage returns not counted.
    pub newline_count: int,
    /// The errors found so far.
    pub errors: Seq<ErrorView>,
    /// The text of the current line.
    pub line_buffer: Seq<char>,
    /// Whether the current line holds part of a string literal.
    pub is_string: bool,
    /// Whether the current line is to be formatted.
    pub format_line: bool,
}

/// Whether line `line` is inside one of the ranges that are not formatted.
pub open spec fn in_skipped_range(skipped: Seq<(usize, usize)>, line: int) -> bool {
    exists|i: int| 0 <= i < skipped.len() && (#[trigger] skipped[i]).0 <= line <= skipped[i].1
}

/// Whether an error of kind `error_kind` at a character of class `char_kind`, on
/// a line that holds a string literal where `is_string`, is reported. Errors in
/// comments and string literals are reported only with `error_on_unformatted`;
/// overflowing lines only with `error_on_line_overflow`.
pub open spec fn reports_error(
    config: Config,
    is_string: bool,
    char_kind: CharClass,
    error_kind: ErrorKind,
) -> bool {
    let allow = if char_kind.is_comment || is_string || error_kind.spec_is_comment() {
        config.error_on_unformatted
    } else {
        true
    };
    match error_kind {
        ErrorKind::LineOverflow(..) => config.error_on_line_overflow && allow,
        ErrorKind::TrailingWhitespace | ErrorKind::LostComment => allow,
        _ => true,
    }
}

/// Where the line checks start on file `name`.
pub open spec fn lines_start(config: Config, name: Seq<char>) -> LinesState {
    LinesState {
        last_was_space: false,
        line_len: 0,
        cur_line: 1,
        newline_count: 0,
        errors: Seq::empty(),
        line_buffer: Seq::empty(),
        is_string: false,
        format_line: config.file_lines.spec_contains_line(name, 1),
    }
}

/// The end of a line whose line feed has class `kind`. On a line to be formatted
/// and not skipped, trailing white space is an error (and is not counted in the
/// width), then so is a width over the maximum, each where `reports_error` says
/// so. The next line starts.
pub open spec fn lines_new_line(
    st: LinesState,
    kind: CharClass,
    config: Config,
    name: Seq<char>,
    skipped: Seq<(usize, usize)>,
) -> LinesState {
    let skip = in_skipped_range(skipped, st.cur_line);
    let trailing = st.format_line && st.last_was_space;
    let tw = trailing && reports_error(config, st.is_string, kind, ErrorKind::TrailingWhitespace)
        && !skip;
    let errs1 = if tw {
        st.errors.push(
            ErrorView {
                line: st.cur_line,
                kind: ErrorKind::TrailingWhitespace,
                is_comment: kind.is_comment,
                is_string: kind.is_string,
                line_buffer: st.line_buffer,
            },
        )
    } else {
        st.errors
    };
    let len = if trailing {
        st.line_len - 1
    } else {
        st.line_len
    };
    let ek = ErrorKind::LineOverflow(len as usize, config.max_width);
    let ov = st.format_line && len > config.max_width && !skip && reports_error(
        config,
        st.is_string,
        kind,
        ek,
    );
    let errs2 = if ov {
        errs1.push(
            ErrorView {
                line: st.cur_line,
                kind: ek,
                is_comment: kind.is_comment,
                is_string: st.is_string,
                line_buffer: st.line_buffer,
            },
        )
    } else {
        errs1
    };
    LinesState {
        last_was_space: false,
        line_len: 0,
        cur_line: st.cur_line + 1,
        newline_count: st.newline_count + 1,
        errors: errs2,
        line_buffer: Seq::empty(),
        is_string: false,
        format_line: config.file_lines.spec_contains_line(name, st.cur_line + 1),
    }
}

/// A character other than a line break: the line gets wider, by `tab_spaces` for
/// a tab and by one otherwise.
pub open spec fn lines_char(st: LinesState, c: char, kind: CharClass, config: Config) -> LinesState {
    LinesState {
        newline_count: 0,
        line_len: st.line_len + if c == '\t' {
            config.tab_spaces as int
        } else {
            1
        },
        last_was_space: is_ws_char(c),
        line_buffer: st.line_buffer.push(c),
        is_string: st.is_string || kind.is_string,
        ..st
    }
}

/// One character of the line checks; carriage returns are passed over.
pub open spec fn lines_step(
    st: LinesState,
    c: char,
    kind: CharClass,
    config: Config,
    name: Seq<char>,
    skipped: Seq<(usize, usize)>,
) -> LinesState {
    if c == '\r' {
        st
    } else if c == '\n' {
        lines_new_line(st, kind, config, name, skipped)
    } else {
        lines_char(st, c, kind, config)
    }
}

/// The line checks after the characters `s`, of classes `kinds`, of file `name`,
/// starting from `st`.
pub open spec fn lines_scan(
    st: LinesState,
    s: Seq<char>,
    kinds: Seq<CharClass>,
    config: Config,
    name: Seq<char>,
    skipped: Seq<(usize, usize)>,
) -> LinesState
    decreases s.len(),
{
    if s.len() == 0 {
        st
    } else {
        lines_step(
            lines_scan(st, s.drop_last(), kinds, config, name, skipped),
            s.last(),
            kinds[s.len() - 1],
            config,
            name,
            skipped,
        )
    }
}

/// The license error, if the text does not match the license pattern.
pub open spec fn license_errors(config: Config, text: Seq<char>, line: int) -> Seq<ErrorView> {
    match config.license_template {
        Some(p) => if regex_compiles(p@) && !regex_match(p@, text) {
            seq![
                ErrorView {
                    line,
                    kind: ErrorKind::LicenseCheck,
                    is_comment: false,
                    is_string: false,
                    line_buffer: Seq::empty(),
                },
            ]
        } else {
            Seq::empty()
        },
        None => Seq::empty(),
    }
}


/// The state of the line checks of one file while they run.
struct FormatLines<'a> {
    name: &'a str,
    skipped_range: &'a [(usize, usize)],
    last_was_space: bool,
    line_len: usize,
    cur_line: usize,
    newline_count: usize,
    errors: Vec<FormattingError>,
    line_buffer: Vec<char>,
    is_string: bool,
    format_line: bool,
    config: &'a Config,
}

impl<'a> FormatLines<'a> {
    spec fn state(&self) -> LinesState {
        LinesState {
            last_was_space: self.last_was_space,
            line_len: self.line_len as int,
            cur_line: self.cur_line as int,
            newline_count: self.newline_count as int,
            errors: error_views(self.errors@),
            line_buffer: self.line_buffer@,
            is_string: self.is_string,
            format_line: self.format_line,
        }
    }

    fn new(name: &'a str, skipped_range: &'a [(usize, usize)], config: &'a Config) -> (r: Self)
        ensures
            r.state() == lines_start(*config, name@),
            r.name == name,
            r.skipped_range == skipped_range,
            r.config == config,
    {
        let format_line = config.file_lines.contains_line(name, 1);
        let r = FormatLines {
            name,
            skipped_range,
            last_was_space: false,
            line_len: 0,
            cur_line: 1,
            newline_count: 0,
            errors: Vec::new(),
            line_buffer: Vec::new(),
            is_string: false,
            format_line,
            config,
        };
        assert(r.state().errors =~= Seq::empty());
        r
    }

    /// Records an error of kind `kind` on the current line.
    fn push_err(&mut self, kind: ErrorKind, is_comment: bool, is_string: bool)
        ensures
            final(self).state() == (LinesState {
                errors: old(self).state().errors.push(
                    ErrorView {
                        line: old(self).cur_line as int,
                        kind,
                        is_comment,
                        is_string,
                        line_buffer: old(self).line_buffer@,
                    },
                ),
                ..old(self).state()
            }),
            final(self).name == old(self).name,
            final(self).skipped_range == old(self).skipped_range,
            final(self).config == old(self).config,
    {
        let line_buffer = string_of_chars(&self.line_buffer);
        let ghost before = self.errors@;
        self.errors.push(
            FormattingError { line: self.cur_line, kind, is_comment, is_string, line_buffer },
        );
        assert(error_views(self.errors@) =~= error_views(before).push(self.errors@.last()@));
    }

    /// Whether an error of kind `error_kind` at a character of class `char_kind`
    /// is reported on the current line.
    fn should_report_error(&self, char_kind: CharClass, error_kind: &ErrorKind) -> (r: bool)
        ensures
            r == reports_error(*self.config, self.is_string, char_kind, *error_kind),
    {
        let allow_error_report = if char_kind.is_comment || self.is_string
            || error_kind.is_comment() {
            self.config.error_on_unformatted
        } else {
            true
        };
        match error_kind {
            ErrorKind::LineOverflow(..) => self.config.error_on_line_overflow && allow_error_report,
            ErrorKind::TrailingWhitespace | ErrorKind::LostComment => allow_error_report,
            _ => true,
        }
    }

    /// Whether the current line is inside one of the ranges that are not formatted.
    fn is_skipped_line(&self) -> (r: bool)
        ensures
            r == in_skipped_range(self.skipped_range@, self.cur_line as int),
    {
        let mut i: usize = 0;
        while i < self.skipped_range.len()
            invariant
                i <= self.skipped_range@.len(),
                forall|j: int|
                    0 <= j < i ==> !((#[trigger] self.skipped_range@[j]).0 <= self.cur_line
                        <= self.skipped_range@[j].1),
            decreases self.skipped_range.len() - i,
        {
            let (lo, hi) = self.skipped_range[i];
            if lo <= self.cur_line && self.cur_line <= hi {
                assert(self.skipped_range@[i as int].0 <= self.cur_line <= self.skipped_range@[
                    i as int
                ].1);
                return true;
            }
            i = i + 1;
        }
        false
    }

    /// The end of the current line, whose line feed has class `kind`.
    fn new_line(&mut self, kind: CharClass)
        requires
            old(self).cur_line < usize::MAX,
            old(self).newline_count < usize::MAX,
            old(self).format_line && old(self).last_was_space ==> old(self).line_len >= 1,
        ensures
            final(self).state() == lines_new_line(
                old(self).state(),
                kind,
                *old(self).config,
                old(self).name@,
                old(self).skipped_range@,
            ),
            final(self).name == old(self).name,
            final(self).skipped_range == old(self).skipped_range,
            final(self).config == old(self).config,
    {
        let ghost st = self.state();
        if self.format_line {
            if self.last_was_space {
                if self.should_report_error(kind, &ErrorKind::TrailingWhitespace)
                    && !self.is_skipped_line() {
                    self.push_err(ErrorKind::TrailingWhitespace, kind.is_comment, kind.is_string);
                }
                self.line_len = self.line_len - 1;
            }
            let error_kind = ErrorKind::LineOverflow(self.line_len, self.config.max_width);
            if self.line_len > self.config.max_width && !self.is_skipped_line()
                && self.should_report_error(kind, &error_kind) {
                let is_string = self.is_string;
                self.push_err(error_kind, kind.is_comment, is_string);
            }
        }
        self.line_len = 0;
        self.cur_line = self.cur_line + 1;
        self.format_line = self.config.file_lines.contains_line(self.name, self.cur_line);
        self.newline_count = self.newline_count + 1;
        self.last_was_space = false;
        self.line_buffer = Vec::new();
        self.is_string = false;
        assert(self.state().line_buffer =~= Seq::<char>::empty());
    }

    /// A character other than a line break, of class `kind`.
    fn char(&mut self, c: char, kind: CharClass)
        requires
            old(self).line_len + old(self).config.tab_spaces + 1 <= usize::MAX,
        ensures
            final(self).state() == lines_char(old(self).state(), c, kind, *old(self).config),
            final(self).name == old(self).name,
            final(self).skipped_range == old(self).skipped_range,
            final(self).config == old(self).config,
    {
        self.newline_count = 0;
        self.line_len = self.line_len + if c == '\t' {
            self.config.tab_spaces
        } else {
            1
        };
        self.last_was_space = is_whitespace_char(c);
        self.line_buffer.push(c);
        if kind.is_string {
            self.is_string = true;
        }
    }

    /// Runs the line checks over the characters of `text`, the `i`th of class `kinds[i]`.
    fn iterate(&mut self, text: &str, kinds: &[CharClass])
        requires
            kinds@.len() == text@.len(),
            old(self).cur_line == 1,
            old(self).line_len == 0,
            old(self).newline_count == 0,
            !old(self).last_was_space,
            (text@.len() + 1) * (old(self).config.tab_spaces + 1) < usize::MAX,
            old(self).last_was_space ==> old(self).line_len >= 1,
            scan_safe(
                old(self).state(),
                text@,
                kinds@,
                *old(self).config,
                old(self).name@,
                old(self).skipped_range@,
            ),
        ensures
            final(self).state() == lines_scan(
                old(self).state(),
                text@,
                kinds@,
                *old(self).config,
                old(self).name@,
                old(self).skipped_range@,
            ),
            final(self).newline_count <= text@.len(),
            forall|j: int|
                text@.len() - final(self).newline_count <= j < text@.len() ==> (#[trigger] text@[j]
                    == '\n' || text@[j] == '\r'),
            final(self).name == old(self).name,
            final(self).skipped_range == old(self).skipped_range,
            final(self).config == old(self).config,
    {
        let ghost st0 = self.state();
        let ghost name = self.name;
        let ghost skipped = self.skipped_range;
        let ghost config = self.config;
        let chars = chars_of(text);
        let ghost s = chars@;
        let t = self.config.tab_spaces;
        let mut i: usize = 0;
        while i < chars.len()
            invariant
                s == chars@,
                s == text@,
                kinds@.len() == s.len(),
                i <= s.len(),
                self.name == name,
                self.skipped_range == skipped,
                self.config == config,
                t == config.tab_spaces,
                (s.len() + 1) * (t + 1) < usize::MAX,
                self.state() == lines_scan(st0, s.take(i as int), kinds@, *config, name@, skipped@),
                self.cur_line <= i + 1,
                self.newline_count <= i,
                self.line_len <= i * (t + 1),
                t >= 1 ==> (self.last_was_space ==> self.line_len >= 1),
                scan_safe(st0, s, kinds@, *config, name@, skipped@),
                forall|j: int|
                    i - self.newline_count <= j < i ==> (#[trigger] s[j] == '\n' || s[j] == '\r'),
            decreases s.len() - i,
        {
            let c = chars[i];
            let kind = kinds[i];
            proof {
                assert(i * (t + 1) + t + 1 == (i + 1) * (t + 1)) by (nonlinear_arith);
                assert((i + 1) * (t + 1) <= (s.len() + 1) * (t + 1)) by (nonlinear_arith)
                    requires
                        i + 1 <= s.len() + 1,
                        t >= 0,
                ;
                assert(i + 1 <= (i + 1) * (t + 1)) by (nonlinear_arith)
                    requires
                        t >= 0,
                        i >= 0,
                ;
            }
            if c == '\r' {
            } else if c == '\n' {
                assert(s[i as int] == '\n');
                self.new_line(kind);
            } else {
                self.char(c, kind);
            }
            assert(s.take(i + 1).drop_last() =~= s.take(i as int));
            i = i + 1;
        }
        assert(s.take(i as int) =~= s);
    }

    /// Checks the text against the license pattern, if there is one.
    fn check_license(&mut self, text: &str)
        ensures
            final(self).state() == (LinesState {
                errors: old(self).state().errors + license_errors(*old(self).config, text@, old(self).cur_line as int),
                ..old(self).state()
            }),
            final(self).name == old(self).name,
            final(self).skipped_range == old(self).skipped_range,
            final(self).config == old(self).config,
    {
        let ghost st = self.state();
        match &self.config.license_template {
            Some(pattern) => {
                let m = match regex_new(pattern.as_str()) {
                    Some(re) => Some(regex_is_match(&re, text)),
                    None => None,
                };
                match m {
                    Some(false) => {
                        let ghost before = self.errors@;
                        self.errors.push(
                            FormattingError {
                                line: self.cur_line,
                                kind: ErrorKind::LicenseCheck,
                                is_comment: false,
                                is_string: false,
                                line_buffer: String::new(),
                            },
                        );
                        assert(error_views(self.errors@) =~= st.errors + license_errors(
                            *self.config,
                            text@,
                            self.cur_line as int,
                        ));
                    },
                    _ => {
                        assert(st.errors + license_errors(*self.config, text@, self.cur_line as int) =~= st.errors);
                    },
                }
            },
            None => {
                assert(st.errors + license_errors(*self.config, text@, self.cur_line as int) =~= st.errors);
            },
        }
    }
}


/// The state of the line checks of file `name` with text `text` before its
/// first character: the license error, if any, already recorded.
pub open spec fn checked_start(config: Config, name: Seq<char>, text: Seq<char>) -> LinesState {
    LinesState { errors: license_errors(config, text, 1), ..lines_start(config, name) }
}

/// Whether a line that is checked ends in white space of no width at all (with
/// `tab_spaces` zero, only tabs): the width of the trailing white space is then
/// taken from a width of zero, below zero.
pub open spec fn ends_in_widthless_space(st: LinesState) -> bool {
    st.format_line && st.last_was_space && st.line_len == 0
}

/// Whether the line checks over `s`, from `st`, meet no line break after white
/// space of no width.
pub open spec fn scan_safe(
    st: LinesState,
    s: Seq<char>,
    kinds: Seq<CharClass>,
    config: Config,
    name: Seq<char>,
    skipped: Seq<(usize, usize)>,
) -> bool {
    forall|i: int|
        0 <= i < s.len() && #[trigger] s[i] == '\n' ==> !ends_in_widthless_space(
            lines_scan(st, s.take(i), kinds, config, name, skipped),
        )
}

/// With tabs of some width, white space always has width: the checks keep a
/// line that ends in white space at least one column wide.
proof fn lemma_scan_keeps_space_width(
    st: LinesState,
    s: Seq<char>,
    kinds: Seq<CharClass>,
    config: Config,
    name: Seq<char>,
    skipped: Seq<(usize, usize)>,
)
    requires
        config.tab_spaces >= 1,
        st.line_len >= 0,
        st.last_was_space ==> st.line_len >= 1,
    ensures
        lines_scan(st, s, kinds, config, name, skipped).line_len >= 0,
        lines_scan(st, s, kinds, config, name, skipped).last_was_space ==> lines_scan(
            st,
            s,
            kinds,
            config,
            name,
            skipped,
        ).line_len >= 1,
    decreases s.len(),
{
    if s.len() > 0 {
        lemma_scan_keeps_space_width(st, s.drop_last(), kinds, config, name, skipped);
    }
}

/// With tabs of some width, no line ends in white space of no width.
pub proof fn lemma_scan_safe_with_tabs(
    st: LinesState,
    s: Seq<char>,
    kinds: Seq<CharClass>,
    config: Config,
    name: Seq<char>,
    skipped: Seq<(usize, usize)>,
)
    requires
        config.tab_spaces >= 1,
        st.line_len >= 0,
        st.last_was_space ==> st.line_len >= 1,
    ensures
        scan_safe(st, s, kinds, config, name, skipped),
{
    assert forall|i: int| 0 <= i < s.len() && #[trigger] s[i] == '\n' implies !ends_in_widthless_space(
        lines_scan(st, s.take(i), kinds, config, name, skipped),
    ) by {
        lemma_scan_keeps_space_width(st, s.take(i), kinds, config, name, skipped);
    }
}

/// The line checks of file `name` with text `text`, the `i`th character of class
/// `kinds[i]`: the license check first, then each character in turn.
pub open spec fn checked_lines(
    config: Config,
    name: Seq<char>,
    skipped: Seq<(usize, usize)>,
    text: Seq<char>,
    kinds: Seq<CharClass>,
) -> LinesState {
    lines_scan(
        checked_start(config, name, text),
        text,
        kinds,
        config,
        name,
        skipped,
    )
}

/// The checks made line by line on the formatted text of file `name`, whose
/// `i`th character has class `kinds[i]`; lines in `skipped_range` are not
/// checked. Returns the errors found: a failed license check, then trailing
/// white space and lines wider than the maximum, line by line. Of the line feeds
/// at the end of the text, all but one are removed.
pub fn format_lines(
    text: &mut String,
    kinds: &[CharClass],
    name: &str,
    skipped_range: &[(usize, usize)],
    config: &Config,
) -> (errors: Vec<FormattingError>)
    requires
        kinds@.len() == old(text)@.len(),
        (old(text)@.len() + 1) * (config.tab_spaces + 1) < usize::MAX,
        scan_safe(
            checked_start(*config, name@, old(text)@),
            old(text)@,
            kinds@,
            *config,
            name@,
            skipped_range@,
        ),
    ensures
        error_views(errors@) == checked_lines(
            *config,
            name@,
            skipped_range@,
            old(text)@,
            kinds@,
        ).errors,
        final(text)@ == ({
            let nc = checked_lines(*config, name@, skipped_range@, old(text)@, kinds@).newline_count;
            if nc > 1 {
                old(text)@.take(old(text)@.len() - (nc - 1))
            } else {
                old(text)@
            }
        }),
{
    let mut formatter = FormatLines::new(name, skipped_range, config);
    formatter.check_license(text.as_str());
    formatter.iterate(text.as_str(), kinds);
    let nc = formatter.newline_count;
    if nc > 1 {
        let n = text.as_str().unicode_len();
        let kept = String::from_str(text.as_str().substring_char(0, n - (nc - 1)));
        *text = kept;
    }
    formatter.errors
}


#[verifier::external_type_specification]
#[verifier::external_body]
pub struct ExInstant(Instant);

/// `Instant::now()`: the current time. Nothing is stated of it.
#[verifier::external_body]
fn instant_now() -> Instant {
    Instant::now()
}

/// The times at which the phases of a run ended.
#[derive(Clone, Copy, Debug)]
pub enum Timer {
    Disabled,
    Initialized(Instant),
    DoneParsing(Instant, Instant),
    DoneFormatting(Instant, Instant, Instant),
}

impl Timer {
    /// Starts timing a run now.
    pub fn start() -> (r: Timer)
        ensures
            r is Initialized,
    {
        Timer::Initialized(instant_now())
    }

    /// Parsing is done: the start time is kept and the end of parsing is now.
    pub fn done_parsing(self) -> (r: Timer)
        requires
            self is Disabled || self is Initialized,
        ensures
            self is Disabled ==> r is Disabled,
            self matches Timer::Initialized(init) ==> (r matches Timer::DoneParsing(i, _) && i
                == init),
    {
        match self {
            Timer::Initialized(init_time) => Timer::DoneParsing(init_time, instant_now()),
            _ => Timer::Disabled,
        }
    }

    /// Formatting is done: the earlier times are kept and the end of formatting is now.
    pub fn done_formatting(self) -> (r: Timer)
        requires
            self is Disabled || self is DoneParsing,
        ensures
            self is Disabled ==> r is Disabled,
            self matches Timer::DoneParsing(init, parse) ==> (r matches Timer::DoneFormatting(
                i,
                p,
                _,
            ) && i == init && p == parse),
    {
        match self {
            Timer::DoneParsing(init_time, parse_time) => Timer::DoneFormatting(
                init_time,
                parse_time,
                instant_now(),
            ),
            _ => Timer::Disabled,
        }
    }
}


/// The line feeds the line checks count at the end of a text are those at its
/// end, carriage returns among them not counted.
pub proof fn lemma_lines_newline_count(
    st: LinesState,
    s: Seq<char>,
    kinds: Seq<CharClass>,
    config: Config,
    name: Seq<char>,
    skipped: Seq<(usize, usize)>,
)
    requires
        st.newline_count == 0,
    ensures
        lines_scan(st, s, kinds, config, name, skipped).newline_count == trailing_line_feeds(s),
    decreases s.len(),
{
    if s.len() > 0 {
        lemma_lines_newline_count(st, s.drop_last(), kinds, config, name, skipped);
    }
}

/// On a text without carriage returns, the line checks leave at most one line
/// feed at its end, so checking the checked text again leaves it as it is.
pub proof fn lemma_format_lines_idempotent(
    config: Config,
    name: Seq<char>,
    skipped: Seq<(usize, usize)>,
    s: Seq<char>,
    kinds: Seq<CharClass>,
    kinds2: Seq<CharClass>,
)
    requires
        forall|i: int| 0 <= i < s.len() ==> s[i] != '\r',
    ensures
        ({
            let nc = checked_lines(config, name, skipped, s, kinds).newline_count;
            let t = if nc > 1 {
                s.take(s.len() - (nc - 1))
            } else {
                s
            };
            &&& trailing_line_feeds(t) <= 1
            &&& checked_lines(config, name, skipped, t, kinds2).newline_count <= 1
        }),
{
    let st0 = LinesState { errors: license_errors(config, s, 1), ..lines_start(config, name) };
    lemma_lines_newline_count(st0, s, kinds, config, name, skipped);
    let nc = trailing_line_feeds(s);
    let t = if nc > 1 {
        s.take(s.len() - (nc - 1))
    } else {
        s
    };
    if nc > 1 {
        lemma_drop_trailing_line_feeds(s, (nc - 1) as nat);
    }
    let st1 = LinesState { errors: license_errors(config, t, 1), ..lines_start(config, name) };
    lemma_lines_newline_count(st1, t, kinds2, config, name, skipped);
}

/// What the line checks record after the license check: each error is on a
/// line to be formatted and outside the skipped ranges, and is trailing white
/// space or an overflow past the configured maximum, reported only when
/// overflow errors are on.
pub open spec fn lines_ok(
    st: LinesState,
    config: Config,
    name: Seq<char>,
    skipped: Seq<(usize, usize)>,
    from: int,
) -> bool {
    &&& st.format_line == config.file_lines.spec_contains_line(name, st.cur_line)
    &&& 0 <= st.line_len
    &&& config.tab_spaces >= 1 ==> (st.last_was_space ==> st.line_len >= 1)
    &&& forall|i: int|
        from <= i < st.errors.len() ==> {
            let e = #[trigger] st.errors[i];
            &&& config.file_lines.spec_contains_line(name, e.line)
            &&& !in_skipped_range(skipped, e.line)
            &&& e.kind is TrailingWhitespace || (e.kind matches ErrorKind::LineOverflow(found, max)
                && max == config.max_width && found > max && config.error_on_line_overflow)
            &&& e.is_comment ==> config.error_on_unformatted
        }
}

/// The line checks only record what `lines_ok` allows.
pub proof fn lemma_lines_scan_ok(
    st: LinesState,
    s: Seq<char>,
    kinds: Seq<CharClass>,
    config: Config,
    name: Seq<char>,
    skipped: Seq<(usize, usize)>,
)
    requires
        lines_ok(st, config, name, skipped, st.errors.len() as int),
        kinds.len() >= s.len(),
        st.line_len + s.len() * (config.tab_spaces + 1) <= usize::MAX,
    ensures
        lines_scan(st, s, kinds, config, name, skipped).line_len <= st.line_len + s.len() * (
        config.tab_spaces + 1),
        lines_ok(
            lines_scan(st, s, kinds, config, name, skipped),
            config,
            name,
            skipped,
            st.errors.len() as int,
        ),
        lines_scan(st, s, kinds, config, name, skipped).errors.len() >= st.errors.len(),
        lines_scan(st, s, kinds, config, name, skipped).errors.take(st.errors.len() as int)
            == st.errors,
    decreases s.len(),
{
    if s.len() > 0 {
        assert(st.line_len + (s.len() - 1) * (config.tab_spaces + 1) + config.tab_spaces + 1
            == st.line_len + s.len() * (config.tab_spaces + 1)) by (nonlinear_arith);
        lemma_lines_scan_ok(st, s.drop_last(), kinds, config, name, skipped);
        let p = lines_scan(st, s.drop_last(), kinds, config, name, skipped);
        let nx = lines_scan(st, s, kinds, config, name, skipped);
        assert forall|i: int| st.errors.len() <= i < nx.errors.len() implies {
            let e = #[trigger] nx.errors[i];
            &&& config.file_lines.spec_contains_line(name, e.line)
            &&& !in_skipped_range(skipped, e.line)
            &&& e.kind is TrailingWhitespace || (e.kind matches ErrorKind::LineOverflow(found, max)
                && max == config.max_width && found > max && config.error_on_line_overflow)
            &&& e.is_comment ==> config.error_on_unformatted
        } by {
            if i < p.errors.len() {
                assert(nx.errors[i] == p.errors[i]);
            }
        }
        assert(nx.errors.take(st.errors.len() as int) =~= st.errors) by {
            assert forall|i: int| 0 <= i < st.errors.len() implies nx.errors[i] == st.errors[i] by {
                assert(p.errors.take(st.errors.len() as int)[i] == st.errors[i]);
                assert(nx.errors[i] == p.errors[i]);
            }
        }
    }
}

/// The errors of the line checks: the license error first, if any; after it,
/// each is on a line to be formatted and outside the skipped ranges, and is
/// trailing white space or an overflow past the configured maximum width,
/// reported only when overflow errors are on; an error in a comment is only
/// reported with `error_on_unformatted`.
pub proof fn lemma_checked_lines_ok(
    config: Config,
    name: Seq<char>,
    skipped: Seq<(usize, usize)>,
    s: Seq<char>,
    kinds: Seq<CharClass>,
)
    requires
        kinds.len() == s.len(),
        s.len() * (config.tab_spaces + 1) <= usize::MAX,
    ensures
        ({
            let errs = checked_lines(config, name, skipped, s, kinds).errors;
            let l = license_errors(config, s, 1);
            &&& errs.take(l.len() as int) == l
            &&& forall|i: int|
                l.len() <= i < errs.len() ==> {
                    let e = #[trigger] errs[i];
                    &&& config.file_lines.spec_contains_line(name, e.line)
                    &&& !in_skipped_range(skipped, e.line)
                    &&& e.kind is TrailingWhitespace || (e.kind matches ErrorKind::LineOverflow(
                        found,
                        max,
                    ) && max == config.max_width && found > max && config.error_on_line_overflow)
                    &&& e.is_comment ==> config.error_on_unformatted
                }
        }),
{
    let st0 = LinesState { errors: license_errors(config, s, 1), ..lines_start(config, name) };
    lemma_lines_scan_ok(st0, s, kinds, config, name, skipped);
}

} // verus!
