//! The checks made on formatted text line by line, and the report of what they find.
use vstd::prelude::*;

use vstd::string::{StrSliceExecFns, StringExecFns};

use crate::buffer::{buffer_chars, buffer_len, buffer_ok, buffer_text, buffer_truncate};
use crate::config::{all_digits, digits_value, is_digit, parsed_usize, str_eq, unsigned_part, Config};
use strings::string_buffer::StringBuffer;
use crate::shape::repeat_char;
use crate::text::{
    chars_of, is_whitespace_char, is_ws_char, last_where, lemma_last_where, non_ws_pred,
    push_char, string_of_chars, utf8_len, lemma_utf8_len_concat, lemma_ascii_utf8_len,
    trailing_line_feeds, lemma_drop_trailing_line_feeds,
};

verus! {

/// The kind of a to-do marker.
#[derive(Clone, Copy, Debug, PartialEq, Eq, Structural)]
pub enum IssueType {
    Todo,
    Fixme,
}

/// A to-do marker found in a comment.
#[derive(Clone, Copy, Debug, PartialEq, Eq, Structural)]
pub struct Issue {
    pub issue_type: IssueType,
    pub missing_number: bool,
}

/// What is wrong with a line of formatted text.
#[derive(Clone, Copy, Debug, PartialEq, Eq, Structural)]
pub enum ErrorKind {
    /// Line has exceeded character limit (found, maximum)
    LineOverflow(usize, usize),
    /// Line ends in whitespace
    TrailingWhitespace,
    /// A to-do marker without an issue number
    BadIssue(Issue),
}

/// A formatting error, identified after formatting, on line `line`.
#[derive(Debug)]
pub struct FormattingError {
    pub line: usize,
    pub kind: ErrorKind,
    pub is_comment: bool,
    pub line_buffer: String,
}

/// A `FormattingError` with its line as text.
pub struct ErrorView {
    pub line: int,
    pub kind: ErrorKind,
    pub is_comment: bool,
    pub line_buffer: Seq<char>,
}

impl View for FormattingError {
    type V = ErrorView;

    open spec fn view(&self) -> ErrorView {
        ErrorView {
            line: self.line as int,
            kind: self.kind,
            is_comment: self.is_comment,
            line_buffer: self.line_buffer@,
        }
    }
}

pub open spec fn error_views(es: Seq<FormattingError>) -> Seq<ErrorView> {
    es.map_values(|e: FormattingError| e@)
}

/// The number of white space characters at the end of `s`.
pub open spec fn trailing_ws_count(s: Seq<char>) -> int {
    s.len() - (last_where(s, non_ws_pred()) + 1)
}


/// An error whose mark can be drawn: an overflow is at least its maximum, and
/// the line's bytes can be counted.
pub open spec fn error_ok(e: ErrorView) -> bool {
    &&& e.kind matches ErrorKind::LineOverflow(found, max) ==> found >= max
    &&& utf8_len(e.line_buffer) <= usize::MAX
}

/// Where the mark under an error's line starts and how long it is, in bytes:
/// for an overflow, after the maximum width up to the width found; for trailing
/// white space, over that white space; nothing for a to-do marker.
pub open spec fn format_len_of(e: ErrorView) -> (int, int) {
    match e.kind {
        ErrorKind::LineOverflow(found, max) => (max as int, found - max),
        ErrorKind::TrailingWhitespace => (
            utf8_len(e.line_buffer) - trailing_ws_count(e.line_buffer),
            trailing_ws_count(e.line_buffer),
        ),
        ErrorKind::BadIssue(_) => (0, 0),
    }
}

/// The word that starts an error's message.
pub open spec fn prefix_text(kind: ErrorKind) -> Seq<char> {
    if kind is BadIssue {
        "WARNING:"@
    } else {
        "error:"@
    }
}

/// The note after an error's message.
pub open spec fn suffix_text(e: ErrorView) -> Seq<char> {
    if e.kind is LineOverflow && e.is_comment {
        overflow_note()
    } else {
        Seq::empty()
    }
}

impl FormattingError {
    /// The word that starts the message: an error for an overflowing line or
    /// trailing white space, a warning for a to-do marker.
    pub fn msg_prefix(&self) -> (r: &'static str)
        ensures
            r@ == prefix_text(self.kind),
    {
        match self.kind {
            ErrorKind::LineOverflow(..) | ErrorKind::TrailingWhitespace => "error:",
            ErrorKind::BadIssue(_) => "WARNING:",
        }
    }

    /// The note after the message: how to silence overflow errors on comment lines.
    pub fn msg_suffix(&self) -> (r: String)
        ensures
            r@ == suffix_text(self@),
    {
        match self.kind {
            ErrorKind::LineOverflow(..) => {
                if self.is_comment {
                    String::from_str(overflow_comment_note())
                } else {
                    String::new()
                }
            },
            _ => String::new(),
        }
    }

    /// Where the mark under the line starts and how long it is: after the
    /// maximum width for an overflow, over the trailing white space for trailing
    /// white space, nothing for a to-do marker.
    pub fn format_len(&self) -> (r: (usize, usize))
        requires
            error_ok(self@),
        ensures
            (r.0 as int, r.1 as int) == format_len_of(self@),
    {
        match self.kind {
            ErrorKind::LineOverflow(found, max) => (max, found - max),
            ErrorKind::TrailingWhitespace => {
                let v = chars_of(self.line_buffer.as_str());
                let mut e: usize = v.len();
                while e > 0 && is_whitespace_char(v[e - 1])
                    invariant
                        e <= v@.len(),
                        v@ == self.line_buffer@,
                        forall|j: int| e <= j < v@.len() ==> is_ws_char(#[trigger] v@[j]),
                    decreases e,
                {
                    e = e - 1;
                }
                proof {
                    lemma_last_where(v@, non_ws_pred(), e - 1);
                    crate::text::lemma_byte_len_ge(self.line_buffer@);
                }
                let trailing_ws_len = v.len() - e;
                (self.line_buffer.as_str().len() - trailing_ws_len, trailing_ws_len)
            },
            _ => (0, 0),
        }
    }
}

/// The note shown under an overflowing comment line.
pub open spec fn overflow_note() -> Seq<char> {
    "use `error_on_line_overflow_comments = false` to suppress the warning against line comments\n"@
}

/// The note shown under an overflowing comment line.
pub fn overflow_comment_note() -> (r: &'static str)
    ensures
        r@ == overflow_note(),
{
    "use `error_on_line_overflow_comments = false` to suppress the warning against line comments\n"
}


/// The character of the decimal digit `d`.
pub open spec fn digit_char(d: nat) -> char {
    ((d + 48) as u32) as char
}

/// The decimal numeral of `n`, as `usize`'s `Display` writes it.
pub open spec fn decimal(n: nat) -> Seq<char>
    decreases n,
{
    if n < 10 {
        seq![digit_char(n)]
    } else {
        decimal(n / 10).push(digit_char(n % 10))
    }
}

/// A numeral has at most one digit more than a tenth of its number.
pub proof fn lemma_decimal_len(n: nat)
    ensures
        1 <= decimal(n).len() <= 1 + n / 10,
    decreases n,
{
    if n >= 10 {
        lemma_decimal_len(n / 10);
        assert(n / 10 / 10 + 1 <= n / 10);
    }
}

/// The decimal numeral of `n`.
pub fn decimal_text(n: usize) -> (r: String)
    ensures
        r@ == decimal(n as nat),
    decreases n,
{
    if n < 10 {
        let mut s = String::new();
        push_char(&mut s, ((n as u8) + 48) as char);
        s
    } else {
        let mut s = decimal_text(n / 10);
        push_char(&mut s, (((n % 10) as u8) + 48) as char);
        s
    }
}

/// The text of a to-do marker: its kind, and whether its issue number is missing.
pub open spec fn issue_text(issue: Issue) -> Seq<char> {
    (match issue.issue_type {
        IssueType::Todo => "TODO"@,
        IssueType::Fixme => "FIXME"@,
    }) + if issue.missing_number {
        " without issue number"@
    } else {
        ""@
    }
}

/// The message of an error kind.
pub open spec fn kind_text(kind: ErrorKind) -> Seq<char> {
    match kind {
        ErrorKind::LineOverflow(found, maximum) => "line exceeded maximum width (maximum: "@ + decimal(
            maximum as nat,
        ) + ", found: "@ + decimal(found as nat) + ")"@,
        ErrorKind::TrailingWhitespace => "left behind trailing whitespace"@,
        ErrorKind::BadIssue(issue) => "found "@ + issue_text(issue),
    }
}

impl Issue {
    /// The marker's text, such as `TODO without issue number`.
    pub fn to_text(&self) -> (r: String)
        ensures
            r@ == issue_text(*self),
    {
        let mut r = match self.issue_type {
            IssueType::Todo => String::from_str("TODO"),
            IssueType::Fixme => String::from_str("FIXME"),
        };
        if self.missing_number {
            r.append(" without issue number");
        }
        proof {
            reveal_strlit("TODO");
            reveal_strlit("FIXME");
            reveal_strlit(" without issue number");
            reveal_strlit("");
        }
        assert(r@ =~= issue_text(*self));
        r
    }
}

impl ErrorKind {
    /// The message of this kind of error.
    pub fn to_text(&self) -> (r: String)
        ensures
            r@ == kind_text(*self),
    {
        match self {
            ErrorKind::LineOverflow(found, maximum) => {
                let mut r = String::from_str("line exceeded maximum width (maximum: ");
                let m = decimal_text(*maximum);
                r.append(m.as_str());
                r.append(", found: ");
                let f = decimal_text(*found);
                r.append(f.as_str());
                r.append(")");
                r
            },
            ErrorKind::TrailingWhitespace => String::from_str("left behind trailing whitespace"),
            ErrorKind::BadIssue(issue) => {
                let mut r = String::from_str("found ");
                let t = issue.to_text();
                r.append(t.as_str());
                r
            },
        }
    }
}

/// The mark under an erroneous line: `space_len` spaces, then `target_len` carets.
pub open spec fn target_text(space_len: nat, target_len: nat) -> Seq<char> {
    repeat_char(' ', space_len) + repeat_char('^', target_len)
}

/// The mark under an erroneous line: `space_len` spaces, then `target_len` carets.
pub fn target_str(space_len: usize, target_len: usize) -> (r: String)
    ensures
        r@ == target_text(space_len as nat, target_len as nat),
{
    let mut r = String::new();
    let mut i: usize = 0;
    while i < space_len
        invariant
            i <= space_len,
            r@ == repeat_char(' ', i as nat),
        decreases space_len - i,
    {
        push_char(&mut r, ' ');
        assert(r@ =~= repeat_char(' ', (i + 1) as nat));
        i = i + 1;
    }
    let mut j: usize = 0;
    while j < target_len
        invariant
            j <= target_len,
            r@ == repeat_char(' ', space_len as nat) + repeat_char('^', j as nat),
        decreases target_len - j,
    {
        push_char(&mut r, '^');
        assert(r@ =~= repeat_char(' ', space_len as nat) + repeat_char('^', (j + 1) as nat));
        j = j + 1;
    }
    r
}


/// A file's name and its errors, as text and views.
pub type EntryView = (Seq<char>, Seq<ErrorView>);

/// The view of the entries of a report.
pub open spec fn entry_views(v: Seq<(String, Vec<FormattingError>)>) -> Seq<EntryView> {
    v.map_values(|p: (String, Vec<FormattingError>)| (p.0@, error_views(p.1@)))
}

/// No file is named twice.
pub open spec fn names_distinct(es: Seq<EntryView>) -> bool {
    forall|i: int, j: int| 0 <= i < j < es.len() ==> (#[trigger] es[i]).0 != (#[trigger] es[j]).0
}

/// The position of the entry of file `name`, or `es.len()` when there is none.
pub open spec fn name_index(es: Seq<EntryView>, name: Seq<char>) -> int
    decreases es.len(),
{
    if es.len() == 0 {
        0
    } else if es[0].0 == name {
        0
    } else {
        1 + name_index(es.drop_first(), name)
    }
}

/// The errors recorded for file `name`, if any are.
pub open spec fn lookup(es: Seq<EntryView>, name: Seq<char>) -> Option<Seq<ErrorView>> {
    let i = name_index(es, name);
    if i < es.len() {
        Some(es[i].1)
    } else {
        None
    }
}

/// The entries after recording `errs` for file `name`: the file's entry is
/// replaced where it exists, else added at the end.
pub open spec fn with_entry(es: Seq<EntryView>, name: Seq<char>, errs: Seq<ErrorView>) -> Seq<
    EntryView,
> {
    let i = name_index(es, name);
    if i < es.len() {
        es.update(i, (name, errs))
    } else {
        es.push((name, errs))
    }
}

/// The number of errors over all files.
pub open spec fn total_errors(es: Seq<EntryView>) -> nat
    decreases es.len(),
{
    if es.len() == 0 {
        0
    } else {
        total_errors(es.drop_last()) + es.last().1.len()
    }
}

/// `name_index` finds the first entry named `name`.
pub proof fn lemma_name_index(es: Seq<EntryView>, name: Seq<char>)
    ensures
        0 <= name_index(es, name) <= es.len(),
        forall|j: int| 0 <= j < name_index(es, name) ==> (#[trigger] es[j]).0 != name,
        name_index(es, name) < es.len() ==> es[name_index(es, name)].0 == name,
    decreases es.len(),
{
    if es.len() > 0 && es[0].0 != name {
        lemma_name_index(es.drop_first(), name);
        assert forall|j: int| 0 <= j < name_index(es, name) implies (#[trigger] es[j]).0 != name by {
            if j > 0 {
                assert(es[j] == es.drop_first()[j - 1]);
            }
        }
    }
}

/// The position `k` of an entry named `name` with none before it is what `name_index` gives.
pub proof fn lemma_name_index_at(es: Seq<EntryView>, name: Seq<char>, k: int)
    requires
        0 <= k <= es.len(),
        forall|j: int| 0 <= j < k ==> (#[trigger] es[j]).0 != name,
        k < es.len() ==> es[k].0 == name,
    ensures
        name_index(es, name) == k,
    decreases es.len(),
{
    if es.len() > 0 && k > 0 {
        assert(es[0].0 != name);
        assert forall|j: int| 0 <= j < k - 1 implies (#[trigger] es.drop_first()[j]).0 != name by {
            assert(es.drop_first()[j] == es[j + 1]);
        }
        lemma_name_index_at(es.drop_first(), name, k - 1);
    }
}


/// The errors of a prefix of the files are no more than those of all of them.
pub proof fn lemma_total_errors_prefix(es: Seq<EntryView>, i: int)
    requires
        0 <= i <= es.len(),
    ensures
        total_errors(es.take(i)) <= total_errors(es),
    decreases es.len() - i,
{
    if i < es.len() {
        lemma_total_errors_prefix(es, i + 1);
        assert(es.take(i + 1).drop_last() =~= es.take(i));
    } else {
        assert(es.take(i) =~= es);
    }
}

/// After the errors of a file are recorded, they are what the report holds for
/// that file, and every other file keeps what it had.
pub proof fn lemma_lookup_after_insert(
    es: Seq<EntryView>,
    name: Seq<char>,
    errs: Seq<ErrorView>,
    other: Seq<char>,
)
    ensures
        lookup(with_entry(es, name, errs), name) == Some(errs),
        other != name ==> lookup(with_entry(es, name, errs), other) == lookup(es, other),
{
    let i = name_index(es, name);
    let r = with_entry(es, name, errs);
    lemma_name_index(es, name);
    lemma_name_index(es, other);
    let k = name_index(es, other);
    if i < es.len() {
        lemma_name_index_at(r, name, i);
        if other != name {
            assert forall|j: int| 0 <= j < k implies (#[trigger] r[j]).0 != other by {
                if j != i {
                    assert(r[j] == es[j]);
                }
            }
            if k < es.len() {
                assert(k != i);
                assert(r[k] == es[k]);
            }
            lemma_name_index_at(r, other, k);
        }
    } else {
        assert forall|j: int| 0 <= j < es.len() implies (#[trigger] r[j]).0 != name by {
            assert(r[j] == es[j]);
        }
        lemma_name_index_at(r, name, es.len() as int);
        if other != name {
            if k < es.len() {
                assert forall|j: int| 0 <= j < k implies (#[trigger] r[j]).0 != other by {
                    assert(r[j] == es[j]);
                }
                assert(r[k] == es[k]);
                lemma_name_index_at(r, other, k);
            } else {
                assert forall|j: int| 0 <= j < r.len() implies (#[trigger] r[j]).0 != other by {
                    if j < es.len() {
                        assert(r[j] == es[j]);
                    }
                }
                lemma_name_index_at(r, other, r.len() as int);
            }
        }
    }
}

/// Recording a file's errors keeps every file named once.
pub proof fn lemma_insert_keeps_names_distinct(
    es: Seq<EntryView>,
    name: Seq<char>,
    errs: Seq<ErrorView>,
)
    requires
        names_distinct(es),
    ensures
        names_distinct(with_entry(es, name, errs)),
{
    lemma_name_index(es, name);
}

/// The errors found in formatted files, file by file.
pub struct FormatReport {
    file_error_map: Vec<(String, Vec<FormattingError>)>,
}

impl View for FormatReport {
    type V = Seq<EntryView>;

    closed spec fn view(&self) -> Seq<EntryView> {
        entry_views(self.file_error_map@)
    }
}

impl FormatReport {
    #[verifier::type_invariant]
    closed spec fn inv(self) -> bool {
        names_distinct(entry_views(self.file_error_map@))
    }

    /// A report with no file in it.
    pub fn new() -> (r: FormatReport)
        ensures
            r@ == Seq::<EntryView>::empty(),
    {
        let r = FormatReport { file_error_map: Vec::new() };
        assert(r@ =~= Seq::<EntryView>::empty());
        r
    }

    /// The files of the report with their errors, in the order they were first recorded.
    pub fn entries(&self) -> (r: &Vec<(String, Vec<FormattingError>)>)
        ensures
            entry_views(r@) == self@,
    {
        &self.file_error_map
    }

    /// The number of errors over all files.
    pub fn warning_count(&self) -> (r: usize)
        requires
            total_errors(self@) <= usize::MAX,
        ensures
            r == total_errors(self@),
    {
        let ghost es = self@;
        let mut acc: usize = 0;
        let mut i: usize = 0;
        while i < self.file_error_map.len()
            invariant
                i <= self.file_error_map@.len(),
                es == entry_views(self.file_error_map@),
                total_errors(es) <= usize::MAX,
                acc == total_errors(es.take(i as int)),
            decreases self.file_error_map.len() - i,
        {
            proof {
                lemma_total_errors_prefix(es, i + 1);
                assert(es.take(i + 1).drop_last() =~= es.take(i as int));
            }
            acc = acc + self.file_error_map[i].1.len();
            i = i + 1;
        }
        assert(es.take(i as int) =~= es);
        acc
    }

    /// Whether any error was found in any file.
    pub fn has_warnings(&self) -> (r: bool)
        ensures
            r == (total_errors(self@) > 0),
    {
        let ghost es = self@;
        let mut i: usize = 0;
        while i < self.file_error_map.len()
            invariant
                i <= self.file_error_map@.len(),
                es == entry_views(self.file_error_map@),
                total_errors(es.take(i as int)) == 0,
            decreases self.file_error_map.len() - i,
        {
            assert(es.take(i + 1).drop_last() =~= es.take(i as int));
            if self.file_error_map[i].1.len() > 0 {
                proof {
                    lemma_total_errors_prefix(es, i + 1);
                }
                return true;
            }
            i = i + 1;
        }
        assert(es.take(i as int) =~= es);
        false
    }

    /// Records `errors` as the errors of file `name`, in place of any recorded before.
    pub fn insert(&mut self, name: String, errors: Vec<FormattingError>)
        ensures
            final(self)@ == with_entry(old(self)@, name@, error_views(errors@)),
            names_distinct(final(self)@),
    {
        proof {
            use_type_invariant(&*self);
        }
        let ghost es = self@;
        proof {
            lemma_insert_keeps_names_distinct(es, name@, error_views(errors@));
        }
        let mut v: Vec<(String, Vec<FormattingError>)> = Vec::new();
        std::mem::swap(&mut v, &mut self.file_error_map);
        let mut i: usize = 0;
        while i < v.len() && !str_eq(v[i].0.as_str(), name.as_str())
            invariant
                i <= v@.len(),
                es == entry_views(v@),
                forall|j: int| 0 <= j < i ==> (#[trigger] es[j]).0 != name@,
            decreases v.len() - i,
        {
            i = i + 1;
        }
        proof {
            lemma_name_index_at(es, name@, i as int);
        }
        let ghost nv = name@;
        let ghost ev = error_views(errors@);
        if i < v.len() {
            v.set(i, (name, errors));
            assert(entry_views(v@) =~= es.update(i as int, (nv, ev)));
        } else {
            v.push((name, errors));
            assert(entry_views(v@) =~= es.push((nv, ev)));
        }
        self.file_error_map = v;
    }
}


/// Where the line checks stand after some of a file's characters.
pub struct ScanState {
    /// The lines that end in white space, with their text.
    pub trims: Seq<(int, Seq<char>)>,
    /// Whether the last character of the current line is white space.
    pub last_ws: bool,
    /// The number of characters of the current line.
    pub line_len: int,
    /// The current line, counted from 1.
    pub cur_line: int,
    /// The number of line feeds since the last other character, carriage returns not counted.
    pub newline_count: int,
    /// The overflowing lines found so far.
    pub errors: Seq<ErrorView>,
    /// Whether the previous character of the line is `/`.
    pub prev_slash: bool,
    /// Whether the line holds `//`.
    pub is_comment: bool,
    /// The text of the current line.
    pub line_buffer: Seq<char>,
}

/// Where the line checks start.
pub open spec fn scan_start() -> ScanState {
    ScanState {
        trims: Seq::empty(),
        last_ws: false,
        line_len: 0,
        cur_line: 1,
        newline_count: 0,
        errors: Seq::empty(),
        prev_slash: false,
        is_comment: false,
        line_buffer: Seq::empty(),
    }
}

/// Whether an overflowing line is reported: overflow errors are on, and the line
/// holds no comment or comment lines are checked too.
pub open spec fn reports_overflow(config: Config, is_comment: bool) -> bool {
    config.error_on_line_overflow && (config.error_on_line_overflow_comments || !is_comment)
}

/// One character of the line checks. A carriage return is passed over. A line
/// feed ends the line: on a line to be formatted, trailing white space is
/// recorded (and not counted in the width), and a line wider than the maximum is
/// an error where `reports_overflow` says so.
pub open spec fn scan_char(st: ScanState, c: char, config: Config, name: Seq<char>) -> ScanState {
    if c == '\r' {
        st
    } else if c == '\n' {
        let fl = config.file_lines.spec_contains_line(name, st.cur_line);
        let trimmed = fl && st.last_ws;
        let len = if trimmed {
            st.line_len - 1
        } else {
            st.line_len
        };
        let overflow = fl && reports_overflow(config, st.is_comment) && len > config.max_width;
        ScanState {
            trims: if trimmed {
                st.trims.push((st.cur_line, st.line_buffer))
            } else {
                st.trims
            },
            errors: if overflow {
                st.errors.push(
                    ErrorView {
                        line: st.cur_line,
                        kind: ErrorKind::LineOverflow(len as usize, config.max_width),
                        is_comment: st.is_comment,
                        line_buffer: st.line_buffer,
                    },
                )
            } else {
                st.errors
            },
            last_ws: false,
            line_len: 0,
            cur_line: st.cur_line + 1,
            newline_count: st.newline_count + 1,
            prev_slash: false,
            is_comment: false,
            line_buffer: Seq::empty(),
        }
    } else {
        ScanState {
            newline_count: 0,
            line_len: st.line_len + 1,
            last_ws: is_ws_char(c),
            is_comment: st.is_comment || (c == '/' && st.prev_slash),
            prev_slash: c == '/',
            line_buffer: st.line_buffer.push(c),
            ..st
        }
    }
}

/// The line checks after the characters `s` of file `name`.
pub open spec fn scan(s: Seq<char>, config: Config, name: Seq<char>) -> ScanState
    decreases s.len(),
{
    if s.len() == 0 {
        scan_start()
    } else {
        scan_char(scan(s.drop_last(), config, name), s.last(), config, name)
    }
}

/// The trailing white space errors of the recorded lines.
pub open spec fn trim_errors(trims: Seq<(int, Seq<char>)>) -> Seq<ErrorView> {
    trims.map_values(
        |t: (int, Seq<char>)|
            ErrorView {
                line: t.0,
                kind: ErrorKind::TrailingWhitespace,
                is_comment: false,
                line_buffer: t.1,
            },
    )
}

/// The errors the line checks find in text `s` of file `name`: the overflowing
/// lines in order, then the lines with trailing white space in order.
pub open spec fn line_errors(s: Seq<char>, config: Config, name: Seq<char>) -> Seq<ErrorView> {
    let st = scan(s, config, name);
    st.errors + trim_errors(st.trims)
}

/// The text after the line checks: of the line feeds at its end, one is kept.
pub open spec fn checked_text(s: Seq<char>, config: Config, name: Seq<char>) -> Seq<char> {
    let nc = scan(s, config, name).newline_count;
    if nc > 1 {
        s.take(s.len() - (nc - 1))
    } else {
        s
    }
}

/// The state of the line checks while they run.
struct LineChecker {
    trims: Vec<(usize, Vec<char>)>,
    last_ws: bool,
    line_len: usize,
    cur_line: usize,
    newline_count: usize,
    errors: Vec<FormattingError>,
    prev_slash: bool,
    is_comment: bool,
    line_buffer: Vec<char>,
}

impl LineChecker {
    spec fn state(&self) -> ScanState {
        ScanState {
            trims: self.trims@.map_values(|t: (usize, Vec<char>)| (t.0 as int, t.1@)),
            last_ws: self.last_ws,
            line_len: self.line_len as int,
            cur_line: self.cur_line as int,
            newline_count: self.newline_count as int,
            errors: error_views(self.errors@),
            prev_slash: self.prev_slash,
            is_comment: self.is_comment,
            line_buffer: self.line_buffer@,
        }
    }

    fn new() -> (r: LineChecker)
        ensures
            r.state() == scan_start(),
    {
        let r = LineChecker {
            trims: Vec::new(),
            last_ws: false,
            line_len: 0,
            cur_line: 1,
            newline_count: 0,
            errors: Vec::new(),
            prev_slash: false,
            is_comment: false,
            line_buffer: Vec::new(),
        };
        assert(r.state().trims =~= Seq::empty());
        assert(r.state().errors =~= Seq::empty());
        r
    }

    fn step(&mut self, c: char, config: &Config, name: &str)
        requires
            old(self).cur_line < usize::MAX,
            old(self).line_len < usize::MAX,
            old(self).newline_count < usize::MAX,
            old(self).last_ws ==> old(self).line_len >= 1,
        ensures
            final(self).state() == scan_char(old(self).state(), c, *config, name@),
    {
        let ghost st = self.state();
        if c == '\r' {
            return;
        }
        if c == '\n' {
            let fl = config.file_lines.contains_line(name, self.cur_line);
            let trimmed = fl && self.last_ws;
            if trimmed {
                let b = self.line_buffer.clone();
                self.trims.push((self.cur_line, b));
                self.line_len = self.line_len - 1;
            }
            let report = config.error_on_line_overflow && (config.error_on_line_overflow_comments
                || !self.is_comment);
            if fl && report && self.line_len > config.max_width {
                let line_buffer = string_of_chars(&self.line_buffer);
                self.errors.push(
                    FormattingError {
                        line: self.cur_line,
                        kind: ErrorKind::LineOverflow(self.line_len, config.max_width),
                        is_comment: self.is_comment,
                        line_buffer,
                    },
                );
            }
            self.line_len = 0;
            self.cur_line = self.cur_line + 1;
            self.newline_count = self.newline_count + 1;
            self.last_ws = false;
            self.prev_slash = false;
            self.is_comment = false;
            self.line_buffer = Vec::new();
            let ghost nx = scan_char(st, c, *config, name@);
            assert(self.state().trims =~= nx.trims);
            assert(self.state().errors =~= nx.errors);
            assert(self.state().line_buffer =~= nx.line_buffer);
        } else {
            self.newline_count = 0;
            self.line_len = self.line_len + 1;
            self.last_ws = is_whitespace_char(c);
            if c == '/' && self.prev_slash {
                self.is_comment = true;
            }
            self.prev_slash = c == '/';
            self.line_buffer.push(c);
        }
    }
}


/// Dropping characters that are line feeds or carriage returns from the end of a
/// text drops one byte each.
pub(crate) proof fn lemma_drop_line_ends(s: Seq<char>, k: int)
    requires
        0 <= k <= s.len(),
        forall|j: int| k <= j < s.len() ==> (#[trigger] s[j] == '\n' || s[j] == '\r'),
    ensures
        utf8_len(s.take(k)) + (s.len() - k) == utf8_len(s),
{
    assert(s =~= s.take(k) + s.skip(k));
    lemma_utf8_len_concat(s.take(k), s.skip(k));
    assert forall|i: int| 0 <= i < s.skip(k).len() implies (#[trigger] s.skip(k)[i] as u32)
        < 0x80 by {
        assert(s.skip(k)[i] == s[k + i]);
    }
    lemma_ascii_utf8_len(s.skip(k));
}

/// The checks made line by line on the formatted text of file `name`. Lines wider
/// than the maximum and lines that end in white space are recorded as the file's
/// errors in `report`, in place of any recorded before; of the line feeds at the
/// end of the text, all but one are removed.
pub fn format_lines(text: &mut StringBuffer, name: &str, config: &Config, report: &mut FormatReport)
    requires
        buffer_text(*old(text)).len() < usize::MAX,
        buffer_ok(*old(text)),
    ensures
        buffer_text(*final(text)) == checked_text(buffer_text(*old(text)), *config, name@),
        buffer_ok(*final(text)),
        final(report)@ == with_entry(
            old(report)@,
            name@,
            line_errors(buffer_text(*old(text)), *config, name@),
        ),
{
    let chars = buffer_chars(text);
    let ghost s = chars@;
    let mut checker = LineChecker::new();
    let mut i: usize = 0;
    while i < chars.len()
        invariant
            s == chars@,
            i <= chars.len() < usize::MAX,
            checker.state() == scan(s.take(i as int), *config, name@),
            checker.cur_line <= i + 1,
            checker.line_len <= i,
            checker.newline_count <= i,
            checker.last_ws ==> checker.line_len >= 1,
            forall|j: int|
                i - checker.newline_count <= j < i ==> (#[trigger] s[j] == '\n' || s[j] == '\r'),
        decreases chars.len() - i,
    {
        let c = chars[i];
        checker.step(c, config, name);
        assert(s.take(i + 1).drop_last() =~= s.take(i as int));
        i = i + 1;
    }
    assert(s.take(i as int) =~= s);
    let ghost st = scan(s, *config, name@);
    let nc = checker.newline_count;
    if nc > 1 {
        let ghost k = s.len() - (nc - 1);
        proof {
            lemma_drop_line_ends(s, k);
        }
        let len = buffer_len(text);
        buffer_truncate(text, len - nc + 1);
    }
    let mut errors = checker.errors;
    let trims = checker.trims;
    let ghost tv = st.trims;
    let mut j: usize = 0;
    while j < trims.len()
        invariant
            j <= trims.len(),
            tv == trims@.map_values(|t: (usize, Vec<char>)| (t.0 as int, t.1@)),
            error_views(errors@) == st.errors + trim_errors(tv.take(j as int)),
        decreases trims.len() - j,
    {
        let line_buffer = string_of_chars(&trims[j].1);
        let ghost ev = ErrorView {
            line: tv[j as int].0,
            kind: ErrorKind::TrailingWhitespace,
            is_comment: false,
            line_buffer: tv[j as int].1,
        };
        assert(trim_errors(tv.take(j + 1)) =~= trim_errors(tv.take(j as int)).push(ev));
        let ghost before = errors@;
        errors.push(
            FormattingError {
                line: trims[j].0,
                kind: ErrorKind::TrailingWhitespace,
                is_comment: false,
                line_buffer,
            },
        );
        assert(errors@ == before.push(errors@.last()));
        assert(errors@.last()@ == ev);
        assert(error_views(errors@) =~= error_views(before).push(ev));
        assert(error_views(errors@) =~= st.errors + trim_errors(tv.take(j + 1)));
        j = j + 1;
    }
    assert(tv.take(j as int) =~= tv);
    report.insert(String::from_str(name), errors);
}


/// `n` spaces.
pub open spec fn spaces(n: nat) -> Seq<char> {
    repeat_char(' ', n)
}

/// The lines that show one error of file `file`: the message, where it is, the
/// line with a mark under it (or a single space when the line's text is not
/// known), and the note, if any.
pub open spec fn error_text(file: Seq<char>, e: ErrorView) -> Seq<char> {
    let ls = decimal(e.line as nat);
    let ps = spaces(1 + ls.len());
    let lens = format_len_of(e);
    let buf = if e.line_buffer.len() == 0 {
        " "@
    } else {
        ps + "|\n"@ + ls + " | "@ + e.line_buffer + "\n"@ + ps + "| "@ + target_text(
            lens.0 as nat,
            lens.1 as nat,
        )
    };
    let note = if suffix_text(e).len() == 0 {
        Seq::empty()
    } else {
        ps + "note= "@
    };
    prefix_text(e.kind) + " "@ + kind_text(e.kind) + "\n"@ + spaces(ls.len()) + "--> "@ + file
        + ":"@ + ls + "\n"@ + buf + "\n"@ + note + suffix_text(e) + "\n"@
}

/// The lines that show the errors `errs` of file `file`, one after the other.
pub open spec fn file_text(file: Seq<char>, errs: Seq<ErrorView>) -> Seq<char>
    decreases errs.len(),
{
    if errs.len() == 0 {
        Seq::empty()
    } else {
        file_text(file, errs.drop_last()) + error_text(file, errs.last())
    }
}

/// The errors of the files `es`, file after file.
pub open spec fn entries_text(es: Seq<EntryView>) -> Seq<char>
    decreases es.len(),
{
    if es.len() == 0 {
        Seq::empty()
    } else {
        entries_text(es.drop_last()) + file_text(es.last().0, es.last().1)
    }
}

/// The whole report: the errors of each file, then, when any file was checked,
/// a warning with the number of errors.
pub open spec fn report_text(es: Seq<EntryView>) -> Seq<char> {
    entries_text(es) + if es.len() == 0 {
        Seq::empty()
    } else {
        "warning: rustfmt may have failed to format. See previous "@ + decimal(total_errors(es))
            + " errors.\n"@
    }
}

/// Every error of the report can be shown.
pub open spec fn entries_ok(es: Seq<EntryView>) -> bool {
    forall|i: int, j: int|
        0 <= i < es.len() && 0 <= j < es[i].1.len() ==> error_ok(#[trigger] es[i].1[j])
}

/// `n` spaces.
fn spaces_string(n: usize) -> (r: String)
    ensures
        r@ == spaces(n as nat),
{
    let mut r = String::new();
    let mut i: usize = 0;
    while i < n
        invariant
            i <= n,
            r@ == spaces(i as nat),
        decreases n - i,
    {
        push_char(&mut r, ' ');
        assert(r@ =~= spaces((i + 1) as nat));
        i = i + 1;
    }
    r
}

/// The lines that show error `e` of file `file`.
pub fn error_lines(file: &str, e: &FormattingError) -> (r: String)
    requires
        error_ok(e@),
    ensures
        r@ == error_text(file@, e@),
{
    let ls = decimal_text(e.line);
    proof {
        lemma_decimal_len(e.line as nat);
    }
    let n = ls.as_str().unicode_len();
    let ps = spaces_string(n + 1);
    let buf = if e.line_buffer.as_str().unicode_len() == 0 {
        String::from_str(" ")
    } else {
        let (space_len, target_len) = e.format_len();
        let mut b = String::new();
        b.append(ps.as_str());
        b.append("|\n");
        b.append(ls.as_str());
        b.append(" | ");
        b.append(e.line_buffer.as_str());
        b.append("\n");
        b.append(ps.as_str());
        b.append("| ");
        let t = target_str(space_len, target_len);
        b.append(t.as_str());
        b
    };
    let suffix = e.msg_suffix();
    let mut r = String::from_str(e.msg_prefix());
    r.append(" ");
    let k = e.kind.to_text();
    r.append(k.as_str());
    r.append("\n");
    let ps1 = spaces_string(n);
    r.append(ps1.as_str());
    r.append("--> ");
    r.append(file);
    r.append(":");
    r.append(ls.as_str());
    r.append("\n");
    r.append(buf.as_str());
    r.append("\n");
    if suffix.as_str().unicode_len() != 0 {
        r.append(ps.as_str());
        r.append("note= ");
    }
    r.append(suffix.as_str());
    r.append("\n");
    assert(r@ =~= error_text(file@, e@));
    r
}

impl FormatReport {
    /// The report as text: each error of each file, then a warning with the
    /// number of errors when any file was checked.
    pub fn to_text(&self) -> (r: String)
        requires
            entries_ok(self@),
            total_errors(self@) <= usize::MAX,
        ensures
            r@ == report_text(self@),
    {
        let ghost es = self@;
        let v = self.entries();
        let mut r = String::new();
        let mut i: usize = 0;
        while i < v.len()
            invariant
                i <= v@.len(),
                es == entry_views(v@),
                entries_ok(es),
                r@ == entries_text(es.take(i as int)),
            decreases v.len() - i,
        {
            let file = v[i].0.as_str();
            let errs = &v[i].1;
            let ghost before = r@;
            let mut j: usize = 0;
            while j < errs.len()
                invariant
                    i < v@.len(),
                    j <= errs@.len(),
                    es == entry_views(v@),
                    entries_ok(es),
                    errs@ == v@[i as int].1@,
                    file@ == v@[i as int].0@,
                    r@ == before + file_text(file@, error_views(errs@).take(j as int)),
                decreases errs.len() - j,
            {
                assert(es[i as int].1[j as int] == errs@[j as int]@);
                let t = error_lines(file, &errs[j]);
                r.append(t.as_str());
                assert(error_views(errs@).take(j + 1).drop_last() =~= error_views(errs@).take(
                    j as int,
                ));
                j = j + 1;
            }
            assert(error_views(errs@).take(j as int) =~= error_views(errs@));
            assert(es.take(i + 1).drop_last() =~= es.take(i as int));
            i = i + 1;
        }
        assert(es.take(i as int) =~= es);
        if v.len() > 0 {
            r.append("warning: rustfmt may have failed to format. See previous ");
            let n = self.warning_count();
            let t = decimal_text(n);
            r.append(t.as_str());
            r.append(" errors.\n");
        }
        assert(r@ =~= report_text(es));
        r
    }
}


/// What is formatted: a file, by its path, or a text.
#[derive(Debug)]
pub enum Input {
    File(String),
    Text(String),
}


/// The line feeds the line checks count at the end of a text are those at its
/// end, carriage returns among them not counted.
pub proof fn lemma_scan_newline_count(s: Seq<char>, config: Config, name: Seq<char>)
    ensures
        scan(s, config, name).newline_count == trailing_line_feeds(s),
    decreases s.len(),
{
    if s.len() > 0 {
        lemma_scan_newline_count(s.drop_last(), config, name);
    }
}

/// What the line checks record: each error is on a line to be formatted; an
/// overflow is only reported when overflow errors are on, and is wider than
/// the maximum it names, which is the configuration's; each recorded trailing
/// white space is on a line to be formatted.
pub open spec fn scan_ok(st: ScanState, config: Config, name: Seq<char>) -> bool {
    &&& forall|i: int|
        0 <= i < st.errors.len() ==> {
            let e = #[trigger] st.errors[i];
            &&& config.file_lines.spec_contains_line(name, e.line)
            &&& e.kind matches ErrorKind::LineOverflow(found, max) && max == config.max_width
                && found > max && config.error_on_line_overflow
        }
    &&& forall|i: int|
        0 <= i < st.trims.len() ==> config.file_lines.spec_contains_line(name, (#[trigger] st.trims[i]).0)
}

/// Whether `t` holds two `/` in a row.
pub open spec fn has_double_slash(t: Seq<char>) -> bool {
    exists|i: int| 0 <= i && i + 1 < t.len() && t[i] == '/' && #[trigger] t[i + 1] == '/'
}

/// A line is a comment line exactly when it holds `//`: after any text, the
/// current line is marked a comment line just when its text so far holds two
/// `/` in a row, and every overflow error is marked a comment error just when
/// the text of its line does.
pub proof fn lemma_comment_lines(s: Seq<char>, config: Config, name: Seq<char>)
    ensures
        scan(s, config, name).is_comment == has_double_slash(scan(s, config, name).line_buffer),
        scan(s, config, name).prev_slash == (scan(s, config, name).line_buffer.len() > 0
            && scan(s, config, name).line_buffer.last() == '/'),
        forall|i: int|
            0 <= i < scan(s, config, name).errors.len() ==> (#[trigger] scan(
                s,
                config,
                name,
            ).errors[i]).is_comment == has_double_slash(scan(s, config, name).errors[i].line_buffer),
    decreases s.len(),
{
    if s.len() == 0 {
        assert(!has_double_slash(Seq::<char>::empty()));
    } else {
        lemma_comment_lines(s.drop_last(), config, name);
        let p = scan(s.drop_last(), config, name);
        let c = s.last();
        let q = scan(s, config, name);
        if c != '\r' && c != '\n' {
            let b = p.line_buffer;
            let b2 = b.push(c);
            assert(q.line_buffer == b2);
            if has_double_slash(b) {
                let i = choose|i: int| 0 <= i && i + 1 < b.len() && b[i] == '/' && #[trigger] b[i + 1] == '/';
                assert(b2[i] == '/' && b2[i + 1] == '/');
                assert(has_double_slash(b2));
            }
            if c == '/' && p.prev_slash {
                let k = b.len() - 1;
                assert(b2[k] == '/' && b2[k + 1] == '/');
                assert(has_double_slash(b2));
            }
            if has_double_slash(b2) {
                let i = choose|i: int| 0 <= i && i + 1 < b2.len() && b2[i] == '/' && #[trigger] b2[i + 1] == '/';
                if i + 1 < b.len() {
                    assert(b[i] == '/' && b[i + 1] == '/');
                } else {
                    assert(i + 1 == b.len());
                    assert(c == '/');
                    assert(b.last() == '/');
                }
            }
        }
        if c == '\n' {
            assert(!has_double_slash(Seq::<char>::empty()));
            assert forall|i: int| 0 <= i < q.errors.len() implies (#[trigger] q.errors[i]).is_comment
                == has_double_slash(q.errors[i].line_buffer) by {
                if i < p.errors.len() {
                    assert(q.errors[i] == p.errors[i]);
                }
            }
        }
    }
}

/// The line checks only record what `scan_ok` allows.
pub proof fn lemma_scan_ok(s: Seq<char>, config: Config, name: Seq<char>)
    requires
        s.len() < usize::MAX,
    ensures
        scan_ok(scan(s, config, name), config, name),
        0 <= scan(s, config, name).line_len <= s.len(),
        scan(s, config, name).last_ws ==> scan(s, config, name).line_len >= 1,
    decreases s.len(),
{
    if s.len() > 0 {
        lemma_scan_ok(s.drop_last(), config, name);
        let st = scan(s.drop_last(), config, name);
        let nx = scan(s, config, name);
        assert forall|i: int| 0 <= i < nx.errors.len() implies {
            let e = #[trigger] nx.errors[i];
            &&& config.file_lines.spec_contains_line(name, e.line)
            &&& e.kind matches ErrorKind::LineOverflow(found, max) && max == config.max_width
                && found > max && config.error_on_line_overflow
        } by {
            if i < st.errors.len() {
                assert(nx.errors[i] == st.errors[i]);
            }
        }
        assert forall|i: int| 0 <= i < nx.trims.len() implies config.file_lines.spec_contains_line(
            name,
            (#[trigger] nx.trims[i]).0,
        ) by {
            if i < st.trims.len() {
                assert(nx.trims[i] == st.trims[i]);
            }
        }
    }
}

/// Every error the line checks report is on a line to be formatted, and is
/// either trailing white space or an overflow past the configured maximum width,
/// reported only when overflow errors are on.
pub proof fn lemma_line_errors_ok(s: Seq<char>, config: Config, name: Seq<char>)
    requires
        s.len() < usize::MAX,
    ensures
        forall|i: int|
            0 <= i < line_errors(s, config, name).len() ==> {
                let e = #[trigger] line_errors(s, config, name)[i];
                &&& config.file_lines.spec_contains_line(name, e.line)
                &&& e.kind is TrailingWhitespace || (e.kind matches ErrorKind::LineOverflow(
                    found,
                    max,
                ) && max == config.max_width && found > max && config.error_on_line_overflow)
            },
{
    lemma_scan_ok(s, config, name);
    let st = scan(s, config, name);
    assert forall|i: int| 0 <= i < line_errors(s, config, name).len() implies {
        let e = #[trigger] line_errors(s, config, name)[i];
        &&& config.file_lines.spec_contains_line(name, e.line)
        &&& e.kind is TrailingWhitespace || (e.kind matches ErrorKind::LineOverflow(found, max)
            && max == config.max_width && found > max && config.error_on_line_overflow)
    } by {
        if i < st.errors.len() {
            assert(line_errors(s, config, name)[i] == st.errors[i]);
        } else {
            assert(line_errors(s, config, name)[i] == trim_errors(st.trims)[i - st.errors.len()]);
        }
    }
}

/// On a text without carriage returns, the line checks leave at most one line
/// feed at its end, so checking the checked text again leaves it as it is.
pub proof fn lemma_checked_text_idempotent(s: Seq<char>, config: Config, name: Seq<char>)
    requires
        forall|i: int| 0 <= i < s.len() ==> s[i] != '\r',
    ensures
        trailing_line_feeds(checked_text(s, config, name)) <= 1,
        checked_text(checked_text(s, config, name), config, name) == checked_text(s, config, name),
{
    lemma_scan_newline_count(s, config, name);
    let t = checked_text(s, config, name);
    let nc = trailing_line_feeds(s);
    if nc > 1 {
        lemma_drop_trailing_line_feeds(s, (nc - 1) as nat);
    }
    lemma_scan_newline_count(t, config, name);
}


/// The character of a decimal digit is the digit's code.
pub proof fn lemma_digit_char(d: nat)
    requires
        d < 10,
    ensures
        digit_char(d) as nat == d + 48,
        is_digit(digit_char(d)),
{
    let u = (d + 48) as u32;
    assert(vstd::utf8::is_scalar(u)) by (bit_vector)
        requires
            48 <= u < 58,
    ;
    assert((u as char) as u32 == u);
}

/// The digits of a numeral are decimal digits, and write its number.
pub proof fn lemma_decimal_digits(n: nat)
    ensures
        all_digits(decimal(n)),
        digits_value(decimal(n)) == n,
    decreases n,
{
    if n < 10 {
        lemma_digit_char(n);
        assert(decimal(n).drop_last() =~= Seq::<char>::empty());
        assert(decimal(n).last() == digit_char(n));
        assert(digits_value(decimal(n)) == digits_value(Seq::<char>::empty()) * 10 + ((decimal(n).last() as nat)
            - 48) as nat);
        assert(digits_value(decimal(n)) == n);
    } else {
        lemma_decimal_digits(n / 10);
        let d = decimal(n / 10);
        assert(decimal(n).drop_last() =~= d);
        lemma_digit_char(n % 10);
        assert(decimal(n).last() == digit_char(n % 10));
        assert(digits_value(decimal(n)) == digits_value(d) * 10 + ((decimal(n).last() as nat)
            - 48) as nat);
        assert(n == (n / 10) * 10 + n % 10);
        assert(digits_value(decimal(n)) == n);
        assert forall|i: int| 0 <= i < decimal(n).len() implies is_digit(#[trigger] decimal(n)[i]) by {
            if i < d.len() {
                assert(decimal(n)[i] == d[i]);
            }
        }
    }
}

/// A number written as a numeral reads back as the same number.
pub proof fn lemma_decimal_parses_back(n: usize)
    ensures
        parsed_usize(decimal(n as nat)) == Some(n as nat),
{
    lemma_decimal_digits(n as nat);
    lemma_decimal_len(n as nat);
    assert(is_digit(decimal(n as nat)[0]));
    assert(unsigned_part(decimal(n as nat)) == decimal(n as nat));
}

} // verus!
