//! The formatted text of each file of a run, and how it is written out.
use vstd::prelude::*;

use vstd::string::StringExecFns;

use strings::string_buffer::StringBuffer;

use crate::buffer::{
    buffer_chars, buffer_len, buffer_ok, buffer_push_str, buffer_text, buffer_to_string,
    buffer_truncate,
};
use crate::config::{str_eq, Config, NewlineStyle};
use crate::report::{decimal, decimal_text};
use crate::text::{
    is_whitespace_char, is_ws_char, lemma_utf8_len_push, push_char, utf8_len, utf8_width,
};
use crate::report::lemma_drop_line_ends;

verus! {

/// Where the text of a file goes.
#[derive(Clone, Debug)]
pub enum WriteMode {
    /// The file is replaced, its old text kept beside it.
    Overwrite,
    /// A new file is written beside it, its name extended by this extension.
    NewFile(String),
    /// The text is written to standard output.
    Display,
    /// The text is handed back.
    Return,
}

/// The position of the first file named `name`, or the number of files.
pub open spec fn file_index(files: Seq<(String, StringBuffer)>, name: Seq<char>) -> int
    decreases files.len(),
{
    if files.len() == 0 {
        0
    } else if files[0].0@ == name {
        0
    } else {
        1 + file_index(files.drop_first(), name)
    }
}

/// `k` is the position of the first file named `name`, or the number of files.
proof fn lemma_file_index_at(files: Seq<(String, StringBuffer)>, name: Seq<char>, k: int)
    requires
        0 <= k <= files.len(),
        forall|j: int| 0 <= j < k ==> (#[trigger] files[j]).0@ != name,
        k < files.len() ==> files[k].0@ == name,
    ensures
        file_index(files, name) == k,
    decreases files.len(),
{
    if files.len() > 0 && k > 0 {
        assert forall|j: int| 0 <= j < k - 1 implies (#[trigger] files.drop_first()[j]).0@
            != name by {
            assert(files.drop_first()[j] == files[j + 1]);
        }
        lemma_file_index_at(files.drop_first(), name, k - 1);
    }
}

/// The text of each file, by name, as it is after formatting.
pub struct ChangeSet {
    file_map: Vec<(String, StringBuffer)>,
}

/// The names and texts of files.
pub open spec fn file_views(files: Seq<(String, StringBuffer)>) -> Seq<(Seq<char>, Seq<char>)> {
    files.map_values(|f: (String, StringBuffer)| (f.0@, buffer_text(f.1)))
}

impl ChangeSet {
    /// The files, in the order they were first added.
    pub closed spec fn files(&self) -> Seq<(String, StringBuffer)> {
        self.file_map@
    }

    /// No file yet.
    pub fn new() -> (r: ChangeSet)
        ensures
            r.files().len() == 0,
    {
        ChangeSet { file_map: Vec::new() }
    }

    /// Sets the text of file `name`: in place of its earlier text, or as a new file at the end.
    pub fn insert(&mut self, name: String, text: StringBuffer)
        ensures
            ({
                let i = file_index(old(self).files(), name@);
                if i < old(self).files().len() {
                    final(self).files() == old(self).files().update(i, (name, text))
                } else {
                    final(self).files() == old(self).files().push((name, text))
                }
            }),
    {
        let ghost fs = self.file_map@;
        let mut i: usize = 0;
        while i < self.file_map.len() && !str_eq(self.file_map[i].0.as_str(), name.as_str())
            invariant
                i <= self.file_map@.len(),
                fs == self.file_map@,
                forall|j: int| 0 <= j < i ==> (#[trigger] fs[j]).0@ != name@,
            decreases self.file_map.len() - i,
        {
            i = i + 1;
        }
        proof {
            lemma_file_index_at(fs, name@, i as int);
        }
        if i < self.file_map.len() {
            self.file_map.set(i, (name, text));
        } else {
            self.file_map.push((name, text));
        }
    }

    /// The position of file `name`.
    fn find(&self, file_name: &str) -> (r: usize)
        ensures
            r == file_index(self.files(), file_name@),
            r <= self.files().len(),
    {
        let mut i: usize = 0;
        while i < self.file_map.len() && !str_eq(self.file_map[i].0.as_str(), file_name)
            invariant
                i <= self.file_map@.len(),
                forall|j: int| 0 <= j < i ==> (#[trigger] self.file_map@[j]).0@ != file_name@,
            decreases self.file_map.len() - i,
        {
            i = i + 1;
        }
        proof {
            lemma_file_index_at(self.file_map@, file_name@, i as int);
        }
        i
    }

    /// The text of file `file_name`, to change in place. The file must be there.
    pub fn get_mut(&mut self, file_name: &str) -> (r: &mut StringBuffer)
        requires
            file_index(old(self).files(), file_name@) < old(self).files().len(),
        ensures
            *r == old(self).files()[file_index(old(self).files(), file_name@)].1,
            final(self).files() == old(self).files().update(
                file_index(old(self).files(), file_name@),
                (old(self).files()[file_index(old(self).files(), file_name@)].0, *final(r)),
            ),
    {
        let i = self.find(file_name);
        &mut self.file_map[i].1
    }

    /// The files with their texts, in order.
    pub fn text(&self) -> (r: Vec<(&str, &StringBuffer)>)
        ensures
            r@.len() == self.files().len(),
            forall|i: int|
                0 <= i < r@.len() ==> (#[trigger] r@[i]).0@ == self.files()[i].0@ && *r@[i].1
                    == self.files()[i].1,
    {
        let mut r: Vec<(&str, &StringBuffer)> = Vec::new();
        let mut i: usize = 0;
        while i < self.file_map.len()
            invariant
                i <= self.file_map@.len(),
                r@.len() == i,
                forall|j: int|
                    0 <= j < i ==> (#[trigger] r@[j]).0@ == self.file_map@[j].0@ && *r@[j].1
                        == self.file_map@[j].1,
            decreases self.file_map.len() - i,
        {
            r.push((self.file_map[i].0.as_str(), &self.file_map[i].1));
            i = i + 1;
        }
        r
    }

    /// Appends a line feed to the text of each file.
    pub fn append_newlines(&mut self)
        requires
            forall|i: int|
                0 <= i < old(self).files().len() ==> utf8_len(buffer_text(
                    #[trigger] old(self).files()[i].1,
                )) < usize::MAX && buffer_ok(old(self).files()[i].1),
        ensures
            final(self).files().len() == old(self).files().len(),
            forall|i: int|
                0 <= i < old(self).files().len() ==> (#[trigger] final(self).files()[i]).0
                    == old(self).files()[i].0 && buffer_text(final(self).files()[i].1)
                    == buffer_text(old(self).files()[i].1) + seq!['\n'] && buffer_ok(
                    final(self).files()[i].1,
                ),
    {
        let ghost fs = self.file_map@;
        assert forall|j: int| 0 <= j < fs.len() implies utf8_len(buffer_text(#[trigger] fs[j].1))
            < usize::MAX && buffer_ok(fs[j].1) by {
            assert(fs[j] == old(self).files()[j]);
        }
        let mut i: usize = 0;
        while i < self.file_map.len()
            invariant
                i <= self.file_map@.len(),
                self.file_map@.len() == fs.len(),
                forall|j: int|
                    0 <= j < fs.len() ==> utf8_len(buffer_text(#[trigger] fs[j].1)) < usize::MAX
                        && buffer_ok(fs[j].1),
                forall|j: int|
                    0 <= j < i ==> (#[trigger] self.file_map@[j]).0 == fs[j].0 && buffer_text(
                        self.file_map@[j].1,
                    ) == buffer_text(fs[j].1) + seq!['\n'] && buffer_ok(self.file_map@[j].1),
                forall|j: int| i <= j < fs.len() ==> #[trigger] self.file_map@[j] == fs[j],
            decreases self.file_map.len() - i,
        {
            proof {
                reveal_strlit("\n");
                crate::text::lemma_ascii_utf8_len("\n"@);
            }
            let ghost t = buffer_text(fs[i as int].1);
            let b = &mut self.file_map[i].1;
            buffer_push_str(b, "\n");
            proof {
                crate::text::lemma_utf8_len_concat(t, "\n"@);
            }
            i = i + 1;
        }
    }
}


/// `s` with each line feed written as a carriage return and a line feed, and the
/// carriage returns it had dropped.
pub open spec fn windows_text(s: Seq<char>) -> Seq<char>
    decreases s.len(),
{
    if s.len() == 0 {
        Seq::empty()
    } else {
        let p = windows_text(s.drop_last());
        if s.last() == '\n' {
            p + seq!['\r', '\n']
        } else if s.last() == '\r' {
            p
        } else {
            p.push(s.last())
        }
    }
}

/// The text written for `s` with line endings `style`.
pub open spec fn written_text(s: Seq<char>, style: NewlineStyle) -> Seq<char> {
    match style {
        NewlineStyle::Unix => s,
        NewlineStyle::Windows => windows_text(s),
    }
}

/// The text of `text` with the line endings of `style`.
pub fn system_newlines(text: &StringBuffer, style: NewlineStyle) -> (r: String)
    ensures
        r@ == written_text(buffer_text(*text), style),
{
    match style {
        NewlineStyle::Unix => buffer_to_string(text),
        NewlineStyle::Windows => {
            let chars = buffer_chars(text);
            let ghost s = chars@;
            let mut r = String::new();
            let mut i: usize = 0;
            assert(s.take(0) =~= Seq::<char>::empty());
            while i < chars.len()
                invariant
                    i <= chars@.len(),
                    s == chars@,
                    r@ == windows_text(s.take(i as int)),
                decreases chars.len() - i,
            {
                let c = chars[i];
                assert(s.take(i + 1).drop_last() =~= s.take(i as int));
                if c == '\n' {
                    push_char(&mut r, '\r');
                    push_char(&mut r, '\n');
                    assert(r@ =~= windows_text(s.take(i + 1)));
                } else if c != '\r' {
                    push_char(&mut r, c);
                }
                i = i + 1;
            }
            assert(s.take(i as int) =~= s);
            r
        },
    }
}

/// What writing a file does.
#[derive(Debug)]
pub enum WriteAction {
    /// Write `text` to `tmp_name`, rename the file to `backup_name`, then
    /// `tmp_name` to the file.
    Overwrite { tmp_name: String, backup_name: String, text: String },
    /// Write `text` to the new file `name`.
    NewFile { name: String, text: String },
    /// Print the file's name and a colon, a blank line, then `text`.
    Display { text: String },
    /// Hand back `text`.
    Return { text: String },
}

impl ChangeSet {
    /// How file `filename` is written in mode `mode`: its text with the line
    /// endings of the configuration, and the names of the files involved.
    pub fn write_file(&self, filename: &str, mode: &WriteMode, config: &Config) -> (r: WriteAction)
        requires
            file_index(self.files(), filename@) < self.files().len(),
        ensures
            ({
                let text = written_text(
                    buffer_text(self.files()[file_index(self.files(), filename@)].1),
                    config.newline_style,
                );
                match *mode {
                    WriteMode::Overwrite => r matches WriteAction::Overwrite {
                        tmp_name,
                        backup_name,
                        text: t,
                    } && tmp_name@ == filename@ + ".tmp"@ && backup_name@ == filename@ + ".bk"@ && t@
                        == text,
                    WriteMode::NewFile(extn) => r matches WriteAction::NewFile { name, text: t }
                        && name@ == filename@ + "."@ + extn@ && t@ == text,
                    WriteMode::Display => r matches WriteAction::Display { text: t } && t@ == text,
                    WriteMode::Return => r matches WriteAction::Return { text: t } && t@ == text,
                }
            }),
    {
        let i = self.find(filename);
        let text = system_newlines(&self.file_map[i].1, config.newline_style);
        match mode {
            WriteMode::Overwrite => {
                let mut tmp_name = String::from_str(filename);
                tmp_name.append(".tmp");
                let mut backup_name = String::from_str(filename);
                backup_name.append(".bk");
                WriteAction::Overwrite { tmp_name, backup_name, text }
            },
            WriteMode::NewFile(extn) => {
                let mut name = String::from_str(filename);
                name.append(".");
                name.append(extn.as_str());
                WriteAction::NewFile { name, text }
            },
            WriteMode::Display => WriteAction::Display { text },
            WriteMode::Return => WriteAction::Return { text },
        }
    }
}


impl ChangeSet {
    /// How each file is written in mode `mode`, in order (see `write_file`).
    pub fn write_all_files(&self, mode: &WriteMode, config: &Config) -> (r: Vec<(String, WriteAction)>)
        ensures
            r@.len() == self.files().len(),
            forall|i: int|
                0 <= i < r@.len() ==> (#[trigger] r@[i]).0@ == self.files()[i].0@ && ({
                    let text = written_text(
                        buffer_text(self.files()[file_index(self.files(), r@[i].0@)].1),
                        config.newline_style,
                    );
                    match *mode {
                        WriteMode::Overwrite => r@[i].1 matches WriteAction::Overwrite {
                            tmp_name,
                            backup_name,
                            text: t,
                        } && tmp_name@ == r@[i].0@ + ".tmp"@ && backup_name@ == r@[i].0@ + ".bk"@
                            && t@ == text,
                        WriteMode::NewFile(extn) => r@[i].1 matches WriteAction::NewFile {
                            name,
                            text: t,
                        } && name@ == r@[i].0@ + "."@ + extn@ && t@ == text,
                        WriteMode::Display => r@[i].1 matches WriteAction::Display { text: t } && t@
                            == text,
                        WriteMode::Return => r@[i].1 matches WriteAction::Return { text: t } && t@
                            == text,
                    }
                }),
    {
        let mut r: Vec<(String, WriteAction)> = Vec::new();
        let mut i: usize = 0;
        while i < self.file_map.len()
            invariant
                i <= self.file_map@.len(),
                r@.len() == i,
                forall|j: int|
                    0 <= j < i ==> (#[trigger] r@[j]).0@ == self.files()[j].0@ && ({
                        let text = written_text(
                            buffer_text(self.files()[file_index(self.files(), r@[j].0@)].1),
                            config.newline_style,
                        );
                        match *mode {
                            WriteMode::Overwrite => r@[j].1 matches WriteAction::Overwrite {
                                tmp_name,
                                backup_name,
                                text: t,
                            } && tmp_name@ == r@[j].0@ + ".tmp"@ && backup_name@ == r@[j].0@
                                + ".bk"@ && t@ == text,
                            WriteMode::NewFile(extn) => r@[j].1 matches WriteAction::NewFile {
                                name,
                                text: t,
                            } && name@ == r@[j].0@ + "."@ + extn@ && t@ == text,
                            WriteMode::Display => r@[j].1 matches WriteAction::Display { text: t }
                                && t@ == text,
                            WriteMode::Return => r@[j].1 matches WriteAction::Return { text: t }
                                && t@ == text,
                        }
                    }),
            decreases self.file_map.len() - i,
        {
            let name = self.file_map[i].0.as_str();
            proof {
                lemma_file_index_le(self.file_map@, name@, i as int);
            }
            let action = self.write_file(name, mode, config);
            r.push((String::from_str(name), action));
            i = i + 1;
        }
        r
    }
}

/// A file named like the `k`th has a first position, no later than `k`.
proof fn lemma_file_index_le(files: Seq<(String, StringBuffer)>, name: Seq<char>, k: int)
    requires
        0 <= k < files.len(),
        files[k].0@ == name,
    ensures
        file_index(files, name) <= k,
    decreases files.len(),
{
    if k > 0 && files[0].0@ != name {
        assert(files.drop_first()[k - 1] == files[k]);
        lemma_file_index_le(files.drop_first(), name, k - 1);
    }
}


/// The widest a line may be.
pub const MAX_WIDTH: usize = 100;

/// Where the simple line checks stand after some of a file's characters.
pub struct LinesScan {
    /// The lines that end in white space.
    pub trims: Seq<int>,
    /// The byte position where the white space at the end of the current line starts, if it does.
    pub last_wspace: Option<int>,
    /// The width of the current line, less the bytes of white space removed at its end.
    pub line_len: int,
    /// The current line, counted from 1.
    pub cur_line: int,
    /// The number of line feeds since the last other character.
    pub newline_count: int,
    /// The lines wider than the maximum.
    pub overflows: Seq<int>,
    /// Whether no line had more bytes of white space at its end than characters.
    pub ok: bool,
}

/// Where the simple line checks start.
pub open spec fn lines_scan_start() -> LinesScan {
    LinesScan {
        trims: Seq::empty(),
        last_wspace: None,
        line_len: 0,
        cur_line: 1,
        newline_count: 0,
        overflows: Seq::empty(),
        ok: true,
    }
}

/// One character of the simple line checks, at byte position `b`. A line feed
/// ends the line: trailing white space is recorded and its bytes taken off the
/// width, and a width over `MAX_WIDTH` is recorded.
pub open spec fn lines_scan_char(st: LinesScan, c: char, b: int) -> LinesScan {
    if c == '\n' {
        let len = match st.last_wspace {
            Some(lw) => st.line_len - (b - lw),
            None => st.line_len,
        };
        LinesScan {
            trims: if st.last_wspace is Some {
                st.trims.push(st.cur_line)
            } else {
                st.trims
            },
            last_wspace: None,
            line_len: 0,
            cur_line: st.cur_line + 1,
            newline_count: st.newline_count + 1,
            overflows: if len > MAX_WIDTH {
                st.overflows.push(st.cur_line)
            } else {
                st.overflows
            },
            ok: st.ok && len >= 0,
        }
    } else {
        LinesScan {
            newline_count: 0,
            line_len: st.line_len + 1,
            last_wspace: if is_ws_char(c) {
                if st.last_wspace is None {
                    Some(b)
                } else {
                    st.last_wspace
                }
            } else {
                None
            },
            ..st
        }
    }
}

/// The simple line checks after the characters `s`.
pub open spec fn lines_scan_of(s: Seq<char>) -> LinesScan
    decreases s.len(),
{
    if s.len() == 0 {
        lines_scan_start()
    } else {
        lines_scan_char(
            lines_scan_of(s.drop_last()),
            s.last(),
            utf8_len(s.drop_last()) as int,
        )
    }
}

/// The message about a line of `file` wider than the maximum.
pub open spec fn overflow_message(file: Seq<char>, line: int) -> Seq<char> {
    "Rustfmt couldn't fix (sorry). "@ + file + ":"@ + decimal(line as nat)
        + ": line longer than 100 characters"@
}

/// The message about a line of `file` that ends in white space.
pub open spec fn trim_message(file: Seq<char>, line: int) -> Seq<char> {
    "Rustfmt left trailing whitespace at "@ + file + ":"@ + decimal(line as nat) + " (sorry)"@
}

/// The messages of the simple line checks on `file` with text `s`: the lines
/// too wide, then the lines that end in white space.
pub open spec fn file_messages(file: Seq<char>, s: Seq<char>) -> Seq<Seq<char>> {
    let st = lines_scan_of(s);
    st.overflows.map_values(|l: int| overflow_message(file, l)) + st.trims.map_values(
        |l: int| trim_message(file, l),
    )
}

/// The text after the simple line checks: of the line feeds at its end, one is kept.
pub open spec fn lines_checked_text(s: Seq<char>) -> Seq<char> {
    let nc = lines_scan_of(s).newline_count;
    if nc > 1 {
        s.take(s.len() - (nc - 1))
    } else {
        s
    }
}

/// The messages of the simple line checks over the files, one file after the other.
pub open spec fn all_messages(files: Seq<(String, StringBuffer)>) -> Seq<Seq<char>>
    decreases files.len(),
{
    if files.len() == 0 {
        Seq::empty()
    } else {
        all_messages(files.drop_last()) + file_messages(
            files.last().0@,
            buffer_text(files.last().1),
        )
    }
}

/// Whether the simple line checks can run on the text `s`: no line has more
/// bytes of white space at its end than characters, and the counts fit.
pub open spec fn lines_scan_ok(s: Seq<char>) -> bool {
    lines_scan_of(s).ok && s.len() < usize::MAX && utf8_len(s) < usize::MAX
}


/// A prefix of a text the simple line checks can run on can be checked too.
proof fn lemma_lines_scan_ok_prefix(s: Seq<char>, i: int)
    requires
        0 <= i <= s.len(),
        lines_scan_of(s).ok,
    ensures
        lines_scan_of(s.take(i)).ok,
    decreases s.len() - i,
{
    if i < s.len() {
        assert(s.take(i + 1).drop_last() =~= s.take(i));
        lemma_lines_scan_ok_prefix(s, i + 1);
    } else {
        assert(s.take(i) =~= s);
    }
}

/// The text of one of the messages.
fn message(text: &str, file: &str, line: usize, tail: &str) -> (r: String)
    ensures
        r@ == text@ + file@ + ":"@ + decimal(line as nat) + tail@,
{
    let mut r = String::from_str(text);
    r.append(file);
    r.append(":");
    let l = decimal_text(line);
    r.append(l.as_str());
    r.append(tail);
    r
}

/// The views of a list of texts.
pub open spec fn message_views(v: Seq<String>) -> Seq<Seq<char>> {
    v.map_values(|m: String| m@)
}

/// The simple line checks on file `name` with text `text`: their messages, and
/// the number of line feeds at its end.
fn check_file(name: &str, text: &StringBuffer) -> (r: (Vec<String>, usize))
    requires
        lines_scan_ok(buffer_text(*text)),
    ensures
        message_views(r.0@) == file_messages(name@, buffer_text(*text)),
        r.1 == lines_scan_of(buffer_text(*text)).newline_count,
        r.1 <= buffer_text(*text).len(),
        forall|j: int|
            buffer_text(*text).len() - r.1 <= j < buffer_text(*text).len() ==> (
            #[trigger] buffer_text(*text)[j]) == '\n',
{
    let chars = buffer_chars(text);
    let ghost s = chars@;
    let mut trims: Vec<usize> = Vec::new();
    let mut overflow_msgs: Vec<String> = Vec::new();
    let mut last_wspace: Option<usize> = None;
    let mut line_len: usize = 0;
    let mut cur_line: usize = 1;
    let mut newline_count: usize = 0;
    let mut b: usize = 0;
    let mut i: usize = 0;
    proof {
        assert(s.take(0) =~= Seq::<char>::empty());
        assert(utf8_len(Seq::<char>::empty()) == 0);
        assert(trims@.map_values(|l: usize| l as int) =~= Seq::<int>::empty());
    }
    while i < chars.len()
        invariant
            s == chars@,
            s == buffer_text(*text),
            lines_scan_ok(s),
            i <= s.len(),
            b == utf8_len(s.take(i as int)),
            ({
                let st = lines_scan_of(s.take(i as int));
                &&& st.trims == trims@.map_values(|l: usize| l as int)
                &&& st.last_wspace == match last_wspace {
                    Some(x) => Some(x as int),
                    None => None::<int>,
                }
                &&& st.line_len == line_len
                &&& st.cur_line == cur_line
                &&& st.newline_count == newline_count
                &&& message_views(overflow_msgs@) == st.overflows.map_values(
                    |l: int| overflow_message(name@, l),
                )
            }),
            cur_line <= i + 1,
            line_len <= i,
            newline_count <= i,
            last_wspace matches Some(lw) ==> lw <= b,
            forall|j: int| i - newline_count <= j < i ==> (#[trigger] s[j]) == '\n',
        decreases s.len() - i,
    {
        let c = chars[i];
        let ghost pre = s.take(i as int);
        proof {
            assert(s.take(i + 1).drop_last() =~= pre);
            assert(s.take(i + 1) =~= pre.push(c));
            lemma_utf8_len_push(pre, c);
            lemma_lines_scan_ok_prefix(s, i + 1);
            crate::text::lemma_byte_len_ge(s);
            assert(s =~= s.take(i + 1) + s.skip(i + 1));
            crate::text::lemma_utf8_len_concat(s.take(i + 1), s.skip(i + 1));
        }
        let w = utf8_width(c);
        if c == '\n' {
            match last_wspace {
                Some(lw) => {
                    trims.push(cur_line);
                    line_len = line_len - (b - lw);
                },
                None => {},
            }
            if line_len > MAX_WIDTH {
                let m = message(
                    "Rustfmt couldn't fix (sorry). ",
                    name,
                    cur_line,
                    ": line longer than 100 characters",
                );
                let ghost before = overflow_msgs@;
                overflow_msgs.push(m);
                assert(message_views(overflow_msgs@) =~= message_views(before).push(
                    overflow_message(name@, cur_line as int),
                ));
            }
            line_len = 0;
            cur_line = cur_line + 1;
            newline_count = newline_count + 1;
            last_wspace = None;
        } else {
            newline_count = 0;
            line_len = line_len + 1;
            if is_whitespace_char(c) {
                if last_wspace.is_none() {
                    last_wspace = Some(b);
                }
            } else {
                last_wspace = None;
            }
        }
        let ghost st = lines_scan_of(s.take(i + 1));
        assert(st.trims =~= trims@.map_values(|l: usize| l as int));
        assert(message_views(overflow_msgs@) =~= st.overflows.map_values(
            |l: int| overflow_message(name@, l),
        ));
        b = b + w;
        i = i + 1;
    }
    assert(s.take(i as int) =~= s);
    let ghost st = lines_scan_of(s);
    let mut msgs = overflow_msgs;
    let mut k: usize = 0;
    let ghost tv = st.trims;
    proof {
        assert(tv.take(0).map_values(|l: int| trim_message(name@, l)) =~= Seq::<Seq<char>>::empty());
        assert(message_views(msgs@) =~= st.overflows.map_values(|l: int| overflow_message(name@, l))
            + tv.take(0).map_values(|l: int| trim_message(name@, l)));
    }
    while k < trims.len()
        invariant
            k <= trims@.len(),
            tv == trims@.map_values(|l: usize| l as int),
            message_views(msgs@) == st.overflows.map_values(|l: int| overflow_message(name@, l))
                + tv.take(k as int).map_values(|l: int| trim_message(name@, l)),
        decreases trims.len() - k,
    {
        let m = message("Rustfmt left trailing whitespace at ", name, trims[k], " (sorry)");
        let ghost before = msgs@;
        msgs.push(m);
        assert(tv.take(k + 1).map_values(|l: int| trim_message(name@, l)) =~= tv.take(
            k as int,
        ).map_values(|l: int| trim_message(name@, l)).push(trim_message(name@, tv[k as int])));
        assert(message_views(msgs@) =~= message_views(before).push(m@));
        k = k + 1;
    }
    assert(tv.take(k as int) =~= tv);
    (msgs, newline_count)
}


/// The simple line checks over every file of `changes`: the messages about lines
/// wider than `MAX_WIDTH` and lines that end in white space, file after file;
/// of the line feeds at the end of each text, all but one are removed.
pub fn fmt_lines(changes: &mut ChangeSet) -> (r: Vec<String>)
    requires
        forall|i: int|
            0 <= i < old(changes).files().len() ==> lines_scan_ok(
                buffer_text(#[trigger] old(changes).files()[i].1),
            ) && buffer_ok(old(changes).files()[i].1),
    ensures
        message_views(r@) == all_messages(old(changes).files()),
        final(changes).files().len() == old(changes).files().len(),
        forall|i: int|
            0 <= i < old(changes).files().len() ==> (#[trigger] final(changes).files()[i]).0
                == old(changes).files()[i].0 && buffer_text(final(changes).files()[i].1)
                == lines_checked_text(buffer_text(old(changes).files()[i].1)) && buffer_ok(
                final(changes).files()[i].1,
            ),
{
    let ghost fs = changes.file_map@;
    let mut all: Vec<String> = Vec::new();
    let mut i: usize = 0;
    assert(fs.take(0) =~= Seq::<(String, StringBuffer)>::empty());
    assert(message_views(all@) =~= Seq::<Seq<char>>::empty());
    while i < changes.file_map.len()
        invariant
            i <= changes.file_map@.len(),
            changes.file_map@.len() == fs.len(),
            fs == old(changes).files(),
            forall|j: int|
                0 <= j < fs.len() ==> lines_scan_ok(buffer_text(#[trigger] fs[j].1)) && buffer_ok(
                    fs[j].1,
                ),
            message_views(all@) == all_messages(fs.take(i as int)),
            forall|j: int|
                0 <= j < i ==> (#[trigger] changes.file_map@[j]).0 == fs[j].0 && buffer_text(
                    changes.file_map@[j].1,
                ) == lines_checked_text(buffer_text(fs[j].1)) && buffer_ok(changes.file_map@[j].1),
            forall|j: int| i <= j < fs.len() ==> #[trigger] changes.file_map@[j] == fs[j],
        decreases changes.file_map.len() - i,
    {
        let (msgs, nc) = check_file(changes.file_map[i].0.as_str(), &changes.file_map[i].1);
        let ghost before = all@;
        let mut k: usize = 0;
        while k < msgs.len()
            invariant
                k <= msgs@.len(),
                message_views(all@) == message_views(before) + message_views(msgs@).take(k as int),
            decreases msgs.len() - k,
        {
            let ghost prev = all@;
            all.push(String::from_str(msgs[k].as_str()));
            assert(message_views(all@) =~= message_views(prev).push(msgs@[k as int]@));
            assert(message_views(msgs@).take(k + 1) =~= message_views(msgs@).take(k as int).push(
                msgs@[k as int]@,
            ));
            assert(message_views(all@) =~= message_views(before) + message_views(msgs@).take(
                k + 1,
            ));
            k = k + 1;
        }
        assert(message_views(msgs@).take(k as int) =~= message_views(msgs@));
        assert(fs.take(i + 1).drop_last() =~= fs.take(i as int));
        let ghost t = buffer_text(fs[i as int].1);
        if nc > 1 {
            proof {
                lemma_drop_line_ends(t, t.len() - (nc - 1));
            }
            let len = buffer_len(&changes.file_map[i].1);
            buffer_truncate(&mut changes.file_map[i].1, len - nc + 1);
        }
        i = i + 1;
    }
    assert(fs.take(i as int) =~= fs);
    all
}


/// With Windows line endings every line feed follows a carriage return, and
/// every carriage return is followed by a line feed.
pub proof fn lemma_windows_text_line_endings(s: Seq<char>)
    ensures
        forall|j: int|
            0 <= j < windows_text(s).len() && #[trigger] windows_text(s)[j] == '\n' ==> j > 0
                && windows_text(s)[j - 1] == '\r',
        forall|j: int|
            0 <= j < windows_text(s).len() && #[trigger] windows_text(s)[j] == '\r' ==> j + 1
                < windows_text(s).len() && windows_text(s)[j + 1] == '\n',
    decreases s.len(),
{
    if s.len() > 0 {
        lemma_windows_text_line_endings(s.drop_last());
        let p = windows_text(s.drop_last());
        let w = windows_text(s);
        assert forall|j: int| 0 <= j < p.len() implies w[j] == p[j] by {}
    }
}


/// The whole changed text: each file's name and a colon on a line, then its
/// text and a blank line.
pub open spec fn change_set_text(files: Seq<(String, StringBuffer)>) -> Seq<char>
    decreases files.len(),
{
    if files.len() == 0 {
        Seq::empty()
    } else {
        change_set_text(files.drop_last()) + files.last().0@ + ":\n"@ + buffer_text(
            files.last().1,
        ) + "\n\n"@
    }
}

impl ChangeSet {
    /// The whole changed text (see `change_set_text`).
    pub fn to_text(&self) -> (r: String)
        ensures
            r@ == change_set_text(self.files()),
    {
        let mut r = String::new();
        let mut i: usize = 0;
        assert(self.file_map@.take(0) =~= Seq::<(String, StringBuffer)>::empty());
        while i < self.file_map.len()
            invariant
                i <= self.file_map@.len(),
                r@ == change_set_text(self.file_map@.take(i as int)),
            decreases self.file_map.len() - i,
        {
            r.append(self.file_map[i].0.as_str());
            r.append(":\n");
            let t = buffer_to_string(&self.file_map[i].1);
            r.append(t.as_str());
            r.append("\n\n");
            assert(self.file_map@.take(i + 1).drop_last() =~= self.file_map@.take(i as int));
            i = i + 1;
        }
        assert(self.file_map@.take(i as int) =~= self.file_map@);
        r
    }
}

} // verus!
