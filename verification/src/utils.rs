//! Measurements of the lines of a piece of formatted text.
use vstd::prelude::*;

use vstd::string::StrSliceExecFns;

use crate::config::Config;
use crate::shape::Shape;
use crate::text::{
    byte_len, chars_of, first_index_of, first_where, is_whitespace_char, is_ws_char,
    last_index_of, last_where, lemma_first_where, lemma_first_where_props, lemma_last_where,
    lemma_last_where_props, lines_of, newline_pred, split_lines, trim_str, trim_ws,
};

verus! {

/// Width in bytes of the first line of `s`.
pub open spec fn spec_first_line_width(s: Seq<char>) -> usize {
    byte_len(s.take(first_where(s, newline_pred())))
}

/// Width in bytes of the last line of `s`.
pub open spec fn spec_last_line_width(s: Seq<char>) -> usize {
    byte_len(s.skip(last_where(s, newline_pred()) + 1))
}

/// Whether `s` holds a line feed.
pub open spec fn has_newline(s: Seq<char>) -> bool {
    exists|i: int| 0 <= i < s.len() && s[i] == '\n'
}

/// Whether `needle` occurs in `s` as a contiguous part.
pub open spec fn contains_seq(s: Seq<char>, needle: Seq<char>) -> bool {
    exists|i: int| 0 <= i && i + needle.len() <= s.len() && #[trigger] s.subrange(i, i + needle.len()) == needle
}

/// Whether the last line of `s` holds `//`.
pub open spec fn spec_last_line_has_comment(s: Seq<char>) -> bool {
    let ls = lines_of(s);
    ls.len() > 0 && contains_seq(ls.last(), seq!['/', '/'])
}

/// A closing bracket or a question mark.
pub open spec fn is_closer(c: char) -> bool {
    c == ')' || c == ']' || c == '}' || c == '?'
}

/// Whether the last line of `s` ends a raw string or holds only closers and
/// white space.
pub open spec fn spec_last_line_extendable(s: Seq<char>) -> bool {
    ||| s.len() >= 2 && s[s.len() - 2] == '"' && s[s.len() - 1] == '#'
    ||| forall|j: int|
        last_where(s, newline_pred()) < j < s.len() ==> is_closer(#[trigger] s[j]) || is_ws_char(s[j])
}

/// Neither a line feed nor a carriage return.
pub open spec fn not_line_break_pred() -> spec_fn(char) -> bool {
    |c: char| c != '\n' && c != '\r'
}

/// `s` without line feeds and carriage returns at either end.
pub open spec fn spec_trim_newlines(s: Seq<char>) -> Seq<char> {
    let a = first_where(s, not_line_break_pred());
    if a == s.len() {
        Seq::<char>::empty()
    } else {
        s.subrange(a, last_where(s, not_line_break_pred()) + 1)
    }
}

/// Whether `s` fits `shape`: the first line within the shape's width, the
/// other lines within `max_width`, and the last line within the shape's used
/// width plus its width.
pub open spec fn spec_is_valid_str(s: Seq<char>, max_width: usize, shape: Shape) -> bool {
    s.len() == 0 || {
        &&& spec_first_line_width(s) <= shape.width
        &&& spec_first_line_width(s) == byte_len(s) || {
            &&& forall|i: int|
                1 <= i < lines_of(s).len() ==> byte_len(#[trigger] lines_of(s)[i]) <= max_width
            &&& spec_last_line_width(s) <= shape.spec_used_width() + shape.width
        }
    }
}

/// Width in bytes of the text before the first line feed of `s`, or of all of `s`.
pub fn first_line_width(s: &str) -> (r: usize)
    ensures
        r == spec_first_line_width(s@),
{
    let v = chars_of(s);
    let k = first_index_of(&v, '\n');
    proof {
        lemma_first_where_props(s@, |x: char| x == '\n');
        assert(first_where(s@, |x: char| x == '\n') == first_where(s@, newline_pred()));
    }
    s.substring_char(0, k).len()
}

/// Width in bytes of the text after the last line feed of `s`, or of all of `s`.
pub fn last_line_width(s: &str) -> (r: usize)
    ensures
        r == spec_last_line_width(s@),
{
    let v = chars_of(s);
    let k = last_index_of(&v, '\n');
    proof {
        lemma_last_where_props(s@, |x: char| x == '\n');
        assert(last_where(s@, |x: char| x == '\n') == last_where(s@, newline_pred()));
    }
    let from = match k {
        Some(i) => i + 1,
        None => 0,
    };
    s.substring_char(from, v.len()).len()
}

/// Whether `s` holds a line feed, with the index of the last one.
fn last_newline(v: &Vec<char>) -> (r: Option<usize>)
    ensures
        r matches Some(k) ==> k < v.len() && last_where(v@, newline_pred()) == k,
        r is None ==> last_where(v@, newline_pred()) == -1,
        (r is Some) == has_newline(v@),
{
    let k = last_index_of(v, '\n');
    proof {
        lemma_last_where_props(v@, |x: char| x == '\n');
        assert(last_where(v@, |x: char| x == '\n') == last_where(v@, newline_pred()));
    }
    k
}

/// The width of the last line of `s`: the whole last line when `s` spans
/// several lines, else `offset` plus the width of `s`.
pub fn last_line_used_width(s: &str, offset: usize) -> (r: usize)
    requires
        !has_newline(s@) ==> offset + byte_len(s@) <= usize::MAX,
    ensures
        has_newline(s@) ==> r == spec_last_line_width(s@),
        !has_newline(s@) ==> r == offset + byte_len(s@),
{
    let v = chars_of(s);
    match last_newline(&v) {
        Some(_) => last_line_width(s),
        None => offset + s.len(),
    }
}

/// Width in bytes of the last line of `s` without white space at either end.
pub fn trimmed_last_line_width(s: &str) -> (r: usize)
    ensures
        r == byte_len(trim_ws(s@.skip(last_where(s@, newline_pred()) + 1))),
{
    let v = chars_of(s);
    let from = match last_newline(&v) {
        Some(k) => k + 1,
        None => 0,
    };
    let tail = s.substring_char(from, v.len());
    assert(tail@ == s@.skip(last_where(s@, newline_pred()) + 1));
    trim_str(tail).len()
}

/// Whether the last line of `s` can take more text after it: `s` ends a raw
/// string (`"#`), or its last line holds only closing brackets, `?` and white space.
pub fn last_line_extendable(s: &str) -> (r: bool)
    ensures
        r == spec_last_line_extendable(s@),
{
    let v = chars_of(s);
    let n = v.len();
    if n >= 2 && v[n - 2] == '"' && v[n - 1] == '#' {
        return true;
    }
    let mut i: usize = n;
    while i > 0
        invariant
            i <= n == v@.len(),
            v@ == s@,
            !(n >= 2 && v@[n - 2] == '"' && v@[n - 1] == '#'),
            forall|j: int| i <= j < n ==> v@[j] != '\n',
            forall|j: int| i <= j < n ==> is_closer(#[trigger] v@[j]) || is_ws_char(v@[j]),
        decreases i,
    {
        let c = v[i - 1];
        if c == '\n' {
            proof {
                lemma_last_where(s@, newline_pred(), i - 1);
            }
            return true;
        }
        if !(c == ')' || c == ']' || c == '}' || c == '?' || is_whitespace_char(c)) {
            proof {
                lemma_last_where_props(s@, newline_pred());
                let k = last_where(s@, newline_pred());
                if k >= i - 1 {
                    assert(newline_pred()(s@[k]));
                }
                assert(!(is_closer(s@[i - 1]) || is_ws_char(s@[i - 1])));
            }
            return false;
        }
        i = i - 1;
    }
    proof {
        lemma_last_where(s@, newline_pred(), -1);
    }
    true
}

/// Whether `//` occurs in `l`.
fn contains_double_slash(l: &str) -> (r: bool)
    ensures
        r == contains_seq(l@, seq!['/', '/']),
{
    let v = chars_of(l);
    let mut i: usize = 0;
    while v.len() > 1 && i < v.len() - 1
        invariant
            v@ == l@,
            forall|j: int| 0 <= j < i && j + 1 < v.len() ==> !(#[trigger] v@[j] == '/' && v@[j + 1] == '/'),
        decreases v.len() - i,
    {
        if v[i] == '/' && v[i + 1] == '/' {
            assert(l@.subrange(i as int, i + 2) =~= seq!['/', '/']);
            return true;
        }
        i = i + 1;
    }
    assert forall|j: int|
        0 <= j && j + 2 <= l@.len() implies #[trigger] l@.subrange(j, j + 2) != seq!['/', '/'] by {
        if l@.subrange(j, j + 2) == seq!['/', '/'] {
            assert(l@.subrange(j, j + 2)[0] == '/');
            assert(l@.subrange(j, j + 2)[1] == '/');
        }
    }
    false
}

/// Whether the last line of `s` holds a `//` comment marker.
pub fn last_line_contains_single_line_comment(s: &str) -> (r: bool)
    ensures
        r == spec_last_line_has_comment(s@),
{
    let ls = split_lines(s);
    if ls.len() == 0 {
        false
    } else {
        contains_double_slash(ls[ls.len() - 1])
    }
}

/// Whether attributes written as `attrs_str` can be followed on the same line:
/// they are one line that holds no `//`.
pub fn is_attributes_extendable(attrs_str: &str) -> (r: bool)
    ensures
        r == (!has_newline(attrs_str@) && !spec_last_line_has_comment(attrs_str@)),
{
    let v = chars_of(attrs_str);
    let k = last_newline(&v);
    k.is_none() && !last_line_contains_single_line_comment(attrs_str)
}

/// `input` without line feeds and carriage returns at either end.
pub fn trim_newlines(input: &str) -> (r: &str)
    ensures
        r@ == spec_trim_newlines(input@),
{
    let v = chars_of(input);
    let n = v.len();
    let mut a: usize = 0;
    while a < n && (v[a] == '\n' || v[a] == '\r')
        invariant
            a <= n == v@.len(),
            forall|j: int| 0 <= j < a ==> !not_line_break_pred()(#[trigger] v@[j]),
        decreases n - a,
    {
        a = a + 1;
    }
    proof {
        lemma_first_where(input@, not_line_break_pred(), a as int);
    }
    if a == n {
        return input.substring_char(0, 0);
    }
    let mut e: usize = n;
    while e > 0 && (v[e - 1] == '\n' || v[e - 1] == '\r')
        invariant
            e <= n == v@.len(),
            a < n,
            not_line_break_pred()(v@[a as int]),
            forall|j: int| e <= j < n ==> !not_line_break_pred()(#[trigger] v@[j]),
        decreases e,
    {
        e = e - 1;
    }
    proof {
        lemma_last_where(input@, not_line_break_pred(), e - 1);
    }
    input.substring_char(a, e)
}

/// The text around a colon: a space before it, after it, both or neither.
pub fn colon_spaces(before: bool, after: bool) -> (r: &'static str)
    ensures
        r@ == (if before { seq![' '] } else { Seq::<char>::empty() }) + seq![':'] + (if after {
            seq![' ']
        } else {
            Seq::<char>::empty()
        }),
{
    proof {
        reveal_strlit(" : ");
        reveal_strlit(" :");
        reveal_strlit(": ");
        reveal_strlit(":");
    }
    if before && after {
        assert(" : "@ =~= seq![' ', ':', ' ']);
        " : "
    } else if before {
        assert(" :"@ =~= seq![' ', ':']);
        " :"
    } else if after {
        assert(": "@ =~= seq![':', ' ']);
        ": "
    } else {
        assert(":"@ =~= seq![':']);
        ":"
    }
}

/// Whether `s` starts with a line break (`\n` or `\r\n`).
pub fn starts_with_newline(s: &str) -> (r: bool)
    ensures
        r == ((s@.len() >= 1 && s@[0] == '\n') || (s@.len() >= 2 && s@[0] == '\r' && s@[1]
            == '\n')),
{
    let n = s.unicode_len();
    (n >= 1 && s.get_char(0) == '\n') || (n >= 2 && s.get_char(0) == '\r' && s.get_char(1)
        == '\n')
}

/// Whether `is_valid_str` gets as far as comparing the last line with the
/// shape's used width plus its width.
pub open spec fn reaches_last_line_check(s: Seq<char>, max_width: usize, shape: Shape) -> bool {
    &&& s.len() > 0
    &&& spec_first_line_width(s) <= shape.width
    &&& spec_first_line_width(s) != byte_len(s)
    &&& forall|i: int| 1 <= i < lines_of(s).len() ==> byte_len(#[trigger] lines_of(s)[i]) <= max_width
}

/// Whether `is_valid_str` compares the last line of `s` with the shape's used
/// width plus its width.
pub fn reaches_last_line_check_exec(s: &str, max_width: usize, shape: Shape) -> (r: bool)
    ensures
        r == reaches_last_line_check(s@, max_width, shape),
{
    if s.unicode_len() == 0 {
        return false;
    }
    let flw = first_line_width(s);
    if flw > shape.width || flw == s.len() {
        return false;
    }
    let ls = split_lines(s);
    let mut i: usize = 1;
    while i < ls.len()
        invariant
            1 <= i,
            ls@.len() == lines_of(s@).len(),
            forall|j: int| 0 <= j < ls@.len() ==> (#[trigger] ls@[j])@ == lines_of(s@)[j],
            forall|j: int| 1 <= j < i && j < ls@.len() ==> byte_len(#[trigger] lines_of(s@)[j]) <= max_width,
        decreases ls.len() - i,
    {
        if ls[i].len() > max_width {
            assert(byte_len(lines_of(s@)[i as int]) > max_width);
            return false;
        }
        i = i + 1;
    }
    true
}

/// Whether `snippet` fits `shape`, its lines after the first within `max_width`.
pub fn is_valid_str(snippet: &str, max_width: usize, shape: Shape) -> (r: bool)
    requires
        reaches_last_line_check(snippet@, max_width, shape) ==> shape.spec_used_width()
            + shape.width <= usize::MAX,
    ensures
        r == spec_is_valid_str(snippet@, max_width, shape),
{
    if snippet.unicode_len() == 0 {
        return true;
    }
    let flw = first_line_width(snippet);
    if flw > shape.width {
        return false;
    }
    if flw == snippet.len() {
        return true;
    }
    let ls = split_lines(snippet);
    let mut i: usize = 1;
    while i < ls.len()
        invariant
            1 <= i,
            snippet@.len() > 0,
            spec_first_line_width(snippet@) <= shape.width,
            spec_first_line_width(snippet@) != byte_len(snippet@),
            ls@.len() == lines_of(snippet@).len(),
            forall|j: int| 0 <= j < ls@.len() ==> (#[trigger] ls@[j])@ == lines_of(snippet@)[j],
            forall|j: int| 1 <= j < i && j < ls@.len() ==> byte_len(#[trigger] lines_of(snippet@)[j]) <= max_width,
        decreases ls.len() - i,
    {
        if ls[i].len() > max_width {
            assert(byte_len(lines_of(snippet@)[i as int]) > max_width);
            return false;
        }
        i = i + 1;
    }
    if last_line_width(snippet) > shape.used_width() + shape.width {
        return false;
    }
    true
}

/// `s` when it fits `shape` (see `is_valid_str`), else nothing.
pub fn wrap_str(s: String, max_width: usize, shape: Shape) -> (r: Option<String>)
    requires
        reaches_last_line_check(s@, max_width, shape) ==> shape.spec_used_width() + shape.width
            <= usize::MAX,
    ensures
        spec_is_valid_str(s@, max_width, shape) ==> (r matches Some(t) && t@ == s@),
        !spec_is_valid_str(s@, max_width, shape) ==> r is None,
{
    if is_valid_str(s.as_str(), max_width, shape) {
        Some(s)
    } else {
        None
    }
}

/// The width of the last line of `text` past the shape's used width; all of
/// `text` when it is one line.
pub fn extra_offset(text: &str, shape: Shape) -> (r: usize)
    requires
        has_newline(text@) ==> shape.spec_used_width() + byte_len(
            text@.take(last_where(text@, newline_pred())),
        ) + 1 <= usize::MAX,
    ensures
        has_newline(text@) ==> r == crate::shape::sat_sub(
            byte_len(text@) as int,
            byte_len(text@.take(last_where(text@, newline_pred()))) + 1 + shape.spec_used_width(),
        ),
        !has_newline(text@) ==> r == byte_len(text@),
{
    let v = chars_of(text);
    match last_newline(&v) {
        Some(k) => {
            let idx = text.substring_char(0, k).len();
            let sub = idx + 1 + shape.used_width();
            if text.len() >= sub {
                text.len() - sub
            } else {
                0
            }
        },
        None => text.len(),
    }
}

/// The width that a pair of parentheses takes, with the configured spaces inside.
pub fn paren_overhead(config: &Config) -> (r: usize)
    ensures
        r == if config.spaces_within_parens {
            4usize
        } else {
            2usize
        },
{
    if config.spaces_within_parens {
        4
    } else {
        2
    }
}

} // verus!
