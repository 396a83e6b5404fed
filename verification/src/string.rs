//! Breaking string literals and comments into lines that fit a shape.
use vstd::prelude::*;

use unicode_segmentation::UnicodeSegmentation;
use vstd::string::{StrSliceExecFns, StringExecFns};

use crate::config::Config;
use crate::pattern::{regex_compiles, regex_new, regex_replace_all, regex_replaced};
use crate::shape::Shape;
use crate::utils::{reaches_last_line_check, reaches_last_line_check_exec, spec_is_valid_str, wrap_str};

use crate::text::{
    byte_len, chars_of, first_where, is_whitespace_char, is_ws_char, last_where, lemma_first_where,
    lemma_first_where_props, lemma_last_where, lemma_last_where_props, trim_end_str, trim_end_while_not,
    trim_end_ws,
};

verus! {

/// The text of each element of `gs`.
pub open spec fn views(gs: Seq<&str>) -> Seq<Seq<char>> {
    gs.map_values(|g: &str| g@)
}

/// The elements of `gs` written one after the other.
pub open spec fn concat(gs: Seq<Seq<char>>) -> Seq<char>
    decreases gs.len(),
{
    if gs.len() == 0 {
        Seq::<char>::empty()
    } else {
        concat(gs.drop_last()) + gs.last()
    }
}

/// A grapheme made only of white space.
pub open spec fn g_ws(g: Seq<char>) -> bool {
    forall|i: int| 0 <= i < g.len() ==> is_ws_char(#[trigger] g[i])
}

/// A grapheme that starts with a line feed.
pub open spec fn g_lf(g: Seq<char>) -> bool {
    g.len() > 0 && g[0] == '\n'
}

/// A grapheme that starts with `:`, `,`, `;` or `.`.
pub open spec fn g_punct(g: Seq<char>) -> bool {
    g.len() > 0 && (g[0] == ':' || g[0] == ',' || g[0] == ';' || g[0] == '.')
}

pub open spec fn ws_g() -> spec_fn(Seq<char>) -> bool {
    |g: Seq<char>| g_ws(g)
}

pub open spec fn lf_g() -> spec_fn(Seq<char>) -> bool {
    |g: Seq<char>| g_lf(g)
}

pub open spec fn punct_g() -> spec_fn(Seq<char>) -> bool {
    |g: Seq<char>| g_punct(g)
}

/// A line feed, or anything but white space.
pub open spec fn not_ws_except_lf_g() -> spec_fn(Seq<char>) -> bool {
    |g: Seq<char>| g_lf(g) || !g_ws(g)
}

/// White space or punctuation.
pub open spec fn ws_or_punct_g() -> spec_fn(Seq<char>) -> bool {
    |g: Seq<char>| g_ws(g) || g_punct(g)
}

/// Every grapheme is at least one character long.
pub open spec fn all_nonempty(gs: Seq<Seq<char>>) -> bool {
    forall|i: int| 0 <= i < gs.len() ==> (#[trigger] gs[i]).len() > 0
}

/// `s` starts with `prefix`.
pub open spec fn starts_with(s: Seq<char>, prefix: Seq<char>) -> bool {
    s.len() >= prefix.len() && s.take(prefix.len() as int) == prefix
}

/// Whether `prefix` begins with one of the URL schemes `https://`, `http://`,
/// `ftp://` or `file://`.
pub open spec fn starts_like_url(prefix: Seq<char>) -> bool {
    ||| starts_with(prefix, seq!['h', 't', 't', 'p', 's', ':', '/', '/'])
    ||| starts_with(prefix, seq!['h', 't', 't', 'p', ':', '/', '/'])
    ||| starts_with(prefix, seq!['f', 't', 'p', ':', '/', '/'])
    ||| starts_with(prefix, seq!['f', 'i', 'l', 'e', ':', '/', '/'])
}

/// Where a URL around `index` ends: the word holding `index` starts with a URL
/// scheme, and the URL runs to the grapheme before the next white space (or to
/// the end). The value can be `-1`.
pub open spec fn spec_detect_url(s: Seq<Seq<char>>, index: int) -> Option<int> {
    let start = last_where(s.take(index + 1), ws_g()) + 1;
    if s.len() < start + 8 {
        None
    } else if starts_like_url(concat(s.subrange(start, start + 8))) {
        let p = first_where(s.skip(index), ws_g());
        if p < s.len() - index {
            Some(index + p - 1)
        } else {
            Some(s.len() - 1)
        }
    } else {
        None
    }
}

/// Whether every character of `g` is white space.
pub fn is_whitespace(g: &str) -> (r: bool)
    ensures
        r == g_ws(g@),
{
    let n = g.unicode_len();
    let mut i: usize = 0;
    while i < n
        invariant
            n == g@.len(),
            i <= n,
            forall|j: int| 0 <= j < i ==> is_ws_char(#[trigger] g@[j]),
        decreases n - i,
    {
        if !is_whitespace_char(g.get_char(i)) {
            return false;
        }
        i = i + 1;
    }
    true
}

/// Whether `g` starts with a line feed.
pub fn is_line_feed(g: &str) -> (r: bool)
    requires
        g@.len() > 0,
    ensures
        r == g_lf(g@),
{
    g.get_char(0) == '\n'
}

/// Whether `g` starts with `:`, `,`, `;` or `.`.
pub fn is_punctuation(g: &str) -> (r: bool)
    requires
        g@.len() > 0,
    ensures
        r == g_punct(g@),
{
    let c = g.get_char(0);
    c == ':' || c == ',' || c == ';' || c == '.'
}

/// A line feed, or a grapheme that is not all white space.
pub fn not_whitespace_except_line_feed(g: &str) -> (r: bool)
    requires
        g@.len() > 0,
    ensures
        r == (g_lf(g@) || !g_ws(g@)),
{
    is_line_feed(g) || !is_whitespace(g)
}

proof fn lemma_concat_push(gs: Seq<Seq<char>>, i: int)
    requires
        0 <= i < gs.len(),
    ensures
        concat(gs.subrange(0, i + 1)) == concat(gs.subrange(0, i)) + gs[i],
{
    assert(gs.subrange(0, i + 1).drop_last() =~= gs.subrange(0, i));
}

proof fn lemma_concat_push_from(gs: Seq<Seq<char>>, lo: int, i: int)
    requires
        0 <= lo <= i < gs.len(),
    ensures
        concat(gs.subrange(lo, i + 1)) == concat(gs.subrange(lo, i)) + gs[i],
{
    assert(gs.subrange(lo, i + 1).drop_last() =~= gs.subrange(lo, i));
}

/// The graphemes `gs[lo..hi]` written one after the other.
pub fn join_range(gs: &[&str], lo: usize, hi: usize) -> (r: String)
    requires
        lo <= hi <= gs@.len(),
    ensures
        r@ == concat(views(gs@).subrange(lo as int, hi as int)),
{
    let mut r = String::new();
    let mut i = lo;
    proof {
        assert(views(gs@).subrange(lo as int, lo as int) =~= Seq::<Seq<char>>::empty());
    }
    while i < hi
        invariant
            lo <= i <= hi <= gs@.len(),
            r@ == concat(views(gs@).subrange(lo as int, i as int)),
        decreases hi - i,
    {
        r.append(gs[i]);
        proof {
            lemma_concat_push_from(views(gs@), lo as int, i as int);
        }
        i = i + 1;
    }
    r
}

/// Index of the last grapheme of `gs[..hi]` that is all white space.
fn rposition_ws(gs: &[&str], hi: usize) -> (r: Option<usize>)
    requires
        hi <= gs@.len(),
    ensures
        r matches Some(k) ==> k < hi && last_where(views(gs@).take(hi as int), ws_g()) == k,
        r is None ==> last_where(views(gs@).take(hi as int), ws_g()) == -1,
{
    let ghost t = views(gs@).take(hi as int);
    let mut i = hi;
    while i > 0
        invariant
            i <= hi <= gs@.len(),
            t == views(gs@).take(hi as int),
            forall|j: int| i <= j < hi ==> !ws_g()(#[trigger] t[j]),
        decreases i,
    {
        if is_whitespace(gs[i - 1]) {
            proof {
                lemma_last_where(t, ws_g(), i - 1);
            }
            return Some(i - 1);
        }
        i = i - 1;
    }
    proof {
        lemma_last_where(t, ws_g(), -1);
    }
    None
}

/// Index of the first grapheme of `gs[from..]` that is all white space, counted from `from`.
fn position_ws(gs: &[&str], from: usize) -> (r: Option<usize>)
    requires
        from <= gs@.len(),
    ensures
        r matches Some(k) ==> k < gs@.len() - from && first_where(views(gs@).skip(from as int), ws_g()) == k,
        r is None ==> first_where(views(gs@).skip(from as int), ws_g()) == gs@.len() - from,
{
    let ghost t = views(gs@).skip(from as int);
    let mut i = from;
    while i < gs.len()
        invariant
            from <= i <= gs@.len(),
            t == views(gs@).skip(from as int),
            forall|j: int| 0 <= j < i - from ==> !ws_g()(#[trigger] t[j]),
        decreases gs.len() - i,
    {
        if is_whitespace(gs[i]) {
            proof {
                lemma_first_where(t, ws_g(), i - from);
            }
            return Some(i - from);
        }
        i = i + 1;
    }
    proof {
        lemma_first_where(t, ws_g(), i - from);
    }
    None
}

/// Index of the last grapheme of `gs[..hi]` satisfying `a line feed or not white space`.
fn rposition_nwelf(gs: &[&str], hi: usize) -> (r: Option<usize>)
    requires
        hi <= gs@.len(),
        all_nonempty(views(gs@)),
    ensures
        r matches Some(k) ==> k < hi && last_where(views(gs@).take(hi as int), not_ws_except_lf_g()) == k,
        r is None ==> last_where(views(gs@).take(hi as int), not_ws_except_lf_g()) == -1,
{
    let ghost t = views(gs@).take(hi as int);
    let mut i = hi;
    while i > 0
        invariant
            i <= hi <= gs@.len(),
            all_nonempty(views(gs@)),
            t == views(gs@).take(hi as int),
            forall|j: int| i <= j < hi ==> !not_ws_except_lf_g()(#[trigger] t[j]),
        decreases i,
    {
        assert(views(gs@)[i - 1] == gs@[i - 1]@);
        if not_whitespace_except_line_feed(gs[i - 1]) {
            proof {
                lemma_last_where(t, not_ws_except_lf_g(), i - 1);
            }
            return Some(i - 1);
        }
        i = i - 1;
    }
    proof {
        lemma_last_where(t, not_ws_except_lf_g(), -1);
    }
    None
}

/// Index of the first grapheme of `gs[from..]` satisfying `a line feed or not white space`, counted from `from`.
fn position_nwelf(gs: &[&str], from: usize) -> (r: Option<usize>)
    requires
        from <= gs@.len(),
        all_nonempty(views(gs@)),
    ensures
        r matches Some(k) ==> k < gs@.len() - from && first_where(views(gs@).skip(from as int), not_ws_except_lf_g()) == k,
        r is None ==> first_where(views(gs@).skip(from as int), not_ws_except_lf_g()) == gs@.len() - from,
{
    let ghost t = views(gs@).skip(from as int);
    let mut i = from;
    while i < gs.len()
        invariant
            from <= i <= gs@.len(),
            all_nonempty(views(gs@)),
            t == views(gs@).skip(from as int),
            forall|j: int| 0 <= j < i - from ==> !not_ws_except_lf_g()(#[trigger] t[j]),
        decreases gs.len() - i,
    {
        assert(views(gs@)[i as int] == gs@[i as int]@);
        if not_whitespace_except_line_feed(gs[i]) {
            proof {
                lemma_first_where(t, not_ws_except_lf_g(), i - from);
            }
            return Some(i - from);
        }
        i = i + 1;
    }
    proof {
        lemma_first_where(t, not_ws_except_lf_g(), i - from);
    }
    None
}

/// Index of the last grapheme of `gs[..hi]` satisfying `a line feed`.
fn rposition_lf(gs: &[&str], hi: usize) -> (r: Option<usize>)
    requires
        hi <= gs@.len(),
        all_nonempty(views(gs@)),
    ensures
        r matches Some(k) ==> k < hi && last_where(views(gs@).take(hi as int), lf_g()) == k,
        r is None ==> last_where(views(gs@).take(hi as int), lf_g()) == -1,
{
    let ghost t = views(gs@).take(hi as int);
    let mut i = hi;
    while i > 0
        invariant
            i <= hi <= gs@.len(),
            all_nonempty(views(gs@)),
            t == views(gs@).take(hi as int),
            forall|j: int| i <= j < hi ==> !lf_g()(#[trigger] t[j]),
        decreases i,
    {
        assert(views(gs@)[i - 1] == gs@[i - 1]@);
        if is_line_feed(gs[i - 1]) {
            proof {
                lemma_last_where(t, lf_g(), i - 1);
            }
            return Some(i - 1);
        }
        i = i - 1;
    }
    proof {
        lemma_last_where(t, lf_g(), -1);
    }
    None
}

/// Index of the first grapheme of `gs[from..]` satisfying `a line feed`, counted from `from`.
fn position_lf(gs: &[&str], from: usize) -> (r: Option<usize>)
    requires
        from <= gs@.len(),
        all_nonempty(views(gs@)),
    ensures
        r matches Some(k) ==> k < gs@.len() - from && first_where(views(gs@).skip(from as int), lf_g()) == k,
        r is None ==> first_where(views(gs@).skip(from as int), lf_g()) == gs@.len() - from,
{
    let ghost t = views(gs@).skip(from as int);
    let mut i = from;
    while i < gs.len()
        invariant
            from <= i <= gs@.len(),
            all_nonempty(views(gs@)),
            t == views(gs@).skip(from as int),
            forall|j: int| 0 <= j < i - from ==> !lf_g()(#[trigger] t[j]),
        decreases gs.len() - i,
    {
        assert(views(gs@)[i as int] == gs@[i as int]@);
        if is_line_feed(gs[i]) {
            proof {
                lemma_first_where(t, lf_g(), i - from);
            }
            return Some(i - from);
        }
        i = i + 1;
    }
    proof {
        lemma_first_where(t, lf_g(), i - from);
    }
    None
}

/// Index of the last grapheme of `gs[..hi]` satisfying `punctuation`.
fn rposition_punct(gs: &[&str], hi: usize) -> (r: Option<usize>)
    requires
        hi <= gs@.len(),
        all_nonempty(views(gs@)),
    ensures
        r matches Some(k) ==> k < hi && last_where(views(gs@).take(hi as int), punct_g()) == k,
        r is None ==> last_where(views(gs@).take(hi as int), punct_g()) == -1,
{
    let ghost t = views(gs@).take(hi as int);
    let mut i = hi;
    while i > 0
        invariant
            i <= hi <= gs@.len(),
            all_nonempty(views(gs@)),
            t == views(gs@).take(hi as int),
            forall|j: int| i <= j < hi ==> !punct_g()(#[trigger] t[j]),
        decreases i,
    {
        assert(views(gs@)[i - 1] == gs@[i - 1]@);
        if is_punctuation(gs[i - 1]) {
            proof {
                lemma_last_where(t, punct_g(), i - 1);
            }
            return Some(i - 1);
        }
        i = i - 1;
    }
    proof {
        lemma_last_where(t, punct_g(), -1);
    }
    None
}

/// Index of the first grapheme of `gs[from..]` satisfying `punctuation`, counted from `from`.
fn position_punct(gs: &[&str], from: usize) -> (r: Option<usize>)
    requires
        from <= gs@.len(),
        all_nonempty(views(gs@)),
    ensures
        r matches Some(k) ==> k < gs@.len() - from && first_where(views(gs@).skip(from as int), punct_g()) == k,
        r is None ==> first_where(views(gs@).skip(from as int), punct_g()) == gs@.len() - from,
{
    let ghost t = views(gs@).skip(from as int);
    let mut i = from;
    while i < gs.len()
        invariant
            from <= i <= gs@.len(),
            all_nonempty(views(gs@)),
            t == views(gs@).skip(from as int),
            forall|j: int| 0 <= j < i - from ==> !punct_g()(#[trigger] t[j]),
        decreases gs.len() - i,
    {
        assert(views(gs@)[i as int] == gs@[i as int]@);
        if is_punctuation(gs[i]) {
            proof {
                lemma_first_where(t, punct_g(), i - from);
            }
            return Some(i - from);
        }
        i = i + 1;
    }
    proof {
        lemma_first_where(t, punct_g(), i - from);
    }
    None
}

/// Index of the last grapheme of `gs[..hi]` satisfying `white space or punctuation`.
fn rposition_ws_or_punct(gs: &[&str], hi: usize) -> (r: Option<usize>)
    requires
        hi <= gs@.len(),
        all_nonempty(views(gs@)),
    ensures
        r matches Some(k) ==> k < hi && last_where(views(gs@).take(hi as int), ws_or_punct_g()) == k,
        r is None ==> last_where(views(gs@).take(hi as int), ws_or_punct_g()) == -1,
{
    let ghost t = views(gs@).take(hi as int);
    let mut i = hi;
    while i > 0
        invariant
            i <= hi <= gs@.len(),
            all_nonempty(views(gs@)),
            t == views(gs@).take(hi as int),
            forall|j: int| i <= j < hi ==> !ws_or_punct_g()(#[trigger] t[j]),
        decreases i,
    {
        assert(views(gs@)[i - 1] == gs@[i - 1]@);
        if is_ws_or_punct(gs[i - 1]) {
            proof {
                lemma_last_where(t, ws_or_punct_g(), i - 1);
            }
            return Some(i - 1);
        }
        i = i - 1;
    }
    proof {
        lemma_last_where(t, ws_or_punct_g(), -1);
    }
    None
}

/// Index of the first grapheme of `gs[from..]` satisfying `white space or punctuation`, counted from `from`.
fn position_ws_or_punct(gs: &[&str], from: usize) -> (r: Option<usize>)
    requires
        from <= gs@.len(),
        all_nonempty(views(gs@)),
    ensures
        r matches Some(k) ==> k < gs@.len() - from && first_where(views(gs@).skip(from as int), ws_or_punct_g()) == k,
        r is None ==> first_where(views(gs@).skip(from as int), ws_or_punct_g()) == gs@.len() - from,
{
    let ghost t = views(gs@).skip(from as int);
    let mut i = from;
    while i < gs.len()
        invariant
            from <= i <= gs@.len(),
            all_nonempty(views(gs@)),
            t == views(gs@).skip(from as int),
            forall|j: int| 0 <= j < i - from ==> !ws_or_punct_g()(#[trigger] t[j]),
        decreases gs.len() - i,
    {
        assert(views(gs@)[i as int] == gs@[i as int]@);
        if is_ws_or_punct(gs[i]) {
            proof {
                lemma_first_where(t, ws_or_punct_g(), i - from);
            }
            return Some(i - from);
        }
        i = i + 1;
    }
    proof {
        lemma_first_where(t, ws_or_punct_g(), i - from);
    }
    None
}

fn is_ws_or_punct(g: &str) -> (r: bool)
    requires
        g@.len() > 0,
    ensures
        r == (g_ws(g@) || g_punct(g@)),
{
    is_whitespace(g) || is_punctuation(g)
}

/// Whether `s` starts with the characters of `lit`.
fn starts_with_lit(s: &Vec<char>, lit: &str) -> (r: bool)
    ensures
        r == starts_with(s@, lit@),
{
    let n = lit.unicode_len();
    if s.len() < n {
        return false;
    }
    let mut i: usize = 0;
    while i < n
        invariant
            n == lit@.len() <= s@.len(),
            i <= n,
            forall|j: int| 0 <= j < i ==> s@[j] == lit@[j],
        decreases n - i,
    {
        if s[i] != lit.get_char(i) {
            assert(s@.take(n as int)[i as int] != lit@[i as int]);
            return false;
        }
        i = i + 1;
    }
    assert(s@.take(n as int) =~= lit@);
    true
}

/// Whether the word holding `s[index]` starts with a URL scheme (and is
/// followed by at least eight graphemes counted from its start).
pub open spec fn spec_url_at(s: Seq<Seq<char>>, index: int) -> bool {
    let start = last_where(s.take(index + 1), ws_g()) + 1;
    s.len() >= start + 8 && starts_like_url(concat(s.subrange(start, start + 8)))
}

/// Whether the word holding `s[index]` starts with a URL scheme.
fn url_at(s: &[&str], index: usize) -> (r: bool)
    requires
        index < s@.len(),
    ensures
        r == spec_url_at(views(s@), index as int),
{
    let n = s.len();
    assert(index < n);
    let start = match rposition_ws(s, index + 1) {
        Some(pos) => pos + 1,
        None => 0,
    };
    if s.len() < start || s.len() - start < 8 {
        return false;
    }
    let prefix_str = join_range(s, start, start + 8);
    let prefix = crate::text::chars_of(prefix_str.as_str());
    proof {
        reveal_strlit("https://");
        reveal_strlit("http://");
        reveal_strlit("ftp://");
        reveal_strlit("file://");
        assert("https://"@ =~= seq!['h', 't', 't', 'p', 's', ':', '/', '/']);
        assert("http://"@ =~= seq!['h', 't', 't', 'p', ':', '/', '/']);
        assert("ftp://"@ =~= seq!['f', 't', 'p', ':', '/', '/']);
        assert("file://"@ =~= seq!['f', 'i', 'l', 'e', ':', '/', '/']);
    }
    starts_with_lit(&prefix, "https://") || starts_with_lit(&prefix, "http://") || starts_with_lit(
        &prefix,
        "ftp://",
    ) || starts_with_lit(&prefix, "file://")
}

/// Whether `spec_detect_url` comes out at `-1`: a URL follows white space at `s[0]`.
fn url_end_underflows(s: &[&str], index: usize) -> (r: bool)
    requires
        index < s@.len(),
    ensures
        r == (spec_detect_url(views(s@), index as int) == Some(-1int)),
{
    proof {
        lemma_first_where_props(views(s@).skip(index as int), ws_g());
    }
    if index == 0 && is_whitespace(s[0]) {
        proof {
            lemma_first_where(views(s@).skip(0), ws_g(), 0);
        }
        url_at(s, 0)
    } else {
        if index == 0 {
            assert(views(s@).skip(0)[0] == views(s@)[0]);
        }
        false
    }
}

/// The index of the end of a URL around `s[index]`, if the word that holds
/// `s[index]` starts with a URL scheme (see `spec_detect_url`).
pub fn detect_url(s: &[&str], index: usize) -> (r: Option<usize>)
    requires
        index < s@.len(),
        spec_detect_url(views(s@), index as int) != Some(-1int),
    ensures
        r matches Some(k) ==> spec_detect_url(views(s@), index as int) == Some(k as int),
        r is None ==> spec_detect_url(views(s@), index as int) is None,
{
    let n = s.len();
    if url_at(s, index) {
        match position_ws(s, index) {
            Some(pos) => Some(index + pos - 1),
            None => Some(s.len() - 1),
        }
    } else {
        None
    }
}

/// Result of breaking a string so it fits in a line and the state it ended in.
/// The state informs about what to do with the snippet and how to continue the
/// breaking process.
#[derive(Debug, PartialEq)]
pub enum SnippetState {
    /// The input could not be broken and so rewriting the string is finished.
    EndOfInput(String),
    /// The input could be broken and the returned snippet should be ended with a
    /// line end. The next snippet needs to be indented. The number is the length
    /// that got read in the text being rewritten.
    LineEnd(String, usize),
    /// The input could be broken but a newline is present that cannot be trimmed.
    /// The number is the length that got read in the text being rewritten.
    EndWithLineFeed(String, usize),
}

/// The text and length of a `SnippetState`.
pub enum SnippetModel {
    EndOfInput(Seq<char>),
    LineEnd(Seq<char>, int),
    EndWithLineFeed(Seq<char>, int),
}

impl View for SnippetState {
    type V = SnippetModel;

    open spec fn view(&self) -> SnippetModel {
        match self {
            SnippetState::EndOfInput(s) => SnippetModel::EndOfInput(s@),
            SnippetState::LineEnd(s, n) => SnippetModel::LineEnd(s@, *n as int),
            SnippetState::EndWithLineFeed(s, n) => SnippetModel::EndWithLineFeed(s@, *n as int),
        }
    }
}

/// Breaking `input` after `input[index]`. White space to the left of the
/// break is left out when `trim_end` holds; white space to its right is read
/// past. A line feed at or before the break (and not in white space just before
/// it) ends the line there instead; so does, when `trim_end` does not hold, a
/// line feed that follows the break after white space only.
pub open spec fn spec_break_at(input: Seq<Seq<char>>, index: int, trim_end: bool) -> SnippetModel {
    let head = input.take(index + 1);
    let k = last_where(head, not_ws_except_lf_g());
    let index_minus_ws = if k >= 0 {
        k
    } else {
        index
    };
    let first_lf = first_where(head, lf_g());
    if first_lf <= index && first_lf <= index_minus_ws {
        let line = concat(input.take(first_lf));
        let line = if trim_end {
            trim_end_ws(line)
        } else {
            line
        };
        SnippetModel::EndWithLineFeed(line.push('\n'), first_lf + 1)
    } else {
        let rest = input.skip(index + 1);
        let j = first_where(rest, not_ws_except_lf_g());
        if j < rest.len() && !trim_end && g_lf(rest[j]) {
            SnippetModel::EndWithLineFeed(concat(input.take(index + 2 + j)), index + 2 + j)
        } else {
            let index_plus_ws = if j < rest.len() {
                index + j
            } else {
                index
            };
            if trim_end {
                SnippetModel::LineEnd(concat(input.take(index_minus_ws + 1)), index_plus_ws + 1)
            } else {
                SnippetModel::LineEnd(concat(input.take(index_plus_ws + 1)), index_plus_ws + 1)
            }
        }
    }
}

/// The graphemes read past and the line produced when a URL ends at `u`.
pub open spec fn spec_break_after_url(input: Seq<Seq<char>>, u: int, trim_end: bool) -> SnippetModel {
    let rest = input.skip(u + 1);
    let k = first_where(rest, not_ws_except_lf_g());
    let index_plus_ws = if k < rest.len() {
        u + k
    } else {
        u
    };
    if trim_end {
        SnippetModel::LineEnd(concat(input.take(u + 1)), index_plus_ws + 1)
    } else {
        SnippetModel::LineEnd(concat(input.take(index_plus_ws + 1)), index_plus_ws + 1)
    }
}

/// Where `input` is broken to fit `max_chars` graphemes: right at the limit
/// when the line end is empty, white space is trimmed and the limit falls
/// between a word and white space; after a URL that spans the limit; else at
/// the last white space before the limit, if at least `MIN_STRING` graphemes
/// precede it; else at the last punctuation before the limit, likewise; else at
/// the first white space or punctuation from the limit on; else not at all.
pub open spec fn spec_break_string(
    max_chars: int,
    trim_end: bool,
    line_end_empty: bool,
    input: Seq<Seq<char>>,
) -> SnippetModel {
    if line_end_empty && trim_end && !g_ws(input[max_chars - 1]) && g_ws(input[max_chars]) {
        spec_break_at(input, max_chars - 1, trim_end)
    } else {
        match spec_detect_url(input, max_chars) {
            Some(u) => spec_break_after_url(input, u, trim_end),
            None => {
                let w = last_where(input.take(max_chars), ws_g());
                let p = last_where(input.take(max_chars), punct_g());
                let q = first_where(input.skip(max_chars), ws_or_punct_g());
                if w >= MIN_STRING {
                    spec_break_at(input, w, trim_end)
                } else if p >= MIN_STRING {
                    spec_break_at(input, p, trim_end)
                } else if q < input.len() - max_chars {
                    spec_break_at(input, max_chars + q, trim_end)
                } else {
                    SnippetModel::EndOfInput(concat(input))
                }
            },
        }
    }
}

/// When `break_string` runs to the end: the limit is inside the input, the
/// grapheme before it exists where it is read, and a URL found there does not
/// end before the input starts.
pub open spec fn break_ok(
    max_chars: int,
    trim_end: bool,
    line_end_empty: bool,
    input: Seq<Seq<char>>,
) -> bool {
    &&& 0 <= max_chars < input.len()
    &&& (line_end_empty && trim_end ==> max_chars >= 1)
    &&& spec_detect_url(input, max_chars) != Some(-1int)
}

/// The length read by a break.
pub open spec fn read_len(m: SnippetModel) -> int {
    match m {
        SnippetModel::EndOfInput(_) => 0,
        SnippetModel::LineEnd(_, n) => n,
        SnippetModel::EndWithLineFeed(_, n) => n,
    }
}

/// A break after `input[index]` reads at least one grapheme and no more than the input.
pub proof fn lemma_break_at_len(input: Seq<Seq<char>>, index: int, trim_end: bool)
    requires
        0 <= index < input.len(),
    ensures
        !(spec_break_at(input, index, trim_end) is EndOfInput),
        1 <= read_len(spec_break_at(input, index, trim_end)) <= input.len(),
{
    let head = input.take(index + 1);
    lemma_first_where_props(head, lf_g());
    lemma_last_where_props(head, not_ws_except_lf_g());
    lemma_first_where_props(input.skip(index + 1), not_ws_except_lf_g());
}

/// Whether `g` is white space other than a line feed.
pub open spec fn g_blank(g: Seq<char>) -> bool {
    g_ws(g) && !g_lf(g)
}

/// Whether a line that ends after `n` graphemes of `input` and is continued on
/// the next line takes all the white space after it: the next line starts with
/// white space only where nothing but white space is left.
pub open spec fn takes_trailing_space(input: Seq<Seq<char>>, n: int) -> bool {
    n < input.len() && g_blank(input[n]) ==> forall|k: int|
        n <= k < input.len() ==> g_blank(#[trigger] input[k])
}

/// After position `p`, the first grapheme that is not blank, or the end.
proof fn lemma_first_not_blank_after(input: Seq<Seq<char>>, p: int)
    requires
        0 <= p < input.len(),
    ensures
        ({
            let rest = input.skip(p + 1);
            let j = first_where(rest, not_ws_except_lf_g());
            &&& 0 <= j <= rest.len()
            &&& j < rest.len() ==> !g_blank(input[p + 1 + j])
            &&& j < rest.len() ==> input[p + 1 + j] == rest[j]
            &&& j == rest.len() ==> forall|k: int| p + 1 <= k < input.len() ==> g_blank(#[trigger] input[k])
        }),
{
    let rest = input.skip(p + 1);
    lemma_first_where_props(rest, not_ws_except_lf_g());
    let j = first_where(rest, not_ws_except_lf_g());
    if j == rest.len() {
        assert forall|k: int| p + 1 <= k < input.len() implies g_blank(#[trigger] input[k]) by {
            assert(input[k] == rest[k - p - 1]);
        }
    }
}

/// Without trimming, a break after `input[index]` that ends a line reads the
/// white space after it: the line is the graphemes read, and the next line
/// does not start with white space unless only white space is left.
pub proof fn lemma_break_at_takes_space(input: Seq<Seq<char>>, index: int)
    requires
        0 <= index < input.len(),
    ensures
        spec_break_at(input, index, false) matches SnippetModel::LineEnd(t, n) ==> t == concat(
            input.take(n),
        ) && 1 <= n <= input.len() && takes_trailing_space(input, n),
{
    let head = input.take(index + 1);
    lemma_first_where_props(head, lf_g());
    lemma_last_where_props(head, not_ws_except_lf_g());
    lemma_first_not_blank_after(input, index);
}

/// Without trimming, breaking a string at a line end loses no white space at
/// the break: the line is the graphemes read, and the next line does not start
/// with white space from the input unless only white space is left, so a line
/// continuation, which skips the white space at the start of the next line,
/// drops none of the text.
pub proof fn lemma_break_string_takes_space(
    max_chars: int,
    line_end_empty: bool,
    input: Seq<Seq<char>>,
)
    requires
        break_ok(max_chars, false, line_end_empty, input),
    ensures
        spec_break_string(max_chars, false, line_end_empty, input) matches SnippetModel::LineEnd(
            t,
            n,
        ) ==> t == concat(input.take(n)) && 1 <= n <= input.len() && takes_trailing_space(
            input,
            n,
        ),
{
    lemma_last_where_props(input.take(max_chars), ws_g());
    lemma_last_where_props(input.take(max_chars), punct_g());
    lemma_first_where_props(input.skip(max_chars), ws_or_punct_g());
    lemma_last_where_props(input.take(max_chars + 1), ws_g());
    lemma_first_where_props(input.skip(max_chars), ws_g());
    match spec_detect_url(input, max_chars) {
        Some(u) => {
            assert(0 <= u < input.len());
            lemma_first_not_blank_after(input, u);
        },
        None => {
            let w = last_where(input.take(max_chars), ws_g());
            let p = last_where(input.take(max_chars), punct_g());
            let q = first_where(input.skip(max_chars), ws_or_punct_g());
            if w >= MIN_STRING {
                lemma_break_at_takes_space(input, w);
            } else if p >= MIN_STRING {
                lemma_break_at_takes_space(input, p);
            } else if q < input.len() - max_chars {
                lemma_break_at_takes_space(input, max_chars + q);
            }
        },
    }
}

/// Whether each line feed grapheme of `input` is a bare line feed.
pub open spec fn plain_line_feeds(input: Seq<Seq<char>>) -> bool {
    forall|i: int| 0 <= i < input.len() && g_lf(#[trigger] input[i]) ==> input[i] == seq!['\n']
}

/// Whether the text of `m` is the graphemes it reads, joined; the whole input
/// where it reads to the end.
pub open spec fn keeps_text(input: Seq<Seq<char>>, m: SnippetModel) -> bool {
    match m {
        SnippetModel::EndOfInput(t) => t == concat(input),
        SnippetModel::LineEnd(t, n) => t == concat(input.take(n)),
        SnippetModel::EndWithLineFeed(t, n) => t == concat(input.take(n)),
    }
}

/// The text of the first `k + 1` graphemes is that of the first `k`, then the
/// next one.
proof fn lemma_concat_take_next(input: Seq<Seq<char>>, k: int)
    requires
        0 <= k < input.len(),
    ensures
        concat(input.take(k + 1)) == concat(input.take(k)) + input[k],
{
    assert(input.take(k + 1).drop_last() =~= input.take(k));
}

/// Without trimming, a break after `input[index]` loses and adds nothing: its
/// line is the graphemes it reads, joined, where a line feed grapheme is a bare
/// line feed.
pub proof fn lemma_break_at_keeps_text(input: Seq<Seq<char>>, index: int)
    requires
        0 <= index < input.len(),
        plain_line_feeds(input),
    ensures
        keeps_text(input, spec_break_at(input, index, false)),
{
    let head = input.take(index + 1);
    lemma_first_where_props(head, lf_g());
    lemma_last_where_props(head, not_ws_except_lf_g());
    lemma_first_where_props(input.skip(index + 1), not_ws_except_lf_g());
    let f = first_where(head, lf_g());
    if f <= index {
        assert(head[f] == input[f]);
        assert(g_lf(input[f]));
        lemma_concat_take_next(input, f);
        assert(concat(input.take(f)).push('\n') =~= concat(input.take(f)) + input[f]);
    }
}

/// Without trimming, breaking a string loses and adds nothing: the line is the
/// graphemes read, joined, or the whole input where no break is made (a line
/// feed grapheme being a bare line feed).
pub proof fn lemma_break_string_keeps_text(
    max_chars: int,
    line_end_empty: bool,
    input: Seq<Seq<char>>,
)
    requires
        break_ok(max_chars, false, line_end_empty, input),
        plain_line_feeds(input),
    ensures
        keeps_text(input, spec_break_string(max_chars, false, line_end_empty, input)),
{
    lemma_last_where_props(input.take(max_chars), ws_g());
    lemma_last_where_props(input.take(max_chars), punct_g());
    lemma_first_where_props(input.skip(max_chars), ws_or_punct_g());
    match spec_detect_url(input, max_chars) {
        Some(u) => {},
        None => {
            let w = last_where(input.take(max_chars), ws_g());
            let p = last_where(input.take(max_chars), punct_g());
            let q = first_where(input.skip(max_chars), ws_or_punct_g());
            if w >= MIN_STRING {
                lemma_break_at_keeps_text(input, w);
            } else if p >= MIN_STRING {
                lemma_break_at_keeps_text(input, p);
            } else if q < input.len() - max_chars {
                lemma_break_at_keeps_text(input, max_chars + q);
            }
        },
    }
}

/// A break of an input that satisfies `break_ok` reads at least one grapheme
/// and no more than the input, unless it reads the whole input as one line.
pub proof fn lemma_break_string_len(
    max_chars: int,
    trim_end: bool,
    line_end_empty: bool,
    input: Seq<Seq<char>>,
)
    requires
        break_ok(max_chars, trim_end, line_end_empty, input),
    ensures
        !(spec_break_string(max_chars, trim_end, line_end_empty, input) is EndOfInput) ==> 1
            <= read_len(spec_break_string(max_chars, trim_end, line_end_empty, input)) <= input.len(),
{
    lemma_last_where_props(input.take(max_chars + 1), ws_g());
    lemma_first_where_props(input.skip(max_chars), ws_g());
    lemma_last_where_props(input.take(max_chars), ws_g());
    lemma_last_where_props(input.take(max_chars), punct_g());
    lemma_first_where_props(input.skip(max_chars), ws_or_punct_g());
    if line_end_empty && trim_end && !g_ws(input[max_chars - 1]) && g_ws(input[max_chars]) {
        lemma_break_at_len(input, max_chars - 1, trim_end);
    } else {
        match spec_detect_url(input, max_chars) {
            Some(u) => {
                lemma_first_where_props(input.skip(u + 1), not_ws_except_lf_g());
            },
            None => {
                let w = last_where(input.take(max_chars), ws_g());
                let p = last_where(input.take(max_chars), punct_g());
                let q = first_where(input.skip(max_chars), ws_or_punct_g());
                if w >= MIN_STRING {
                    lemma_break_at_len(input, w, trim_end);
                } else if p >= MIN_STRING {
                    lemma_break_at_len(input, p, trim_end);
                } else if q < input.len() - max_chars {
                    lemma_break_at_len(input, max_chars + q, trim_end);
                }
            },
        }
    }
}

/// The fewest graphemes that a line holds before the break.
pub const MIN_STRING: usize = 10;

#[verifier::rlimit(50)]
#[verifier::spinoff_prover]
fn break_at(input: &[&str], index: usize, trim_end: bool) -> (r: SnippetState)
    requires
        index < input@.len(),
        all_nonempty(views(input@)),
    ensures
        r@ == spec_break_at(views(input@), index as int, trim_end),
{
    let n = input.len();
    let index_minus_ws = match rposition_nwelf(input, index + 1) {
        Some(k) => k,
        None => index,
    };
    let first_lf = match position_lf(input, 0) {
        Some(k) => k,
        None => n,
    };
    proof {
        let head = views(input@).take(index + 1);
        let all = views(input@).skip(0);
        assert(all =~= views(input@));
        lemma_first_where_props(all, lf_g());
        if first_lf <= index {
            assert forall|j: int| 0 <= j < first_lf implies !lf_g()(#[trigger] head[j]) by {
                assert(head[j] == all[j]);
            }
            lemma_first_where(head, lf_g(), first_lf as int);
        } else {
            assert forall|j: int| 0 <= j < index + 1 implies !lf_g()(#[trigger] head[j]) by {
                assert(head[j] == all[j]);
            }
            lemma_first_where(head, lf_g(), index + 1);
        }
    }
    if first_lf <= index && first_lf <= index_minus_ws {
        let joined = join_range(input, 0, first_lf);
        let ghost j = joined@;
        let mut line = if trim_end {
            String::from_str(trim_end_str(joined.as_str()))
        } else {
            joined
        };
        let ghost before = line@;
        assert(before == if trim_end { trim_end_ws(j) } else { j });
        line.append("\n");
        proof {
            reveal_strlit("\n");
            assert(line@ =~= before.push('\n'));
            assert(views(input@).subrange(0, first_lf as int) =~= views(input@).take(first_lf as int));
        }
        return SnippetState::EndWithLineFeed(line, first_lf + 1);
    }
    let mut index_plus_ws = index;
    match position_nwelf(input, index + 1) {
        Some(j) => {
            assert(views(input@).skip(index + 1)[j as int] == input@[index + 1 + j]@);
            if !trim_end && is_line_feed(input[index + 1 + j]) {
                let line = join_range(input, 0, index + 2 + j);
                assert(views(input@).subrange(0, index + 2 + j) =~= views(input@).take(index + 2 + j));
                return SnippetState::EndWithLineFeed(line, index + 2 + j);
            }
            index_plus_ws = index + j;
        },
        None => {},
    }
    if trim_end {
        let line = join_range(input, 0, index_minus_ws + 1);
        assert(views(input@).subrange(0, index_minus_ws + 1) =~= views(input@).take(index_minus_ws + 1));
        SnippetState::LineEnd(line, index_plus_ws + 1)
    } else {
        let line = join_range(input, 0, index_plus_ws + 1);
        assert(views(input@).subrange(0, index_plus_ws + 1) =~= views(input@).take(index_plus_ws + 1));
        SnippetState::LineEnd(line, index_plus_ws + 1)
    }
}

/// Breaks `input` at a boundary character (white space or punctuation) around
/// the offset `max_chars`; see `spec_break_string`.
pub fn break_string(max_chars: usize, trim_end: bool, line_end: &str, input: &[&str]) -> (r:
    SnippetState)
    requires
        all_nonempty(views(input@)),
        break_ok(max_chars as int, trim_end, line_end@.len() == 0, views(input@)),
    ensures
        r@ == spec_break_string(max_chars as int, trim_end, line_end@.len() == 0, views(input@)),
{
    let n = input.len();
    if line_end.unicode_len() == 0 && trim_end && !is_whitespace(input[max_chars - 1])
        && is_whitespace(input[max_chars]) {
        return break_at(input, max_chars - 1, trim_end);
    }
    if let Some(url_index_end) = detect_url(input, max_chars) {
        let index_plus_ws = match position_nwelf(input, url_index_end + 1) {
            Some(k) => url_index_end + k,
            None => url_index_end,
        };
        if trim_end {
            let line = join_range(input, 0, url_index_end + 1);
            assert(views(input@).subrange(0, url_index_end + 1) =~= views(input@).take(url_index_end + 1));
            return SnippetState::LineEnd(line, index_plus_ws + 1);
        } else {
            let line = join_range(input, 0, index_plus_ws + 1);
            assert(views(input@).subrange(0, index_plus_ws + 1) =~= views(input@).take(index_plus_ws + 1));
            return SnippetState::LineEnd(line, index_plus_ws + 1);
        }
    }
    let w = rposition_ws(input, max_chars);
    if let Some(index) = w {
        if index >= MIN_STRING {
            return break_at(input, index, trim_end);
        }
    }
    let p = rposition_punct(input, max_chars);
    if let Some(index) = p {
        if index >= MIN_STRING {
            return break_at(input, index, trim_end);
        }
    }
    match position_ws_or_punct(input, max_chars) {
        Some(index) => break_at(input, max_chars + index, trim_end),
        None => {
            let line = join_range(input, 0, n);
            assert(views(input@).subrange(0, n as int) =~= views(input@));
            SnippetState::EndOfInput(line)
        },
    }
}

/// Keeps line feeds and everything that is not white space.
pub open spec fn lf_or_non_ws_pred() -> spec_fn(char) -> bool {
    |c: char| !(is_ws_char(c) && c != '\n')
}

/// `s` without white space other than line feeds at its end, when `trim_end` holds.
pub open spec fn spec_trim_right_but_line_feed(trim_end: bool, s: Seq<char>) -> Seq<char> {
    if trim_end {
        trim_end_while_not(s, lf_or_non_ws_pred())
    } else {
        s
    }
}

/// Trims white space other than line feeds from the end of `result` when `trim_end` holds.
pub fn trim_right_but_line_feed(trim_end: bool, result: String) -> (r: String)
    ensures
        r@ == spec_trim_right_but_line_feed(trim_end, result@),
{
    if !trim_end {
        return result;
    }
    let v = chars_of(result.as_str());
    let mut e: usize = v.len();
    while e > 0 && is_whitespace_char(v[e - 1]) && v[e - 1] != '\n'
        invariant
            e <= v@.len(),
            v@ == result@,
            forall|j: int| e <= j < v@.len() ==> !lf_or_non_ws_pred()(#[trigger] v@[j]),
        decreases e,
    {
        e = e - 1;
    }
    proof {
        lemma_last_where(result@, lf_or_non_ws_pred(), e - 1);
    }
    String::from_str(result.as_str().substring_char(0, e))
}

/// What the rewriting of a string depends on besides its graphemes.
pub struct RewriteModel {
    pub line_start: Seq<char>,
    pub line_end: Seq<char>,
    pub trim_end: bool,
    /// A line break and the indentation.
    pub indent_nl: Seq<char>,
    /// The indentation.
    pub indent: Seq<char>,
    pub max_chars_with_indent: int,
    pub max_chars_without_indent: int,
    pub newline_max_chars: int,
    /// Whether a line may start without `line_start` (it is empty or white space).
    pub bareline_ok: bool,
}

/// `result` followed by the graphemes `gs[i..]` that fit on the current line:
/// at each line feed the line is trimmed and ended, and unless bare lines are
/// fine the next line gets the indentation and `line_start`.
pub open spec fn fit_rest(gs: Seq<Seq<char>>, i: int, result: Seq<char>, m: RewriteModel) -> Seq<
    char,
>
    decreases gs.len() - i,
{
    if i < 0 || i >= gs.len() {
        result
    } else if g_lf(gs[i]) {
        let r1 = spec_trim_right_but_line_feed(m.trim_end, result).push('\n');
        let r2 = if !m.bareline_ok && i + 1 < gs.len() {
            r1 + m.indent + m.line_start
        } else {
            r1
        };
        fit_rest(gs, i + 1, r2, m)
    } else {
        fit_rest(gs, i + 1, result + gs[i], m)
    }
}

/// The rewriting of `gs[cur_start..]` with `cur_max` graphemes allowed on the
/// current line, after `result`; `None` where the breaking cannot run (see `break_ok`).
pub open spec fn rewrite_loop(
    gs: Seq<Seq<char>>,
    cur_start: int,
    cur_max: int,
    result: Seq<char>,
    m: RewriteModel,
) -> Option<Seq<char>>
    decreases gs.len() - cur_start,
{
    if cur_start < 0 || cur_start > gs.len() {
        None
    } else if gs.len() - cur_start <= cur_max {
        Some(spec_trim_right_but_line_feed(m.trim_end, fit_rest(gs, cur_start, result, m)))
    } else {
        let input = gs.skip(cur_start);
        let le_empty = m.line_end.len() == 0;
        if !break_ok(cur_max, m.trim_end, le_empty, input) {
            None
        } else {
            match spec_break_string(cur_max, m.trim_end, le_empty, input) {
                SnippetModel::LineEnd(line, len) => {
                    if 1 <= len && cur_start + len <= gs.len() {
                        rewrite_loop(
                            gs,
                            cur_start + len,
                            m.newline_max_chars,
                            result + line + m.line_end + m.indent_nl + m.line_start,
                            m,
                        )
                    } else {
                        None
                    }
                },
                SnippetModel::EndWithLineFeed(line, len) => {
                    if 1 <= len && cur_start + len <= gs.len() {
                        let r0 = if line == seq!['\n'] && m.trim_end {
                            trim_end_ws(result)
                        } else {
                            result
                        };
                        if m.bareline_ok {
                            rewrite_loop(
                                gs,
                                cur_start + len,
                                m.max_chars_without_indent,
                                r0 + line,
                                m,
                            )
                        } else {
                            rewrite_loop(
                                gs,
                                cur_start + len,
                                m.max_chars_with_indent,
                                r0 + line + m.indent + m.line_start,
                                m,
                            )
                        }
                    } else {
                        None
                    }
                },
                SnippetModel::EndOfInput(line) => Some(result + line),
            }
        }
    }
}

/// The model of the rewriting parameters.
pub open spec fn model_of(
    line_start: Seq<char>,
    line_end: Seq<char>,
    trim_end: bool,
    indent_nl: Seq<char>,
    indent: Seq<char>,
    mcwi: usize,
    mcwoi: usize,
    nmc: usize,
    bareline_ok: bool,
) -> RewriteModel {
    RewriteModel {
        line_start,
        line_end,
        trim_end,
        indent_nl,
        indent,
        max_chars_with_indent: mcwi as int,
        max_chars_without_indent: mcwoi as int,
        newline_max_chars: nmc as int,
        bareline_ok,
    }
}

/// The rewriting loop; `None` exactly where `rewrite_loop` is `None`.
#[verifier::rlimit(60)]
fn rewrite_body(
    gs: &[&str],
    opener: &str,
    line_start: &str,
    line_end: &str,
    trim_end: bool,
    indent_nl: &str,
    indent: &str,
    mcwi: usize,
    mcwoi: usize,
    nmc: usize,
    bareline_ok: bool,
) -> (r: Option<String>)
    requires
        all_nonempty(views(gs@)),
    ensures
        ({
            let m = model_of(line_start@, line_end@, trim_end, indent_nl@, indent@, mcwi, mcwoi, nmc, bareline_ok);
            let spec_r = rewrite_loop(views(gs@), 0, mcwi as int, opener@, m);
            &&& r matches Some(t) ==> spec_r == Some(t@)
            &&& r is None ==> spec_r is None
        }),
{
    let ghost m = model_of(line_start@, line_end@, trim_end, indent_nl@, indent@, mcwi, mcwoi, nmc, bareline_ok);
    let ghost g = views(gs@);
    let mut result = String::from_str(opener);
    let mut cur_start: usize = 0;
    let mut cur_max: usize = mcwi;
    let n = gs.len();
    loop
        invariant
            n == gs@.len(),
            g == views(gs@),
            all_nonempty(g),
            m == model_of(line_start@, line_end@, trim_end, indent_nl@, indent@, mcwi, mcwoi, nmc, bareline_ok),
            cur_start <= n,
            rewrite_loop(g, 0, mcwi as int, opener@, m) == rewrite_loop(g, cur_start as int, cur_max as int, result@, m),
        decreases n - cur_start,
    {
        if n - cur_start <= cur_max {
            let ghost r0 = result@;
            let mut i = cur_start;
            while i < n
                invariant
                    n == gs@.len(),
                    g == views(gs@),
                    all_nonempty(g),
                    m == model_of(line_start@, line_end@, trim_end, indent_nl@, indent@, mcwi, mcwoi, nmc, bareline_ok),
                    cur_start <= i <= n,
                    fit_rest(g, cur_start as int, r0, m) == fit_rest(g, i as int, result@, m),
                decreases n - i,
            {
                let gr = gs[i];
                assert(g[i as int] == gr@);
                let ghost before = result@;
                if is_line_feed(gr) {
                    result = trim_right_but_line_feed(trim_end, result);
                    result.append("\n");
                    proof {
                        reveal_strlit("\n");
                    }
                    let ghost r1 = result@;
                    assert(r1 =~= spec_trim_right_but_line_feed(m.trim_end, before).push('\n'));
                    if !bareline_ok && i + 1 < n {
                        result.append(indent);
                        result.append(line_start);
                        assert(result@ =~= r1 + m.indent + m.line_start);
                    }
                } else {
                    result.append(gr);
                }
                i = i + 1;
            }
            let out = trim_right_but_line_feed(trim_end, result);
            return Some(out);
        }
        let input_v = tail_of(gs, cur_start);
        let input = input_v.as_slice();
        proof {
            assert(views(input@) =~= g.skip(cur_start as int));
        }
        if (line_end.unicode_len() == 0 && trim_end && cur_max == 0) || url_end_underflows(input, cur_max) {
            return None;
        }
        let st = break_string(cur_max, trim_end, line_end, input);
        proof {
            lemma_break_string_len(cur_max as int, trim_end, line_end@.len() == 0, views(input@));
        }
        match st {
            SnippetState::LineEnd(line, len) => {
                result.append(line.as_str());
                result.append(line_end);
                result.append(indent_nl);
                result.append(line_start);
                cur_max = nmc;
                cur_start = cur_start + len;
            },
            SnippetState::EndWithLineFeed(line, len) => {
                let is_bare_lf = line.unicode_len() == 1 && line.as_str().get_char(0) == '\n';
                assert(is_bare_lf == (line@ == seq!['\n'])) by {
                    if line@.len() == 1 && line@[0] == '\n' {
                        assert(line@ =~= seq!['\n']);
                    }
                }
                if is_bare_lf && trim_end {
                    result = String::from_str(trim_end_str(result.as_str()));
                }
                result.append(line.as_str());
                if bareline_ok {
                    cur_max = mcwoi;
                } else {
                    result.append(indent);
                    result.append(line_start);
                    cur_max = mcwi;
                }
                cur_start = cur_start + len;
            },
            SnippetState::EndOfInput(line) => {
                result.append(line.as_str());
                return Some(result);
            },
        }
    }
}

/// The graphemes `gs[start..]`.
fn tail_of<'a>(gs: &[&'a str], start: usize) -> (r: Vec<&'a str>)
    requires
        start <= gs@.len(),
    ensures
        r@ == gs@.skip(start as int),
{
    let mut r: Vec<&'a str> = Vec::new();
    let mut i = start;
    while i < gs.len()
        invariant
            start <= i <= gs@.len(),
            r@ == gs@.subrange(start as int, i as int),
        decreases gs.len() - i,
    {
        r.push(gs[i]);
        assert(r@ =~= gs@.subrange(start as int, i + 1));
        i = i + 1;
    }
    assert(r@ =~= gs@.skip(start as int));
    r
}

/// Describes the layout of a piece of text.
pub struct StringFormat<'a> {
    /// The opening sequence of characters for the piece of text
    pub opener: &'a str,
    /// The closing sequence of characters for the piece of text
    pub closer: &'a str,
    /// The opening sequence of characters for a line
    pub line_start: &'a str,
    /// The closing sequence of characters for a line
    pub line_end: &'a str,
    /// The allocated box to fit the text into
    pub shape: Shape,
    /// Trim trailing whitespaces
    pub trim_end: bool,
    pub config: &'a Config,
}

impl<'a> StringFormat<'a> {
    /// The layout of a string literal: quotes around it, a backslash at the end
    /// of each broken line and a space at the start of the next.
    pub fn new(shape: Shape, config: &'a Config) -> (r: StringFormat<'a>)
        ensures
            r.opener@ == seq!['"'],
            r.closer@ == seq!['"'],
            r.line_start@ == seq![' '],
            r.line_end@ == seq!['\\'],
            r.shape == shape,
            !r.trim_end,
            r.config == config,
    {
        proof {
            reveal_strlit("\"");
            reveal_strlit(" ");
            reveal_strlit("\\");
        }
        StringFormat {
            opener: "\"",
            closer: "\"",
            line_start: " ",
            line_end: "\\",
            shape,
            trim_end: false,
            config,
        }
    }

    /// The most graphemes on a line that holds the opener and the line end,
    /// if at least one fits.
    pub open spec fn spec_max_chars_with_indent(&self) -> Option<int> {
        let needed = byte_len(self.opener@) + byte_len(self.line_end@) + 1;
        if self.shape.width >= needed {
            Some(self.shape.width - needed + 1)
        } else {
            None
        }
    }

    /// The most graphemes on a line that holds only the line end.
    pub open spec fn spec_max_chars_without_indent(&self) -> Option<int> {
        if self.config.max_width >= byte_len(self.line_end@) {
            Some(self.config.max_width - byte_len(self.line_end@))
        } else {
            None
        }
    }

    /// The maximum number of graphemes that is possible on a line while taking
    /// the indentation into account.
    pub fn max_chars_with_indent(&self) -> (r: Option<usize>)
        requires
            byte_len(self.opener@) + byte_len(self.line_end@) + 1 <= usize::MAX,
        ensures
            r matches Some(k) ==> self.spec_max_chars_with_indent() == Some(k as int),
            r is None ==> self.spec_max_chars_with_indent() is None,
    {
        let needed = self.opener.len() + self.line_end.len() + 1;
        if self.shape.width >= needed {
            Some(self.shape.width - needed + 1)
        } else {
            None
        }
    }

    /// Like `max_chars_with_indent`, but the indentation is not subtracted.
    pub fn max_chars_without_indent(&self) -> (r: Option<usize>)
        ensures
            r matches Some(k) ==> self.spec_max_chars_without_indent() == Some(k as int),
            r is None ==> self.spec_max_chars_without_indent() is None,
    {
        if self.config.max_width >= self.line_end.len() {
            Some(self.config.max_width - self.line_end.len())
        } else {
            None
        }
    }

    /// What `rewrite_string` needs of the layout itself: the indentation can be
    /// written and the widths of opener and line end can be added.
    pub open spec fn layout_ok(&self) -> bool {
        &&& self.config.hard_tabs ==> self.config.tab_spaces > 0
        &&& !self.config.hard_tabs ==> self.shape.indent.spec_width() <= usize::MAX
        &&& byte_len(self.opener@) + byte_len(self.line_end@) + 1 <= usize::MAX
    }
}

/// The rewriting of the graphemes `gs` under `fmt`: `Some(Some(text))` for the
/// rewritten text, `Some(None)` when the text cannot fit, and `None` where the
/// breaking cannot run (see `break_ok`).
pub open spec fn spec_rewrite_graphemes(gs: Seq<Seq<char>>, fmt: StringFormat, newline_max_chars: usize) -> Option<
    Option<Seq<char>>,
> {
    match (fmt.spec_max_chars_with_indent(), fmt.spec_max_chars_without_indent()) {
        (Some(mcwi), Some(mcwoi)) => {
            let indent = fmt.shape.indent.spec_text(*fmt.config);
            let m = RewriteModel {
                line_start: fmt.line_start@,
                line_end: fmt.line_end@,
                trim_end: fmt.trim_end,
                indent_nl: seq!['\n'] + indent,
                indent,
                max_chars_with_indent: mcwi,
                max_chars_without_indent: mcwoi,
                newline_max_chars: newline_max_chars as int,
                bareline_ok: fmt.line_start@.len() == 0 || g_ws(fmt.line_start@),
            };
            match rewrite_loop(gs, 0, mcwi, fmt.opener@, m) {
                Some(res) => {
                    let t = res + fmt.closer@;
                    if reaches_last_line_check(t, fmt.config.max_width, fmt.shape)
                        && fmt.shape.spec_used_width() + fmt.shape.width > usize::MAX {
                        None
                    } else if spec_is_valid_str(t, fmt.config.max_width, fmt.shape) {
                        Some(Some(t))
                    } else {
                        Some(None)
                    }
                },
                None => None,
            }
        },
        _ => Some(None),
    }
}

/// Rewrites the graphemes of a text to fit `fmt`: the text is cut into lines
/// (see `break_string`) of at most `max_chars_with_indent` graphemes on the
/// first line, `newline_max_chars` after a broken line and
/// `max_chars_without_indent` after a line feed of the text when lines may
/// start bare; each broken line ends with the line end, each new line starts
/// with the indentation and the line start. The result is `None` when it does
/// not fit the shape.
pub fn rewrite_graphemes(graphemes: &[&str], fmt: &StringFormat, newline_max_chars: usize) -> (r:
    Option<String>)
    requires
        all_nonempty(views(graphemes@)),
        fmt.layout_ok(),
        spec_rewrite_graphemes(views(graphemes@), *fmt, newline_max_chars) is Some,
    ensures
        r matches Some(t) ==> spec_rewrite_graphemes(views(graphemes@), *fmt, newline_max_chars)
            == Some(Some(t@)),
        r is None ==> spec_rewrite_graphemes(views(graphemes@), *fmt, newline_max_chars) == Some(
            None::<Seq<char>>,
        ),
{
    match rewrite_graphemes_checked(graphemes, fmt, newline_max_chars) {
        Some(r) => r,
        None => None,
    }
}

/// Like `rewrite_graphemes`, and `None` where the breaking cannot run.
fn rewrite_graphemes_checked(graphemes: &[&str], fmt: &StringFormat, newline_max_chars: usize) -> (r:
    Option<Option<String>>)
    requires
        all_nonempty(views(graphemes@)),
        fmt.layout_ok(),
    ensures
        ({
            let sr = spec_rewrite_graphemes(views(graphemes@), *fmt, newline_max_chars);
            &&& r is None ==> sr is None
            &&& r matches Some(None) ==> sr == Some(None::<Seq<char>>)
            &&& r matches Some(Some(t)) ==> sr == Some(Some(t@))
        }),
{
    let max_chars_with_indent = match fmt.max_chars_with_indent() {
        Some(k) => k,
        None => return Some(None),
    };
    let max_chars_without_indent = match fmt.max_chars_without_indent() {
        Some(k) => k,
        None => return Some(None),
    };
    let indent_with_newline = fmt.shape.indent.to_string_with_newline(fmt.config);
    let indent_without_newline = fmt.shape.indent.to_string(fmt.config);
    let is_bareline_ok = fmt.line_start.unicode_len() == 0 || is_whitespace(fmt.line_start);
    let body = rewrite_body(
        graphemes,
        fmt.opener,
        fmt.line_start,
        fmt.line_end,
        fmt.trim_end,
        indent_with_newline.as_str(),
        indent_without_newline.as_str(),
        max_chars_with_indent,
        max_chars_without_indent,
        newline_max_chars,
        is_bareline_ok,
    );
    let mut result = match body {
        Some(r) => r,
        None => return None,
    };
    result.append(fmt.closer);
    if reaches_last_line_check_exec(result.as_str(), fmt.config.max_width, fmt.shape) {
        if fmt.shape.indent.block_indent > usize::MAX - fmt.shape.offset {
            return None;
        }
        if fmt.shape.indent.block_indent + fmt.shape.offset > usize::MAX - fmt.shape.width {
            return None;
        }
    }
    Some(wrap_str(result, fmt.config.max_width(), fmt.shape))
}

/// The grapheme clusters of a text, as `UnicodeSegmentation::graphemes` splits it.
pub uninterp spec fn grapheme_clusters(s: Seq<char>, is_extended: bool) -> Seq<Seq<char>>;

/// `UnicodeSegmentation::graphemes` of the `unicode-segmentation` crate,
/// collected. The contract names the split (`grapheme_clusters`, a function of
/// the text and the flag) and states that no cluster is empty and that the
/// clusters, joined, give back the text: the crate's iterator yields the text
/// between two successive, distinct boundaries, from its start to its end.
#[verifier::external_body]
fn graphemes<'a>(s: &'a str, is_extended: bool) -> (r: Vec<&'a str>)
    ensures
        views(r@) == grapheme_clusters(s@, is_extended),
        all_nonempty(views(r@)),
        views(r@).flatten() == s@,
{
    UnicodeSegmentation::graphemes(s, is_extended).collect()
}

/// A backslash that is not itself escaped, then a line break and the white
/// space after it: a line continuation inside a string literal.
pub const LINE_CONTINUATION: &'static str = "([^\\\\](\\\\\\\\)*)\\\\[\\n\\r][[:space:]]*";

/// What replaces a line continuation: the text before its backslash.
pub const CONTINUATION_REPLACEMENT: &'static str = "$1";

/// The graphemes of `orig` once its line continuations are removed.
pub open spec fn stripped_graphemes(orig: Seq<char>) -> Option<Seq<Seq<char>>> {
    if regex_compiles(LINE_CONTINUATION@) {
        Some(
            grapheme_clusters(
                regex_replaced(LINE_CONTINUATION@, orig, CONTINUATION_REPLACEMENT@),
                false,
            ),
        )
    } else {
        None
    }
}

/// Rewrites the text `orig` to fit `fmt`: line continuations are removed (the
/// remaining white space is significant), and the graphemes are rewritten by
/// `rewrite_graphemes`. The result is `None` when the text does not fit, and
/// also where the line continuation pattern does not compile or the breaking
/// cannot run.
pub fn rewrite_string<'a>(orig: &str, fmt: &StringFormat<'a>, newline_max_chars: usize) -> (r:
    Option<String>)
    requires
        fmt.layout_ok(),
    ensures
        ({
            match stripped_graphemes(orig@) {
                Some(gs) => match spec_rewrite_graphemes(gs, *fmt, newline_max_chars) {
                    Some(Some(t)) => r matches Some(u) && u@ == t,
                    _ => r is None,
                },
                None => r is None,
            }
        }),
{
    let re = match regex_new(LINE_CONTINUATION) {
        Some(re) => re,
        None => return None,
    };
    let stripped = regex_replace_all(&re, orig, CONTINUATION_REPLACEMENT);
    let gs = graphemes(stripped.as_str(), false);
    match rewrite_graphemes_checked(gs.as_slice(), fmt, newline_max_chars) {
        Some(r) => r,
        None => None,
    }
}

} // verus!
