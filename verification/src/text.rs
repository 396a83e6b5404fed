//! Character-level models of text: whitespace, line splitting, trimming and
//! searching, with the executable helpers that compute them.
use vstd::prelude::*;

use vstd::string::StrSliceExecFns;

verus! {

/// The Unicode `White_Space` property, which `char::is_whitespace` tests.
pub open spec fn is_ws_char(c: char) -> bool {
    let u = c as u32;
    ||| 0x9 <= u <= 0xD
    ||| u == 0x20
    ||| u == 0x85
    ||| u == 0xA0
    ||| u == 0x1680
    ||| 0x2000 <= u <= 0x200A
    ||| u == 0x2028
    ||| u == 0x2029
    ||| u == 0x202F
    ||| u == 0x205F
    ||| u == 0x3000
}

/// Whether `c` is white space in the sense of Unicode's `White_Space` property.
pub fn is_whitespace_char(c: char) -> (r: bool)
    ensures
        r == is_ws_char(c),
{
    let u = c as u32;
    (0x9 <= u && u <= 0xD) || u == 0x20 || u == 0x85 || u == 0xA0 || u == 0x1680 || (0x2000 <= u
        && u <= 0x200A) || u == 0x2028 || u == 0x2029 || u == 0x202F || u == 0x205F || u == 0x3000
}

/// The number of bytes of the UTF-8 encoding of `s`, which is what `str::len` returns.
pub open spec fn byte_len(s: Seq<char>) -> usize {
    vstd::utf8::encode_utf8(s).len() as usize
}

/// A text has at least as many bytes as characters.
pub proof fn lemma_byte_len_ge(s: Seq<char>)
    ensures
        vstd::utf8::encode_utf8(s).len() >= s.len(),
    decreases s.len(),
{
    if s.len() > 0 {
        lemma_byte_len_ge(s.drop_first());
        assert(vstd::utf8::encode_scalar(s[0] as u32).len() >= 1);
    }
}

/// Index of the first element satisfying `p`, or `s.len()` when there is none.
pub open spec fn first_where<A>(s: Seq<A>, p: spec_fn(A) -> bool) -> int
    decreases s.len(),
{
    if s.len() == 0 {
        0
    } else if p(s[0]) {
        0
    } else {
        1 + first_where(s.drop_first(), p)
    }
}

/// Index of the last element satisfying `p`, or `-1` when there is none.
pub open spec fn last_where<A>(s: Seq<A>, p: spec_fn(A) -> bool) -> int
    decreases s.len(),
{
    if s.len() == 0 {
        -1
    } else if p(s.last()) {
        s.len() - 1
    } else {
        last_where(s.drop_last(), p)
    }
}

/// `k` is the first position of an element satisfying `p`, or `s.len()`.
pub proof fn lemma_first_where<A>(s: Seq<A>, p: spec_fn(A) -> bool, k: int)
    requires
        0 <= k <= s.len(),
        forall|j: int| 0 <= j < k ==> !p(#[trigger] s[j]),
        k < s.len() ==> p(s[k]),
    ensures
        first_where(s, p) == k,
    decreases s.len(),
{
    if s.len() > 0 && k > 0 {
        assert(!p(s[0]));
        assert forall|j: int| 0 <= j < k - 1 implies !p(#[trigger] s.drop_first()[j]) by {
            assert(s.drop_first()[j] == s[j + 1]);
        }
        lemma_first_where(s.drop_first(), p, k - 1);
    }
}

/// `k` is the last position of an element satisfying `p`, or `-1`.
pub proof fn lemma_last_where<A>(s: Seq<A>, p: spec_fn(A) -> bool, k: int)
    requires
        -1 <= k < s.len(),
        forall|j: int| k < j < s.len() ==> !p(#[trigger] s[j]),
        k >= 0 ==> p(s[k]),
    ensures
        last_where(s, p) == k,
    decreases s.len(),
{
    if s.len() > 0 && k < s.len() - 1 {
        assert(!p(s[s.len() - 1]));
        assert forall|j: int| k < j < s.len() - 1 implies !p(#[trigger] s.drop_last()[j]) by {
            assert(s.drop_last()[j] == s[j]);
        }
        lemma_last_where(s.drop_last(), p, k);
    }
}

/// What `first_where` returns is a first match.
pub proof fn lemma_first_where_props<A>(s: Seq<A>, p: spec_fn(A) -> bool)
    ensures
        0 <= first_where(s, p) <= s.len(),
        forall|j: int| 0 <= j < first_where(s, p) ==> !p(#[trigger] s[j]),
        first_where(s, p) < s.len() ==> p(s[first_where(s, p)]),
    decreases s.len(),
{
    if s.len() > 0 && !p(s[0]) {
        lemma_first_where_props(s.drop_first(), p);
        assert forall|j: int| 0 <= j < first_where(s, p) implies !p(#[trigger] s[j]) by {
            if j > 0 {
                assert(s[j] == s.drop_first()[j - 1]);
            }
        }
    }
}

/// What `last_where` returns is a last match.
pub proof fn lemma_last_where_props<A>(s: Seq<A>, p: spec_fn(A) -> bool)
    ensures
        -1 <= last_where(s, p) < s.len(),
        forall|j: int| last_where(s, p) < j < s.len() ==> !p(#[trigger] s[j]),
        last_where(s, p) >= 0 ==> p(s[last_where(s, p)]),
    decreases s.len(),
{
    if s.len() > 0 && !p(s.last()) {
        lemma_last_where_props(s.drop_last(), p);
        assert forall|j: int| last_where(s, p) < j < s.len() implies !p(#[trigger] s[j]) by {
            if j < s.len() - 1 {
                assert(s[j] == s.drop_last()[j]);
            }
        }
    }
}

/// The predicate "is a line feed".
pub open spec fn newline_pred() -> spec_fn(char) -> bool {
    |c: char| c == '\n'
}

/// The predicate "is white space".
pub open spec fn ws_pred() -> spec_fn(char) -> bool {
    |c: char| is_ws_char(c)
}

/// The predicate "is not white space".
pub open spec fn non_ws_pred() -> spec_fn(char) -> bool {
    |c: char| !is_ws_char(c)
}

/// Index of the first `c` in `s`, or `s.len()`.
pub fn first_index_of(s: &Vec<char>, c: char) -> (r: usize)
    ensures
        r == first_where(s@, |x: char| x == c),
{
    let mut i: usize = 0;
    while i < s.len()
        invariant
            i <= s.len(),
            forall|j: int| 0 <= j < i ==> s@[j] != c,
        decreases s.len() - i,
    {
        if s[i] == c {
            proof {
                lemma_first_where(s@, |x: char| x == c, i as int);
            }
            return i;
        }
        i = i + 1;
    }
    proof {
        lemma_first_where(s@, |x: char| x == c, i as int);
    }
    i
}

/// Index of the last `c` in `s`, or `-1`.
pub fn last_index_of(s: &Vec<char>, c: char) -> (r: Option<usize>)
    ensures
        r matches Some(k) ==> k < s.len() && last_where(s@, |x: char| x == c) == k,
        r is None ==> last_where(s@, |x: char| x == c) == -1,
{
    let mut i: usize = s.len();
    while i > 0
        invariant
            i <= s.len(),
            forall|j: int| i <= j < s.len() ==> s@[j] != c,
        decreases i,
    {
        if s[i - 1] == c {
            proof {
                lemma_last_where(s@, |x: char| x == c, i - 1);
            }
            return Some(i - 1);
        }
        i = i - 1;
    }
    proof {
        lemma_last_where(s@, |x: char| x == c, -1);
    }
    None
}

/// `str::trim` on a character sequence, as start and end positions.
pub fn trim_bounds(s: &Vec<char>) -> (r: (usize, usize))
    ensures
        r.0 <= r.1 <= s.len(),
        trim_ws(s@) == s@.subrange(r.0 as int, r.1 as int),
{
    let mut e: usize = s.len();
    while e > 0 && is_whitespace_char(s[e - 1])
        invariant
            e <= s.len(),
            forall|j: int| e <= j < s.len() ==> is_ws_char(#[trigger] s@[j]),
        decreases e,
    {
        e = e - 1;
    }
    let ghost t = s@.take(e as int);
    proof {
        lemma_last_where(s@, non_ws_pred(), e - 1);
        assert(trim_end_ws(s@) == t);
    }
    let mut b: usize = 0;
    while b < e && is_whitespace_char(s[b])
        invariant
            b <= e <= s.len(),
            forall|j: int| 0 <= j < b ==> is_ws_char(#[trigger] s@[j]),
        decreases e - b,
    {
        b = b + 1;
    }
    proof {
        assert forall|j: int| 0 <= j < b implies !non_ws_pred()(#[trigger] t[j]) by {
            assert(t[j] == s@[j]);
        }
        lemma_first_where(t, non_ws_pred(), b as int);
        assert(t.skip(b as int) =~= s@.subrange(b as int, e as int));
    }
    (b, e)
}

/// `str::trim_end`.
pub fn trim_end_str(s: &str) -> (r: &str)
    ensures
        r@ == trim_end_ws(s@),
{
    let v = chars_of(s);
    let mut e: usize = v.len();
    while e > 0 && is_whitespace_char(v[e - 1])
        invariant
            e <= v@.len(),
            v@ == s@,
            forall|j: int| e <= j < v@.len() ==> is_ws_char(#[trigger] v@[j]),
        decreases e,
    {
        e = e - 1;
    }
    proof {
        lemma_last_where(s@, non_ws_pred(), e - 1);
    }
    s.substring_char(0, e)
}

/// `str::trim`.
pub fn trim_str(s: &str) -> (r: &str)
    ensures
        r@ == trim_ws(s@),
{
    let v = chars_of(s);
    let (b, e) = trim_bounds(&v);
    s.substring_char(b, e)
}

/// `s` up to and including its last element that satisfies `keep`.
pub open spec fn trim_end_while_not(s: Seq<char>, keep: spec_fn(char) -> bool) -> Seq<char> {
    s.take(last_where(s, keep) + 1)
}

/// `str::trim_end`: without white space at the end.
pub open spec fn trim_end_ws(s: Seq<char>) -> Seq<char> {
    trim_end_while_not(s, non_ws_pred())
}

/// `str::trim`: without white space at either end.
pub open spec fn trim_ws(s: Seq<char>) -> Seq<char> {
    let t = trim_end_ws(s);
    t.skip(first_where(t, non_ws_pred()))
}

/// The pieces of `s` between the occurrences of `sep`; there is always one more
/// piece than there are separators.
pub open spec fn split_on(s: Seq<char>, sep: char) -> Seq<Seq<char>>
    decreases s.len(),
{
    if s.len() == 0 {
        seq![Seq::<char>::empty()]
    } else {
        let prev = split_on(s.drop_last(), sep);
        if s.last() == sep {
            prev.push(Seq::<char>::empty())
        } else {
            prev.update(prev.len() - 1, prev.last().push(s.last()))
        }
    }
}

pub proof fn lemma_split_on_len(s: Seq<char>, sep: char)
    ensures
        split_on(s, sep).len() >= 1,
    decreases s.len(),
{
    if s.len() > 0 {
        lemma_split_on_len(s.drop_last(), sep);
    }
}

/// A line as `str::lines` yields it: a carriage return just before the line
/// feed that ended the line is dropped.
pub open spec fn strip_cr(piece: Seq<char>, ended_by_lf: bool) -> Seq<char> {
    if ended_by_lf && piece.len() > 0 && piece.last() == '\r' {
        piece.drop_last()
    } else {
        piece
    }
}

/// The lines of `s` as `str::lines` yields them: split at each line feed, the
/// line terminator (`\n` or `\r\n`) removed, and no empty line after a final
/// line feed.
pub open spec fn lines_of(s: Seq<char>) -> Seq<Seq<char>> {
    let segs = split_on(s, '\n');
    let n = if s.len() > 0 && s.last() != '\n' {
        segs.len()
    } else {
        (segs.len() - 1) as nat
    };
    Seq::new(n, |i: int| strip_cr(segs[i], i < segs.len() - 1))
}

/// The pieces of `s.take(j)` are the pieces of `s.take(j - 1)` updated by `s[j - 1]`.
proof fn lemma_split_on_step(s: Seq<char>, sep: char, j: int)
    requires
        0 < j <= s.len(),
    ensures
        ({
            let prev = split_on(s.take(j - 1), sep);
            split_on(s.take(j), sep) == if s[j - 1] == sep {
                prev.push(Seq::<char>::empty())
            } else {
                prev.update(prev.len() - 1, prev.last().push(s[j - 1]))
            }
        }),
{
    assert(s.take(j).drop_last() =~= s.take(j - 1));
}

/// The lines of `s`, as `str::lines` splits it.
pub fn split_lines<'a>(s: &'a str) -> (r: Vec<&'a str>)
    ensures
        r@.len() == lines_of(s@).len(),
        forall|i: int| 0 <= i < r@.len() ==> (#[trigger] r@[i])@ == lines_of(s@)[i],
{
    let v = chars_of(s);
    let n = v.len();
    let mut pieces: Vec<&'a str> = Vec::new();
    let mut start: usize = 0;
    let mut j: usize = 0;
    proof {
        assert(s@.take(0) =~= Seq::<char>::empty());
    }
    while j < n
        invariant
            v@ == s@,
            n == s@.len(),
            start <= j <= n,
            split_on(s@.take(j as int), '\n').len() == pieces@.len() + 1,
            forall|i: int|
                0 <= i < pieces@.len() ==> (#[trigger] pieces@[i])@ == strip_cr(
                    split_on(s@.take(j as int), '\n')[i],
                    true,
                ),
            split_on(s@.take(j as int), '\n').last() == s@.subrange(start as int, j as int),
        decreases n - j,
    {
        proof {
            lemma_split_on_step(s@, '\n', j + 1);
        }
        if v[j] == '\n' {
            let end = if j > start && v[j - 1] == '\r' {
                j - 1
            } else {
                j
            };
            let piece = s.substring_char(start, end);
            assert(piece@ == strip_cr(s@.subrange(start as int, j as int), true));
            pieces.push(piece);
            start = j + 1;
        }
        j = j + 1;
    }
    proof {
        assert(s@.take(n as int) =~= s@);
        lemma_split_on_len(s@, '\n');
    }
    if n > 0 && v[n - 1] != '\n' {
        let piece = s.substring_char(start, n);
        pieces.push(piece);
    }
    proof {
        let segs = split_on(s@, '\n');
        if n == 0 {
            assert(segs == seq![Seq::<char>::empty()]);
        }
        assert forall|i: int| 0 <= i < pieces@.len() implies (#[trigger] pieces@[i])@ == lines_of(
            s@,
        )[i] by {}
    }
    pieces
}

/// The characters of `s`.
pub fn chars_of(s: &str) -> (r: Vec<char>)
    ensures
        r@ == s@,
{
    let n = s.unicode_len();
    let mut v: Vec<char> = Vec::new();
    let mut i: usize = 0;
    while i < n
        invariant
            n == s@.len(),
            i <= n,
            v@ == s@.take(i as int),
        decreases n - i,
    {
        let c = s.get_char(i);
        v.push(c);
        assert(v@ =~= s@.take(i + 1));
        i = i + 1;
    }
    assert(v@ =~= s@);
    v
}


/// The number of bytes of the UTF-8 encoding of `s`, as a natural number.
pub open spec fn utf8_len(s: Seq<char>) -> nat {
    vstd::utf8::encode_utf8(s).len()
}

/// The encoding of two texts one after the other is the two encodings one after the other.
pub proof fn lemma_utf8_len_concat(a: Seq<char>, b: Seq<char>)
    ensures
        utf8_len(a + b) == utf8_len(a) + utf8_len(b),
    decreases a.len(),
{
    if a.len() > 0 {
        assert((a + b).drop_first() =~= a.drop_first() + b);
        assert((a + b)[0] == a[0]);
        lemma_utf8_len_concat(a.drop_first(), b);
    } else {
        assert(a + b =~= b);
    }
}

/// A text of ASCII characters has one byte per character.
pub proof fn lemma_ascii_utf8_len(s: Seq<char>)
    requires
        forall|i: int| 0 <= i < s.len() ==> (#[trigger] s[i] as u32) < 0x80,
    ensures
        utf8_len(s) == s.len(),
    decreases s.len(),
{
    if s.len() > 0 {
        assert((s[0] as u32) < 0x80);
        assert(vstd::utf8::has_width_1_encoding(s[0] as u32));
        assert forall|i: int| 0 <= i < s.drop_first().len() implies (#[trigger] s.drop_first()[i]
            as u32) < 0x80 by {
            assert(s.drop_first()[i] == s[i + 1]);
        }
        lemma_ascii_utf8_len(s.drop_first());
    }
}

/// Appends `c` to `s` (`String::push`).
#[verifier::external_body]
pub(crate) fn push_char(s: &mut String, c: char)
    ensures
        final(s)@ == old(s)@.push(c),
{
    s.push(c)
}

/// The text of the characters `v`.
pub fn string_of_chars(v: &Vec<char>) -> (r: String)
    ensures
        r@ == v@,
{
    let mut r = String::new();
    let mut i: usize = 0;
    while i < v.len()
        invariant
            i <= v.len(),
            r@ == v@.take(i as int),
        decreases v.len() - i,
    {
        push_char(&mut r, v[i]);
        assert(r@ =~= v@.take(i + 1));
        i = i + 1;
    }
    assert(v@.take(v.len() as int) =~= v@);
    r
}


/// `str::split` on a character: the pieces between the separators, empty ones included.
pub fn split_str<'a>(s: &'a str, sep: char) -> (r: Vec<&'a str>)
    ensures
        r@.len() == split_on(s@, sep).len(),
        forall|i: int| 0 <= i < r@.len() ==> (#[trigger] r@[i])@ == split_on(s@, sep)[i],
{
    let v = chars_of(s);
    let n = v.len();
    let mut pieces: Vec<&'a str> = Vec::new();
    let mut start: usize = 0;
    let mut j: usize = 0;
    proof {
        assert(s@.take(0) =~= Seq::<char>::empty());
    }
    while j < n
        invariant
            v@ == s@,
            n == s@.len(),
            start <= j <= n,
            split_on(s@.take(j as int), sep).len() == pieces@.len() + 1,
            forall|i: int|
                0 <= i < pieces@.len() ==> (#[trigger] pieces@[i])@ == split_on(
                    s@.take(j as int),
                    sep,
                )[i],
            split_on(s@.take(j as int), sep).last() == s@.subrange(start as int, j as int),
        decreases n - j,
    {
        proof {
            lemma_split_on_step(s@, sep, j + 1);
        }
        if v[j] == sep {
            let piece = s.substring_char(start, j);
            pieces.push(piece);
            start = j + 1;
        }
        assert(s@.subrange(start as int, j + 1) =~= (if v@[j as int] == sep {
            Seq::<char>::empty()
        } else {
            s@.subrange(start as int, j as int).push(v@[j as int])
        }));
        j = j + 1;
    }
    let piece = s.substring_char(start, n);
    pieces.push(piece);
    proof {
        assert(s@.take(n as int) =~= s@);
    }
    pieces
}


/// No piece of a split is longer than the text split.
pub proof fn lemma_split_on_piece_len(s: Seq<char>, sep: char)
    ensures
        forall|i: int| 0 <= i < split_on(s, sep).len() ==> (#[trigger] split_on(s, sep)[i]).len()
            <= s.len(),
    decreases s.len(),
{
    if s.len() > 0 {
        lemma_split_on_piece_len(s.drop_last(), sep);
        lemma_split_on_len(s.drop_last(), sep);
    }
}

/// No line of a text is longer than the text.
pub proof fn lemma_lines_of_len(s: Seq<char>)
    ensures
        forall|i: int| 0 <= i < lines_of(s).len() ==> (#[trigger] lines_of(s)[i]).len() <= s.len(),
{
    lemma_split_on_piece_len(s, '\n');
    lemma_split_on_len(s, '\n');
}


/// The number of line feeds at the end of `s`, carriage returns among them not counted.
pub open spec fn trailing_line_feeds(s: Seq<char>) -> nat
    decreases s.len(),
{
    if s.len() == 0 {
        0
    } else if s.last() == '\n' {
        trailing_line_feeds(s.drop_last()) + 1
    } else if s.last() == '\r' {
        trailing_line_feeds(s.drop_last())
    } else {
        0
    }
}

/// Without carriage returns, dropping `k` of the line feeds at the end leaves `k`
/// fewer.
pub proof fn lemma_drop_trailing_line_feeds(s: Seq<char>, k: nat)
    requires
        k <= trailing_line_feeds(s),
        forall|i: int| 0 <= i < s.len() ==> s[i] != '\r',
    ensures
        k <= s.len(),
        trailing_line_feeds(s.take(s.len() - k)) == trailing_line_feeds(s) - k,
    decreases k,
{
    if k == 0 {
        assert(s.take(s.len() as int) =~= s);
        lemma_trailing_line_feeds_len(s);
    } else {
        lemma_trailing_line_feeds_len(s);
        assert(s.last() == '\n');
        let t = s.drop_last();
        assert forall|i: int| 0 <= i < t.len() implies t[i] != '\r' by {
            assert(t[i] == s[i]);
        }
        lemma_drop_trailing_line_feeds(t, (k - 1) as nat);
        assert(t.take(t.len() - (k - 1)) =~= s.take(s.len() - k));
    }
}

/// There are no more line feeds at the end of a text than characters.
pub proof fn lemma_trailing_line_feeds_len(s: Seq<char>)
    ensures
        trailing_line_feeds(s) <= s.len(),
        trailing_line_feeds(s) > 0 && (forall|i: int| 0 <= i < s.len() ==> s[i] != '\r') ==> s.last()
            == '\n',
    decreases s.len(),
{
    if s.len() > 0 {
        lemma_trailing_line_feeds_len(s.drop_last());
    }
}


/// The number of bytes of the UTF-8 encoding of `c` (`char::len_utf8`).
pub fn utf8_width(c: char) -> (r: usize)
    ensures
        r == vstd::utf8::encode_scalar(c as u32).len(),
        1 <= r <= 4,
        (c as u32) < 0x80 ==> r == 1,
{
    proof {
        vstd::utf8::char_is_scalar(c);
    }
    let u = c as u32;
    if u <= 0x7F {
        1
    } else if u <= 0x7FF {
        2
    } else if u <= 0xFFFF {
        3
    } else {
        4
    }
}

/// The encoding of a text with one more character has that character's bytes more.
pub proof fn lemma_utf8_len_push(s: Seq<char>, c: char)
    ensures
        utf8_len(s.push(c)) == utf8_len(s) + vstd::utf8::encode_scalar(c as u32).len(),
{
    lemma_utf8_len_concat(s, seq![c]);
    assert(s.push(c) =~= s + seq![c]);
    assert(seq![c].drop_first() =~= Seq::<char>::empty());
    assert(vstd::utf8::encode_utf8(seq![c]) == vstd::utf8::encode_scalar(seq![c][0] as u32)
        + vstd::utf8::encode_utf8(seq![c].drop_first()));
    assert(vstd::utf8::encode_utf8(Seq::<char>::empty()) =~= Seq::<u8>::empty());
}

} // verus!
