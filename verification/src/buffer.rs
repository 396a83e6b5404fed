//! The append-only text buffer of the `strings` crate, as the line checks see it.
use vstd::prelude::*;

use std::str::FromStr;

use strings::string_buffer::StringBuffer;

use crate::text::utf8_len;

verus! {

#[verifier::external_type_specification]
#[verifier::external_body]
pub struct ExStringBuffer(StringBuffer);

/// The text a `StringBuffer` holds.
pub uninterp spec fn buffer_text(b: StringBuffer) -> Seq<char>;

/// `StringBuffer::chars`, keeping the characters and dropping their byte
/// positions: the characters of the buffer's text, in order.
#[verifier::external_body]
pub(crate) fn buffer_chars(b: &StringBuffer) -> (r: Vec<char>)
    ensures
        r@ == buffer_text(*b),
{
    b.chars().map(|(c, _)| c).collect()
}

/// The public `len` field of a `StringBuffer`: the byte count the buffer keeps
/// of its text. `push_str` adds to it and `truncate` sets it; anyone may also
/// write it directly.
pub uninterp spec fn buffer_len_field(b: StringBuffer) -> usize;

/// Whether the `len` field of `b` is the number of bytes of its text, as it is
/// for every buffer that only `new`, `from_str`, `push_str` and `truncate`
/// have changed.
pub open spec fn buffer_ok(b: StringBuffer) -> bool {
    buffer_len_field(b) == utf8_len(buffer_text(b))
}

/// `StringBuffer::from_str` (the `FromStr` impl, which never fails): a new
/// buffer that holds `text`, whose `len` field is its byte count, added up by
/// `push_str` from zero.
#[verifier::external_body]
fn buffer_from_str(text: &str) -> (r: StringBuffer)
    ensures
        buffer_text(r) == text@,
        buffer_len_field(r) == utf8_len(text@),
{
    StringBuffer::from_str(text).unwrap()
}

/// A new buffer holding `text`, its length field counting the text's bytes.
pub fn buffer_from(text: &str) -> (r: StringBuffer)
    ensures
        buffer_text(r) == text@,
        buffer_ok(r),
{
    buffer_from_str(text)
}

/// Reads the `len` field of a `StringBuffer`.
#[verifier::external_body]
pub(crate) fn buffer_len(b: &StringBuffer) -> (r: usize)
    ensures
        r == buffer_len_field(*b),
{
    b.len
}

/// `StringBuffer::truncate`: does nothing where `new_len` is not below the
/// `len` field; else keeps the first `new_len` bytes of the text, which must end
/// on a character boundary, and sets the field to `new_len`. It finds those
/// bytes through the field, so the field must count the text's bytes.
#[verifier::external_body]
pub(crate) fn buffer_truncate(b: &mut StringBuffer, new_len: usize)
    requires
        buffer_ok(*old(b)),
        new_len < utf8_len(buffer_text(*old(b))) ==> exists|k: int|
            0 <= k <= buffer_text(*old(b)).len() && utf8_len(
                #[trigger] buffer_text(*old(b)).take(k),
            ) == new_len,
    ensures
        new_len >= buffer_len_field(*old(b)) ==> buffer_len_field(*final(b)) == buffer_len_field(
            *old(b),
        ),
        new_len < buffer_len_field(*old(b)) ==> buffer_len_field(*final(b)) == new_len,
        new_len >= utf8_len(buffer_text(*old(b))) ==> buffer_text(*final(b)) == buffer_text(
            *old(b),
        ),
        forall|k: int|
            0 <= k <= buffer_text(*old(b)).len() && utf8_len(#[trigger] buffer_text(*old(b)).take(k))
                == new_len ==> buffer_text(*final(b)) == buffer_text(*old(b)).take(k),
{
    b.truncate(new_len)
}


/// `StringBuffer::push_str`: the text grows by `s`, and the `len` field by the
/// bytes of `s`; that sum must fit in a `usize`.
#[verifier::external_body]
pub(crate) fn buffer_push_str(b: &mut StringBuffer, s: &str)
    requires
        buffer_len_field(*old(b)) + utf8_len(s@) <= usize::MAX,
    ensures
        buffer_text(*final(b)) == buffer_text(*old(b)) + s@,
        buffer_len_field(*final(b)) == buffer_len_field(*old(b)) + utf8_len(s@),
{
    b.push_str(s)
}

/// The text of a `StringBuffer` as a `String`, through its `Display`.
#[verifier::external_body]
pub(crate) fn buffer_to_string(b: &StringBuffer) -> (r: String)
    ensures
        r@ == buffer_text(*b),
{
    b.to_string()
}

} // verus!
