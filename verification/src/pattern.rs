//! Regular expressions of the `regex` crate, as the library uses them.
use vstd::prelude::*;

use regex::Regex;

verus! {

#[verifier::external_type_specification]
#[verifier::external_body]
pub struct ExRegex(Regex);

/// The pattern a compiled `Regex` was made from, as `Regex::as_str` gives it
/// back.
pub uninterp spec fn regex_source(re: Regex) -> Seq<char>;

/// Whether `Regex::new` compiles `pattern`.
pub uninterp spec fn regex_compiles(pattern: Seq<char>) -> bool;

/// `regex::Regex::new`: the compiled pattern, or `None` where it does not
/// compile (named `regex_compiles`). The regex made keeps its pattern.
#[verifier::external_body]
pub(crate) fn regex_new(pattern: &str) -> (r: Option<Regex>)
    ensures
        (r is Some) == regex_compiles(pattern@),
        r matches Some(re) ==> regex_source(re) == pattern@,
{
    Regex::new(pattern).ok()
}

/// Whether the regex of `pattern` matches somewhere in `text`.
pub uninterp spec fn regex_match(pattern: Seq<char>, text: Seq<char>) -> bool;

/// `regex::Regex::is_match`: whether the regex matches somewhere in `text`,
/// named `regex_match`, a function of its pattern and the text.
#[verifier::external_body]
pub(crate) fn regex_is_match(re: &Regex, text: &str) -> (r: bool)
    ensures
        r == regex_match(regex_source(*re), text@),
{
    re.is_match(text)
}

/// The text in which every match of the regex of `pattern` is replaced by
/// `replacement`, `$1` standing for the first group.
pub uninterp spec fn regex_replaced(pattern: Seq<char>, text: Seq<char>, replacement: Seq<char>) -> Seq<
    char,
>;

/// `regex::Regex::replace_all`, the result taken as an owned `String`: named
/// `regex_replaced`, a function of the pattern and the two texts.
#[verifier::external_body]
pub(crate) fn regex_replace_all(re: &Regex, text: &str, replacement: &str) -> (r: String)
    ensures
        r@ == regex_replaced(regex_source(*re), text@, replacement@),
{
    re.replace_all(text, replacement).into_owned()
}

} // verus!
