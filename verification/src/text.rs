//! The two operations on text that the engine takes from the standard
//! library on trust, with what each is taken to do.

use vstd::prelude::*;

verus! {

/// Whether `part` occurs in `whole` as a run of consecutive characters.
pub open spec fn is_substring(part: Seq<char>, whole: Seq<char>) -> bool {
    exists|i: int|
        0 <= i <= whole.len() - part.len() && #[trigger] whole.subrange(i, i + part.len()) == part
}

/// `text` with each occurrence of the character `from` replaced by the
/// characters of `to`.
pub open spec fn substitute(text: Seq<char>, from: char, to: Seq<char>) -> Seq<char>
    decreases text.len(),
{
    if text.len() == 0 {
        Seq::empty()
    } else {
        substitute(text.drop_last(), from, to) + (if text.last() == from {
            to
        } else {
            seq![text.last()]
        })
    }
}

/// `str::contains` with a string as the pattern: whether the pattern
/// matches a sub-slice of the string, that is, occurs in it.
#[verifier::external_body]
pub(crate) fn contains_text(whole: &str, part: &str) -> (r: bool)
    ensures
        r == is_substring(part@, whole@),
{
    whole.contains(part)
}

/// `str::replace` with a character as the pattern: a new string in which
/// every match of the pattern, each occurrence of the character, is
/// replaced by `to`.
#[verifier::external_body]
pub(crate) fn replace_char(text: &str, from: char, to: &str) -> (r: String)
    ensures
        r@ == substitute(text@, from, to@),
{
    text.replace(from, to)
}

} // verus!
