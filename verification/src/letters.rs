//! What the standard library knows of letters.
use crate::text;
use vstd::prelude::*;

verus! {

/// The lower case of a text, as [`lower_case`] gives it.
pub uninterp spec fn lowered(text: Seq<char>) -> Seq<char>;

/// `str::to_lowercase`: the lower case of a text by the Unicode tables, named
/// [`lowered`]. Every character has one or more in lower case, so that a text
/// with something in it keeps something.
#[verifier::external_body]
pub(crate) fn lower_case(text: &str) -> (out: String)
    ensures
        out@ == lowered(text@),
        text@.len() > 0 ==> out@.len() > 0,
{
    text.to_lowercase()
}

/// The lower case of a text; that of nothing is nothing.
pub open spec fn small(text: Seq<char>) -> Seq<char> {
    if text.len() == 0 {
        Seq::empty()
    } else {
        lowered(text)
    }
}

/// [`small`].
pub(crate) fn to_small(text: &str) -> (out: String)
    ensures
        out@ == small(text@),
        text@.len() > 0 ==> out@.len() > 0,
{
    if text::chars_of(text).len() == 0 {
        let out = String::new();
        assert(out@ =~= Seq::empty());
        out
    } else {
        lower_case(text)
    }
}

/// Whether Unicode counts a character as a letter or a number, as
/// [`letter_or_number`] says.
pub uninterp spec fn is_letter_or_number(c: char) -> bool;

/// `char::is_alphanumeric`, by the Unicode tables, named
/// [`is_letter_or_number`]. Of the ASCII characters, the letters and the digits
/// are the ones.
#[verifier::external_body]
pub(crate) fn letter_or_number(c: char) -> (out: bool)
    ensures
        out == is_letter_or_number(c),
        (c as u32) < 128 ==> out == (('0' <= c && c <= '9') || ('a' <= c && c <= 'z') || ('A' <= c
            && c <= 'Z')),
{
    c.is_alphanumeric()
}

/// Whether Unicode counts a character as a number, as [`number`] says.
pub uninterp spec fn is_number(c: char) -> bool;

/// `char::is_numeric`, by the Unicode tables, named [`is_number`]. Of the ASCII
/// characters, the digits are the ones.
#[verifier::external_body]
pub(crate) fn number(c: char) -> (out: bool)
    ensures
        out == is_number(c),
        (c as u32) < 128 ==> out == ('0' <= c && c <= '9'),
{
    c.is_numeric()
}

} // verus!
