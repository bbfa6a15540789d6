//! Searching with regular expressions.
use vstd::prelude::*;

verus! {

/// A character that means something in a regular expression.
pub open spec fn is_meta(c: char) -> bool {
    c == '\\' || c == '.' || c == '+' || c == '*' || c == '?' || c == '(' || c == ')' || c == '|'
        || c == '[' || c == ']' || c == '{' || c == '}' || c == '^' || c == '$' || c == '#' || c
        == '&' || c == '-' || c == '~'
}

/// A text with a backslash before each character that means something in a
/// regular expression.
pub open spec fn escaped(text: Seq<char>) -> Seq<char>
    decreases text.len(),
{
    if text.len() == 0 {
        Seq::empty()
    } else {
        let before = escaped(text.drop_last());
        if is_meta(text.last()) {
            before.push('\\').push(text.last())
        } else {
            before.push(text.last())
        }
    }
}

/// `regex::escape` puts a backslash before each meta character and leaves the
/// other characters as they are.
pub assume_specification[ regex::escape ](pattern: &str) -> (out: String)
    ensures
        out@ == escaped(pattern@),
;

/// The matches that `regex` finds of a pattern in a text, as pairs of byte
/// offsets, or nothing where it does not take the pattern.
pub uninterp spec fn regex_matches(pattern: Seq<char>, fold_case: bool, text: Seq<char>) -> Option<
    Seq<(usize, usize)>,
>;

/// `RegexBuilder::build` and `Regex::find_iter`: the successive matches of the
/// pattern in the text, or nothing where the pattern is not taken. Which they are
/// is left to the name.
#[verifier::external_body]
pub(crate) fn find_all(pattern: &str, fold_case: bool, text: &str) -> (out: Option<
    Vec<(usize, usize)>,
>)
    ensures
        match out {
            Some(found) => regex_matches(pattern@, fold_case, text@) == Some(found@),
            None => regex_matches(pattern@, fold_case, text@) is None,
        },
{
    let built = regex::RegexBuilder::new(pattern).case_insensitive(fold_case).build();
    match built {
        Ok(regex) => Some(regex.find_iter(text).map(|m| (m.start(), m.end())).collect()),
        Err(_) => None,
    }
}

/// Whether `regex` takes a pattern.
pub uninterp spec fn regex_takes(pattern: Seq<char>) -> bool;

/// `Regex::new`, as far as it says whether the pattern is taken. Which patterns
/// are is left to the name.
#[verifier::external_body]
pub(crate) fn takes(pattern: &str) -> (out: bool)
    ensures
        out == regex_takes(pattern@),
{
    regex::Regex::new(pattern).is_ok()
}

/// Whether `regex` finds a pattern that it takes somewhere in a text.
pub uninterp spec fn regex_finds(pattern: Seq<char>, text: Seq<char>) -> bool;

/// `Regex::is_match`, of a pattern as it is written: nothing is found of one
/// that is not taken. Where a pattern is found is left to the name.
#[verifier::external_body]
pub(crate) fn finds(pattern: &str, text: &str) -> (out: bool)
    ensures
        out == (regex_takes(pattern@) && regex_finds(pattern@, text@)),
{
    match regex::Regex::new(pattern) {
        Ok(regex) => regex.is_match(text),
        Err(_) => false,
    }
}

} // verus!
