//! Keys and how they are spelt.
//!
//! A key is spelt with its modifiers in one order, as in `Ctrl+Alt+Shift+K`.
//! Only keys with Ctrl or Alt, and the function keys, can be given to an action:
//! anything else would take a letter away from the text.
use crate::lines;
use crate::numbers;
use crate::text;
use slint::platform::Key;
use vstd::prelude::*;

verus! {

/// The character that stands for a key without a letter. The keys are counted:
/// Shift, Control, Alt, AltGr, CapsLock, the right Shift, the right Control,
/// Meta, the right Meta, Tab, the arrows up, down, left and right, and F1 to
/// F12.
pub open spec fn key_char(place: int) -> char {
    if place < 9 {
        (0x10 + place) as char
    } else if place == 9 {
        '\t'
    } else {
        (0xf700 + place - 10) as char
    }
}

/// The text with which `slint` reports a key without a letter: the conversion of
/// its `Key` into a `SharedString`, which holds the one character that the
/// toolkit has for the key, as [`key_char`] counts them.
#[verifier::external_body]
fn key_text(place: usize) -> (out: String)
    requires
        place < 26,
    ensures
        out@ == seq![key_char(place as int)],
{
    let keys = [
        Key::Shift, Key::Control, Key::Alt, Key::AltGr, Key::CapsLock, Key::ShiftR, Key::ControlR,
        Key::Meta, Key::MetaR, Key::Tab, Key::UpArrow, Key::DownArrow, Key::LeftArrow,
        Key::RightArrow, Key::F1, Key::F2, Key::F3, Key::F4, Key::F5, Key::F6, Key::F7, Key::F8,
        Key::F9, Key::F10, Key::F11, Key::F12,
    ];
    let text: slint::SharedString = keys[place].into();
    text.as_str().to_string()
}

/// The place of the first key from `from` to `to` that a text stands for.
pub open spec fn named_key(text: Seq<char>, from: int, to: int) -> Option<int>
    decreases to - from,
{
    if from >= to {
        None
    } else if text == seq![key_char(from)] {
        Some(from)
    } else {
        named_key(text, from + 1, to)
    }
}

pub(crate) fn find_key(text: &str, from: usize, to: usize) -> (out: Option<usize>)
    requires
        from <= to <= 26,
    ensures
        match out {
            Some(place) => named_key(text@, from as int, to as int) == Some(place as int) && from
                <= place < to,
            None => named_key(text@, from as int, to as int) is None,
        },
{
    let mut at: usize = from;
    while at < to
        invariant
            from <= at <= to <= 26,
            named_key(text@, from as int, to as int) == named_key(text@, at as int, to as int),
        decreases to - at,
    {
        let held = key_text(at);
        if text::same_text(text, held.as_str()) {
            return Some(at);
        }
        at += 1;
    }
    None
}

/// A text that stands for a modifier alone.
pub open spec fn is_modifier(text: Seq<char>) -> bool {
    named_key(text, 0, 9) is Some
}

/// [`is_modifier`].
pub fn modifier_only(text: &str) -> (out: bool)
    ensures
        out == is_modifier(text@),
{
    find_key(text, 0, 9).is_some()
}

/// The number of the function key that a text stands for.
pub open spec fn function_number(text: Seq<char>) -> Option<int> {
    match named_key(text, 14, 26) {
        Some(place) => Some(place - 13),
        None => None,
    }
}

/// The spelling of a function key.
pub open spec fn function_name(number: int) -> Seq<char> {
    seq!['F'] + text::decimal(number as nat)
}

pub(crate) fn spell_function(number: usize) -> (out: String)
    ensures
        out@ == function_name(number as int),
{
    let mut out = String::new();
    out.push('F');
    text::push_decimal(&mut out, number as u64);
    assert(out@ =~= function_name(number as int));
    out
}

/// The spelling of the function key that a text stands for.
pub fn function_key(text: &str) -> (out: Option<String>)
    ensures
        lines::optional(out) == match function_number(text@) {
            Some(number) => Some(function_name(number)),
            None => None,
        },
{
    match find_key(text, 14, 26) {
        Some(place) => Some(spell_function(place - 13)),
        None => None,
    }
}

/// A digit or a Latin letter.
pub open spec fn is_plain(c: char) -> bool {
    numbers::is_digit(c) || ('a' <= c && c <= 'z') || ('A' <= c && c <= 'Z')
}

/// The capital of a Latin letter; anything else stays.
pub open spec fn capital(c: char) -> char {
    if 'a' <= c && c <= 'z' {
        (c as u32 - 32) as char
    } else {
        c
    }
}

/// A text in capitals.
pub open spec fn capitals(text: Seq<char>) -> Seq<char> {
    Seq::new(text.len(), |i: int| capital(text[i]))
}

pub(crate) fn to_capital(c: char) -> (out: char)
    ensures
        out == capital(c),
{
    if 'a' <= c && c <= 'z' {
        let code: u32 = c as u32;
        (code - 32) as u8 as char
    } else {
        c
    }
}

pub(crate) fn to_capitals(source: &str) -> (out: String)
    ensures
        out@ == capitals(source@),
{
    let chars = text::chars_of(source);
    let mut out = String::new();
    let mut at: usize = 0;
    while at < chars.len()
        invariant
            at <= chars@.len(),
            chars@ == source@,
            out@ == capitals(source@).take(at as int),
        decreases chars@.len() - at,
    {
        out.push(to_capital(chars[at]));
        at += 1;
        assert(out@ =~= capitals(source@).take(at as int));
    }
    assert(capitals(source@).take(chars@.len() as int) =~= capitals(source@));
    out
}

} // verus!
