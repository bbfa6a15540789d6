//! The other direction: keys to bytes.
use crate::terminal::cell::Modes;
use crate::terminal::model;
use crate::terminal::rendition::push_digits;
use crate::text::{chars_of, string_of};
use vstd::prelude::*;
use vstd::utf8;

verus! {

/// A key as the pane knows it, before it is anything the shell can read.
///
/// The pane must not encode keys itself: what a key becomes depends on modes
/// that the shell set.
#[derive(Clone, Copy, PartialEq, Eq, Structural, Debug)]
pub enum Key {
    Char(char),
    Enter,
    Tab,
    Backspace,
    Escape,
    Up,
    Down,
    Right,
    Left,
    Home,
    End,
    PageUp,
    PageDown,
    Insert,
    Delete,
    /// F1 is 1.
    Function(u8),
}

#[derive(Clone, Copy, PartialEq, Eq, Structural, Debug)]
pub struct Modifiers {
    pub shift: bool,
    pub alt: bool,
    pub control: bool,
}

impl Default for Modifiers {
    fn default() -> (out: Self)
        ensures
            out == (Modifiers { shift: false, alt: false, control: false }),
    {
        Modifiers { shift: false, alt: false, control: false }
    }
}

pub open spec fn one_if(held: bool) -> int {
    if held {
        1
    } else {
        0
    }
}

impl Modifiers {
    pub fn none() -> (out: Self)
        ensures
            out == (Modifiers { shift: false, alt: false, control: false }),
    {
        Modifiers { shift: false, alt: false, control: false }
    }

    pub fn control() -> (out: Self)
        ensures
            out == (Modifiers { shift: false, alt: false, control: true }),
    {
        Modifiers { shift: false, alt: false, control: true }
    }

    /// The number a sequence carries to say which modifiers were held: 1 means
    /// none, and the three bits are added to it.
    pub open spec fn number(self) -> int {
        1 + one_if(self.shift) + 2 * one_if(self.alt) + 4 * one_if(self.control)
    }

    pub open spec fn held(self) -> bool {
        self.shift || self.alt || self.control
    }

    fn code(self) -> (out: u8)
        ensures
            out == self.number(),
    {
        let mut out: u8 = 1;
        if self.shift {
            out += 1;
        }
        if self.alt {
            out += 2;
        }
        if self.control {
            out += 4;
        }
        out
    }

    fn any(self) -> (out: bool)
        ensures
            out == self.held(),
    {
        self.shift || self.alt || self.control
    }
}

/// `ESC`, where Alt is held: Alt is a prefix, not a modifier.
pub open spec fn alt_prefix(modifiers: Modifiers) -> Seq<u8> {
    if modifiers.alt {
        seq![0x1bu8]
    } else {
        Seq::empty()
    }
}

/// `ESC [`
pub open spec fn csi() -> Seq<u8> {
    seq![0x1bu8, 0x5b]
}

/// The control character a letter makes when Ctrl is held.
pub open spec fn control_of(text: char) -> Option<u8> {
    if 'a' <= text <= 'z' {
        Some((text as u32 - 0x60) as u8)
    } else if 'A' <= text <= 'Z' {
        Some((text as u32 - 0x40) as u8)
    } else if text == '@' || text == ' ' {
        Some(0)
    } else if text == '[' {
        Some(0x1b)
    } else if text == '\\' {
        Some(0x1c)
    } else if text == ']' {
        Some(0x1d)
    } else if text == '^' {
        Some(0x1e)
    } else if text == '_' || text == '/' {
        Some(0x1f)
    } else if text == '?' {
        Some(0x7f)
    } else {
        None
    }
}

/// The final byte of a key that moves the cursor.
pub open spec fn cursor_final(key: Key) -> Option<u8> {
    match key {
        Key::Up => Some(0x41),
        Key::Down => Some(0x42),
        Key::Right => Some(0x43),
        Key::Left => Some(0x44),
        Key::Home => Some(0x48),
        Key::End => Some(0x46),
        _ => None,
    }
}

/// The number of a key whose sequence ends in `~`. The numbers are not
/// contiguous, and never have been.
pub open spec fn tilde_number(key: Key) -> Option<int> {
    match key {
        Key::Insert => Some(2),
        Key::Delete => Some(3),
        Key::PageUp => Some(5),
        Key::PageDown => Some(6),
        Key::Function(number) => if number == 5 {
            Some(15)
        } else if 6 <= number <= 10 {
            Some(number + 11)
        } else if number == 11 || number == 12 {
            Some(number + 12)
        } else {
            None
        },
        _ => None,
    }
}

pub open spec fn tilde_bytes(number: int, modifiers: Modifiers) -> Seq<u8> {
    if modifiers.held() {
        csi() + model::digits(number as nat) + seq![0x3bu8] + model::digits(
            modifiers.number() as nat,
        ) + seq![0x7eu8]
    } else {
        csi() + model::digits(number as nat) + seq![0x7eu8]
    }
}

/// `ESC [ 1 ;`, the modifiers and the final byte. There is nowhere to put the
/// number in any other form.
pub open spec fn modified(modifiers: Modifiers, last: u8) -> Seq<u8> {
    csi() + seq![0x31u8, 0x3b] + model::digits(modifiers.number() as nat) + seq![last]
}

/// What a keystroke sends.
pub open spec fn key_bytes(key: Key, modifiers: Modifiers, modes: Modes) -> Seq<u8> {
    if let Some(last) = cursor_final(key) {
        if modifiers.held() {
            modified(modifiers, last)
        } else if modes.application_cursor_keys {
            seq![0x1bu8, 0x4f, last]
        } else {
            csi() + seq![last]
        }
    } else if let Some(number) = tilde_number(key) {
        tilde_bytes(number, modifiers)
    } else {
        match key {
            Key::Char(text) => alt_prefix(modifiers) + match control_of(text) {
                Some(byte) if modifiers.control => seq![byte],
                _ => utf8::encode_utf8(seq![text]),
            },
            Key::Enter => alt_prefix(modifiers) + seq![0x0du8],
            Key::Tab => if modifiers.shift {
                csi() + seq![0x5au8]
            } else {
                alt_prefix(modifiers) + seq![0x09u8]
            },
            Key::Backspace => alt_prefix(modifiers) + seq![
                if modifiers.control {
                    0x08u8
                } else {
                    0x7fu8
                },
            ],
            Key::Escape => alt_prefix(modifiers) + seq![0x1bu8],
            Key::Function(number) => if 1 <= number <= 4 {
                if modifiers.held() {
                    modified(modifiers, (0x4f + number) as u8)
                } else {
                    seq![0x1bu8, 0x4f, (0x4f + number) as u8]
                }
            } else {
                Seq::empty()
            },
            _ => Seq::empty(),
        }
    }
}

/// The UTF-8 bytes of these characters.
fn bytes_of(text: &str) -> (out: Vec<u8>)
    ensures
        out@ == utf8::encode_utf8(text@),
{
    vstd::slice::slice_to_vec(text.as_bytes())
}

fn alt_start(modifiers: Modifiers) -> (out: Vec<u8>)
    ensures
        out@ == alt_prefix(modifiers),
{
    let mut out: Vec<u8> = Vec::new();
    if modifiers.alt {
        out.push(0x1b);
    }
    assert(out@ =~= alt_prefix(modifiers));
    out
}

fn modified_sequence(modifiers: Modifiers, last: u8) -> (out: Vec<u8>)
    ensures
        out@ == modified(modifiers, last),
{
    let mut out: Vec<u8> = vec![0x1b, 0x5b, 0x31, 0x3b];
    push_digits(&mut out, modifiers.code() as usize);
    out.push(last);
    assert(out@ =~= modified(modifiers, last));
    out
}

fn tilde_sequence(number: usize, modifiers: Modifiers) -> (out: Vec<u8>)
    ensures
        out@ == tilde_bytes(number as int, modifiers),
{
    let mut out: Vec<u8> = vec![0x1b, 0x5b];
    push_digits(&mut out, number);
    if modifiers.any() {
        out.push(0x3b);
        push_digits(&mut out, modifiers.code() as usize);
    }
    out.push(0x7e);
    assert(out@ =~= tilde_bytes(number as int, modifiers));
    out
}

/// The control character a letter makes when Ctrl is held.
fn control_byte(text: char) -> (out: Option<u8>)
    ensures
        out == control_of(text),
{
    if 'a' <= text && text <= 'z' {
        Some((text as u32 - 0x60) as u8)
    } else if 'A' <= text && text <= 'Z' {
        Some((text as u32 - 0x40) as u8)
    } else if text == '@' || text == ' ' {
        Some(0)
    } else if text == '[' {
        Some(0x1b)
    } else if text == '\\' {
        Some(0x1c)
    } else if text == ']' {
        Some(0x1d)
    } else if text == '^' {
        Some(0x1e)
    } else if text == '_' || text == '/' {
        Some(0x1f)
    } else if text == '?' {
        Some(0x7f)
    } else {
        None
    }
}

/// What to send for a keystroke.
pub fn encode_key(key: Key, modifiers: Modifiers, modes: Modes) -> (out: Vec<u8>)
    ensures
        out@ == key_bytes(key, modifiers, modes),
{
    match key {
        Key::Char(text) => {
            let mut out = alt_start(modifiers);
            if modifiers.control {
                if let Some(byte) = control_byte(text) {
                    out.push(byte);
                    assert(out@ =~= key_bytes(key, modifiers, modes));
                    return out;
                }
            }
            let mut one = String::new();
            one.push(text);
            assert(one@ =~= seq![text]);
            let mut bytes = bytes_of(one.as_str());
            out.append(&mut bytes);
            assert(out@ =~= key_bytes(key, modifiers, modes));
            out
        },
        Key::Enter => {
            // `\r`, not `\n`: the shell's line discipline turns the return into
            // a newline.
            let mut out = alt_start(modifiers);
            out.push(0x0d);
            assert(out@ =~= key_bytes(key, modifiers, modes));
            out
        },
        Key::Tab => {
            if modifiers.shift {
                let out: Vec<u8> = vec![0x1b, 0x5b, 0x5a];
                assert(out@ =~= key_bytes(key, modifiers, modes));
                out
            } else {
                let mut out = alt_start(modifiers);
                out.push(0x09);
                assert(out@ =~= key_bytes(key, modifiers, modes));
                out
            }
        },
        Key::Backspace => {
            // DEL, which is what every unix terminal has sent for decades.
            let mut out = alt_start(modifiers);
            out.push(
                if modifiers.control {
                    0x08
                } else {
                    0x7f
                },
            );
            assert(out@ =~= key_bytes(key, modifiers, modes));
            out
        },
        Key::Escape => {
            let mut out = alt_start(modifiers);
            out.push(0x1b);
            assert(out@ =~= key_bytes(key, modifiers, modes));
            out
        },
        Key::Up | Key::Down | Key::Right | Key::Left | Key::Home | Key::End => {
            let last: u8 = match key {
                Key::Up => 0x41,
                Key::Down => 0x42,
                Key::Right => 0x43,
                Key::Left => 0x44,
                Key::Home => 0x48,
                _ => 0x46,
            };
            if modifiers.any() {
                modified_sequence(modifiers, last)
            } else if modes.application_cursor_keys {
                let out: Vec<u8> = vec![0x1b, 0x4f, last];
                assert(out@ =~= seq![0x1bu8, 0x4f, last]);
                out
            } else {
                let out: Vec<u8> = vec![0x1b, 0x5b, last];
                assert(out@ =~= csi() + seq![last]);
                out
            }
        },
        Key::Insert => tilde_sequence(2, modifiers),
        Key::Delete => tilde_sequence(3, modifiers),
        Key::PageUp => tilde_sequence(5, modifiers),
        Key::PageDown => tilde_sequence(6, modifiers),
        Key::Function(number) => {
            if 1 <= number && number <= 4 {
                if modifiers.any() {
                    modified_sequence(modifiers, 0x4f + number)
                } else {
                    let out: Vec<u8> = vec![0x1b, 0x4f, 0x4f + number];
                    assert(out@ =~= seq![0x1bu8, 0x4f, (0x4f + number) as u8]);
                    out
                }
            } else if number == 5 {
                tilde_sequence(15, modifiers)
            } else if 6 <= number && number <= 10 {
                tilde_sequence(number as usize + 11, modifiers)
            } else if number == 11 || number == 12 {
                tilde_sequence(number as usize + 12, modifiers)
            } else {
                Vec::new()
            }
        },
    }
}

/// Line endings as the shell's line editor wants them: a return for each,
/// whether it was written as a return and a newline or as a newline.
pub open spec fn with_returns(text: Seq<char>) -> Seq<char>
    decreases text.len(),
{
    if text.len() == 0 {
        Seq::empty()
    } else if text.len() >= 2 && text[0] == '\r' && text[1] == '\n' {
        seq!['\r'] + with_returns(text.skip(2))
    } else if text[0] == '\n' {
        seq!['\r'] + with_returns(text.skip(1))
    } else {
        seq![text[0]] + with_returns(text.skip(1))
    }
}

fn returns_only(text: &str) -> (out: String)
    ensures
        out@ == with_returns(text@),
{
    let chars = chars_of(text);
    let mut out: Vec<char> = Vec::new();
    let mut at: usize = 0;
    assert(chars@.skip(0) =~= chars@);
    assert(out@ + with_returns(chars@) =~= with_returns(chars@));
    while at < chars.len()
        invariant
            at <= chars@.len(),
            out@ + with_returns(chars@.skip(at as int)) == with_returns(chars@),
        decreases chars@.len() - at,
    {
        let ghost had = out@;
        let ghost rest = chars@.skip(at as int);
        if chars[at] == '\r' && chars.len() - at >= 2 && chars[at + 1] == '\n' {
            out.push('\r');
            at += 2;
            assert(rest.skip(2) =~= chars@.skip(at as int));
            assert(had + (seq!['\r'] + with_returns(rest.skip(2))) =~= out@ + with_returns(rest.skip(2)));
        } else {
            let one = if chars[at] == '\n' {
                '\r'
            } else {
                chars[at]
            };
            out.push(one);
            at += 1;
            assert(rest.skip(1) =~= chars@.skip(at as int));
            assert(had + (seq![one] + with_returns(rest.skip(1))) =~= out@ + with_returns(rest.skip(1)));
        }
    }
    assert(out@ =~= with_returns(chars@));
    string_of(&out)
}

/// `ESC [ 200 ~`, `ESC [ 201 ~`
pub open spec fn paste_start() -> Seq<u8> {
    seq![0x1bu8, 0x5b, 0x32, 0x30, 0x30, 0x7e]
}

pub open spec fn paste_end() -> Seq<u8> {
    seq![0x1bu8, 0x5b, 0x32, 0x30, 0x31, 0x7e]
}

/// Text pasted into the pane, in the form the shell asked to receive it.
///
/// Bracketed paste is what stops a pasted newline from running a command. With
/// the markers the shell knows that the text was pasted and holds it; without
/// them every line break in the clipboard is a return key.
pub fn encode_paste(text: &str, modes: Modes) -> (out: Vec<u8>)
    ensures
        out@ == if modes.bracketed_paste {
            paste_start() + utf8::encode_utf8(with_returns(text@)) + paste_end()
        } else {
            utf8::encode_utf8(with_returns(text@))
        },
{
    let text = returns_only(text);
    let mut bytes = bytes_of(text.as_str());
    if modes.bracketed_paste {
        let mut out: Vec<u8> = vec![0x1b, 0x5b, 0x32, 0x30, 0x30, 0x7e];
        assert(out@ =~= paste_start());
        let mut end: Vec<u8> = vec![0x1b, 0x5b, 0x32, 0x30, 0x31, 0x7e];
        assert(end@ =~= paste_end());
        out.append(&mut bytes);
        out.append(&mut end);
        out
    } else {
        bytes
    }
}

/// Text sent as though the writer had typed it.
///
/// Not a paste, and that is the whole difference: it carries no markers, so
/// that a return is the return key and the line runs.
pub fn encode_typing(text: &str) -> (out: Vec<u8>)
    ensures
        out@ == utf8::encode_utf8(with_returns(text@)),
{
    let text = returns_only(text);
    bytes_of(text.as_str())
}

} // verus!
