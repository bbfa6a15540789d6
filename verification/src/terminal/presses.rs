//! What the keys come to: the bytes that each sends, and how they relate.
use crate::terminal::cell::Modes;
use crate::terminal::keys::{self, Key, Modifiers};
use crate::terminal::model::{self, ScreenModel};
use crate::terminal::sequences;
use crate::terminal::stream::{ParserModel, State};
use vstd::prelude::*;
use vstd::utf8;

verus! {

/// No modifier is held.
pub open spec fn free() -> Modifiers {
    Modifiers { shift: false, alt: false, control: false }
}

/// A key that is not a character: the arrows, the keys around them, and F1 to F12.
pub open spec fn is_named(key: Key) -> bool {
    match key {
        Key::Up | Key::Down | Key::Right | Key::Left | Key::Home | Key::End => true,
        Key::Insert | Key::Delete | Key::PageUp | Key::PageDown => true,
        Key::Function(number) => 1 <= number <= 12,
        _ => false,
    }
}

/// An arrow key, read back by a terminal in its ordinary mode, moves the cursor the
/// way the key points, by one and as far as there is room. Home goes to the upper
/// left corner.
pub proof fn arrows_point_the_way(parser: ParserModel, screen: ScreenModel, modes: Modes)
    requires
        parser.state == State::Ground,
        screen.wf(),
        !modes.application_cursor_keys,
    ensures
        ({
            let up = parser.screen_after(screen, keys::key_bytes(Key::Up, free(), modes));
            &&& up.cursor.row == sequences::less(screen.cursor.row as int, 1)
            &&& up.cursor.column == screen.cursor.column
            &&& sequences::only_moved(screen, up)
        }),
        ({
            let down = parser.screen_after(screen, keys::key_bytes(Key::Down, free(), modes));
            &&& down.cursor.row == sequences::more(screen.cursor.row as int, 1, screen.rows - 1)
            &&& down.cursor.column == screen.cursor.column
            &&& sequences::only_moved(screen, down)
        }),
        ({
            let right = parser.screen_after(screen, keys::key_bytes(Key::Right, free(), modes));
            &&& right.cursor.row == screen.cursor.row
            &&& right.cursor.column == sequences::more(
                screen.cursor.column as int,
                1,
                screen.columns - 1,
            )
            &&& sequences::only_moved(screen, right)
        }),
        ({
            let left = parser.screen_after(screen, keys::key_bytes(Key::Left, free(), modes));
            &&& left.cursor.row == screen.cursor.row
            &&& left.cursor.column == sequences::less(screen.cursor.column as int, 1)
            &&& sequences::only_moved(screen, left)
        }),
        ({
            let home = parser.screen_after(screen, keys::key_bytes(Key::Home, free(), modes));
            &&& home.cursor.row == 0
            &&& home.cursor.column == 0
            &&& sequences::only_moved(screen, home)
        }),
{
    assert(keys::key_bytes(Key::Up, free(), modes) =~= sequences::bare(0x41));
    assert(keys::key_bytes(Key::Down, free(), modes) =~= sequences::bare(0x42));
    assert(keys::key_bytes(Key::Right, free(), modes) =~= sequences::bare(0x43));
    assert(keys::key_bytes(Key::Left, free(), modes) =~= sequences::bare(0x44));
    assert(keys::key_bytes(Key::Home, free(), modes) =~= sequences::bare(0x48));
    sequences::bare_arrows_move_by_one(parser, screen);
}

/// The keys of the editing pad and the function keys from F5 on send `ESC [`, a number
/// and `~`.
pub open spec fn is_numbered(bytes: Seq<u8>, number: int) -> bool {
    &&& bytes.len() >= 4
    &&& bytes[0] == 0x1b
    &&& bytes[1] == 0x5b
    &&& bytes.last() == 0x7e
    &&& sequences::worth(bytes.subrange(2, bytes.len() - 1)) == number
}

proof fn a_number_is_sent(number: nat, modes: Modes)
    ensures
        is_numbered(keys::tilde_bytes(number as int, free()), number as int),
        keys::tilde_bytes(number as int, free()).subrange(
            2,
            keys::tilde_bytes(number as int, free()).len() - 1,
        ) == model::digits(number),
{
    sequences::numbers_are_decimal(number);
    let bytes = keys::tilde_bytes(number as int, free());
    assert(bytes.subrange(2, bytes.len() - 1) =~= model::digits(number));
}

/// Insert is 2, Delete 3, Page Up 5 and Page Down 6; F5 is 15, F6 to F10 are 17 to 21,
/// F11 is 23 and F12 24, whatever the modes. F1 to F4 send `ESC O` and P, Q, R, S.
pub proof fn numbered_keys_send_their_number(modes: Modes)
    ensures
        is_numbered(keys::key_bytes(Key::Insert, free(), modes), 2),
        is_numbered(keys::key_bytes(Key::Delete, free(), modes), 3),
        is_numbered(keys::key_bytes(Key::PageUp, free(), modes), 5),
        is_numbered(keys::key_bytes(Key::PageDown, free(), modes), 6),
        is_numbered(keys::key_bytes(Key::Function(5), free(), modes), 15),
        forall|f: u8|
            6 <= f <= 10 ==> is_numbered(
                #[trigger] keys::key_bytes(Key::Function(f), free(), modes),
                f + 11,
            ),
        forall|f: u8|
            11 <= f <= 12 ==> is_numbered(
                #[trigger] keys::key_bytes(Key::Function(f), free(), modes),
                f + 12,
            ),
        forall|f: u8|
            1 <= f <= 4 ==> (#[trigger] keys::key_bytes(Key::Function(f), free(), modes)) == seq![
                0x1bu8,
                0x4f,
                (0x50 + (f - 1)) as u8,
            ],
        forall|f: u8|
            f == 0 || f > 12 ==> (#[trigger] keys::key_bytes(
                Key::Function(f),
                free(),
                modes,
            )).len() == 0,
{
    a_number_is_sent(2, modes);
    a_number_is_sent(3, modes);
    a_number_is_sent(5, modes);
    a_number_is_sent(6, modes);
    a_number_is_sent(15, modes);
    assert forall|f: u8| 6 <= f <= 10 implies is_numbered(
        #[trigger] keys::key_bytes(Key::Function(f), free(), modes),
        f + 11,
    ) by {
        a_number_is_sent((f + 11) as nat, modes);
    }
    assert forall|f: u8| 11 <= f <= 12 implies is_numbered(
        #[trigger] keys::key_bytes(Key::Function(f), free(), modes),
        f + 12,
    ) by {
        a_number_is_sent((f + 12) as nat, modes);
    }
}

/// Two named keys send different bytes in the same modes.
pub proof fn keys_are_told_apart(one: Key, two: Key, modes: Modes)
    requires
        is_named(one),
        is_named(two),
        keys::key_bytes(one, free(), modes) == keys::key_bytes(two, free(), modes),
    ensures
        one == two,
{
    let first = keys::key_bytes(one, free(), modes);
    if keys::tilde_number(one) is Some {
        a_number_is_sent(keys::tilde_number(one)->0 as nat, modes);
    } else {
        assert(first[2] == first.last());
        assert(first[2] != 0x7e);
    }
    let second = keys::key_bytes(two, free(), modes);
    if keys::tilde_number(two) is Some {
        a_number_is_sent(keys::tilde_number(two)->0 as nat, modes);
    } else {
        assert(second[2] == second.last());
        assert(second[2] != 0x7e);
    }
}

/// With a modifier, and in the mode for it, a key that moves the cursor still ends in
/// the byte that it ends in alone. The mode puts `O` in place of `[`; a modifier
/// is a number behind `1 ;`, one more than the sum of 1 for Shift, 2 for Alt and 4
/// for Ctrl.
pub proof fn cursor_keys_keep_their_letter(key: Key, modifiers: Modifiers, modes: Modes)
    requires
        key == Key::Up || key == Key::Down || key == Key::Right || key == Key::Left || key
            == Key::Home || key == Key::End,
    ensures
        ({
            let plain = keys::key_bytes(
                key,
                free(),
                Modes { application_cursor_keys: false, ..modes },
            );
            let bytes = keys::key_bytes(key, modifiers, modes);
            let held = modifiers.shift || modifiers.alt || modifiers.control;
            &&& plain.len() == 3 && plain[0] == 0x1b && plain[1] == 0x5b
            &&& !held && modes.application_cursor_keys ==> bytes == seq![0x1bu8, 0x4f, plain[2]]
            &&& !held && !modes.application_cursor_keys ==> bytes == plain
            &&& held ==> bytes == seq![
                0x1bu8,
                0x5b,
                0x31,
                0x3b,
                (0x31 + (if modifiers.shift {
                    1int
                } else {
                    0
                }) + (if modifiers.alt {
                    2int
                } else {
                    0
                }) + (if modifiers.control {
                    4int
                } else {
                    0
                })) as u8,
                plain[2],
            ]
        }),
        keys::key_bytes(
            Key::End,
            free(),
            Modes { application_cursor_keys: false, ..modes },
        ) == seq![0x1bu8, 0x5b, 0x46],
{
    let plain = keys::key_bytes(key, free(), Modes { application_cursor_keys: false, ..modes });
    let bytes = keys::key_bytes(key, modifiers, modes);
    if modifiers.held() {
        let number = modifiers.number() as nat;
        assert(model::digits(number) =~= seq![(48 + number) as u8]);
        assert(bytes =~= seq![0x1bu8, 0x5b, 0x31, 0x3b, (48 + number) as u8, plain[2]]);
    }
}

/// A modifier on a key that sends a number goes behind it, and the rest stays: the
/// bytes are those of the key alone with `;` and the modifiers' digit before the
/// `~`. F1 to F4 take the form of the arrow keys.
pub proof fn numbered_keys_take_modifiers(key: Key, modifiers: Modifiers, modes: Modes)
    requires
        modifiers.shift || modifiers.alt || modifiers.control,
        is_named(key),
    ensures
        ({
            let plain = keys::key_bytes(key, free(), modes);
            let bytes = keys::key_bytes(key, modifiers, modes);
            let digit = (0x31 + (if modifiers.shift {
                1int
            } else {
                0
            }) + (if modifiers.alt {
                2int
            } else {
                0
            }) + (if modifiers.control {
                4int
            } else {
                0
            })) as u8;
            &&& plain.last() == 0x7e ==> bytes == plain.drop_last() + seq![0x3bu8, digit, 0x7e]
            &&& plain.last() != 0x7e ==> bytes == seq![
                0x1bu8,
                0x5b,
                0x31,
                0x3b,
                digit,
                plain.last(),
            ]
        }),
{
    let plain = keys::key_bytes(key, free(), modes);
    let bytes = keys::key_bytes(key, modifiers, modes);
    let number = modifiers.number() as nat;
    assert(model::digits(number) =~= seq![(48 + number) as u8]);
    if keys::tilde_number(key) is Some {
        assert(bytes =~= plain.drop_last() + seq![0x3bu8, (48 + number) as u8, 0x7e]);
    } else {
        assert(bytes =~= seq![0x1bu8, 0x5b, 0x31, 0x3b, (48 + number) as u8, plain.last()]);
    }
}

/// Alt puts an `ESC` before what the key sends without it, for every key that is
/// typed: a character, Enter, Tab without Shift, Backspace and Escape.
pub proof fn alt_is_an_escape_before(key: Key, modifiers: Modifiers, modes: Modes)
    requires
        match key {
            Key::Char(_) | Key::Enter | Key::Backspace | Key::Escape => true,
            Key::Tab => !modifiers.shift,
            _ => false,
        },
        modifiers.alt,
    ensures
        keys::key_bytes(key, modifiers, modes) == seq![0x1bu8] + keys::key_bytes(
            key,
            Modifiers { alt: false, ..modifiers },
            modes,
        ),
{
    assert(keys::key_bytes(key, modifiers, modes) =~= seq![0x1bu8] + keys::key_bytes(
        key,
        Modifiers { alt: false, ..modifiers },
        modes,
    ));
}

/// Enter sends a return, Tab a tab, Shift and Tab `ESC [ Z`, Escape an escape, and
/// Backspace DEL, or a backspace where Ctrl is held.
pub proof fn typed_keys_send_one_byte(modifiers: Modifiers, modes: Modes)
    requires
        !modifiers.alt,
    ensures
        keys::key_bytes(Key::Enter, modifiers, modes) == seq![0x0du8],
        keys::key_bytes(Key::Escape, modifiers, modes) == seq![0x1bu8],
        modifiers.shift ==> keys::key_bytes(Key::Tab, modifiers, modes) == seq![
            0x1bu8,
            0x5b,
            0x5a,
        ],
        !modifiers.shift ==> keys::key_bytes(Key::Tab, modifiers, modes) == seq![0x09u8],
        modifiers.control ==> keys::key_bytes(Key::Backspace, modifiers, modes) == seq![0x08u8],
        !modifiers.control ==> keys::key_bytes(Key::Backspace, modifiers, modes) == seq![0x7fu8],
{
}

/// A character sends itself as UTF-8. With Ctrl, the letters and their neighbours
/// from `@` to `_` send the last five bits of their code, a capital what its small
/// letter does; a blank sends what `@` does, `/` what `_` does, and `?` DEL.
/// Any other character is sent as though Ctrl were not held.
pub proof fn control_keeps_five_bits(text: char, modifiers: Modifiers, modes: Modes)
    requires
        !modifiers.alt,
    ensures
        ({
            let code = text as u32;
            let bytes = keys::key_bytes(Key::Char(text), modifiers, modes);
            &&& !modifiers.control ==> bytes == utf8::encode_utf8(seq![text])
            &&& modifiers.control && (0x40 <= code <= 0x5f || 0x61 <= code <= 0x7a) ==> bytes
                == seq![(code % 32) as u8]
            &&& modifiers.control && text == ' ' ==> bytes == seq![0u8]
            &&& modifiers.control && text == '/' ==> bytes == seq![0x1fu8]
            &&& modifiers.control && text == '?' ==> bytes == seq![0x7fu8]
            &&& modifiers.control && !(0x40 <= code <= 0x5f) && !(0x61 <= code <= 0x7a) && text
                != ' ' && text != '/' && text != '?' ==> bytes == utf8::encode_utf8(seq![text])
        }),
{
    let bytes = keys::key_bytes(Key::Char(text), modifiers, modes);
    assert(Seq::<u8>::empty() + utf8::encode_utf8(seq![text]) =~= utf8::encode_utf8(seq![text]));
    if let Some(byte) = keys::control_of(text) {
        assert(Seq::<u8>::empty() + seq![byte] =~= seq![byte]);
    }
}

// --- line breaks ------------------------------------------------------------------------

/// A text without a newline is sent as it is.
pub proof fn a_line_is_sent_as_it_is(text: Seq<char>)
    requires
        forall|i: int| 0 <= i < text.len() ==> #[trigger] text[i] != '\n',
    ensures
        keys::with_returns(text) == text,
    decreases text.len(),
{
    if text.len() > 0 {
        let rest = text.skip(1);
        assert forall|i: int| 0 <= i < rest.len() implies #[trigger] rest[i] != '\n' by {
            assert(rest[i] == text[i + 1]);
        }
        a_line_is_sent_as_it_is(rest);
        assert(seq![text[0]] + rest =~= text);
        if text.len() >= 2 {
            assert(text[1] != '\n');
        }
    }
}

/// Whether a break is written as a return and a newline or as a newline alone, one
/// return is sent for it, and what is before and behind it is sent as it would be
/// alone.
pub proof fn a_break_is_one_return(before: Seq<char>, after: Seq<char>)
    ensures
        keys::with_returns(before + seq!['\r', '\n'] + after) == keys::with_returns(before)
            + seq!['\r'] + keys::with_returns(after),
        before.len() == 0 || before.last() != '\r' ==> keys::with_returns(
            before + seq!['\n'] + after,
        ) == keys::with_returns(before) + seq!['\r'] + keys::with_returns(after),
    decreases before.len(),
{
    let both = before + seq!['\r', '\n'] + after;
    let one = before + seq!['\n'] + after;
    let ends = keys::with_returns(after);
    if before.len() == 0 {
        assert(both.skip(2) =~= after);
        assert(one.skip(1) =~= after);
        assert(keys::with_returns(before) + seq!['\r'] + ends =~= seq!['\r'] + ends);
    } else if before.len() >= 2 && before[0] == '\r' && before[1] == '\n' {
        let rest = before.skip(2);
        a_break_is_one_return(rest, after);
        assert(both.skip(2) =~= rest + seq!['\r', '\n'] + after);
        assert(one.skip(2) =~= rest + seq!['\n'] + after);
        let sent = keys::with_returns(rest);
        assert(seq!['\r'] + (sent + seq!['\r'] + ends) =~= (seq!['\r'] + sent) + seq!['\r'] + ends);
    } else {
        let rest = before.skip(1);
        a_break_is_one_return(rest, after);
        assert(both.skip(1) =~= rest + seq!['\r', '\n'] + after);
        assert(one.skip(1) =~= rest + seq!['\n'] + after);
        let sent = keys::with_returns(rest);
        let first = if before[0] == '\n' {
            '\r'
        } else {
            before[0]
        };
        assert(seq![first] + (sent + seq!['\r'] + ends) =~= (seq![first] + sent) + seq!['\r']
            + ends);
        assert(both[0] == before[0] && one[0] == before[0]);
        if before.len() >= 2 {
            assert(both[1] == before[1] && one[1] == before[1]);
        }
    }
}

/// No newline is ever sent: the shell turns the return into one.
pub proof fn no_newline_is_sent(text: Seq<char>)
    ensures
        forall|i: int|
            0 <= i < keys::with_returns(text).len() ==> #[trigger] keys::with_returns(text)[i]
                != '\n',
    decreases text.len(),
{
    if text.len() > 0 {
        no_newline_is_sent(text.skip(1));
        if text.len() >= 2 {
            no_newline_is_sent(text.skip(2));
        }
        let both = text.len() >= 2 && text[0] == '\r' && text[1] == '\n';
        let rest = keys::with_returns(
            if both {
                text.skip(2)
            } else {
                text.skip(1)
            },
        );
        let all = keys::with_returns(text);
        assert forall|i: int| 0 <= i < all.len() implies #[trigger] all[i] != '\n' by {
            if i > 0 {
                assert(all[i] == rest[i - 1]);
            }
        }
    }
}

/// A pasted text goes between `ESC [ 200 ~` and `ESC [ 201 ~` where the shell asked for
/// it.
pub proof fn a_paste_is_marked(text: Seq<char>)
    ensures
        ({
            let typed = utf8::encode_utf8(keys::with_returns(text));
            keys::paste_start() + typed + keys::paste_end() == seq![
                0x1bu8,
                0x5b,
                0x32,
                0x30,
                0x30,
                0x7e,
            ] + typed + seq![0x1bu8, 0x5b, 0x32, 0x30, 0x31, 0x7e]
        }),
{
}

} // verus!
