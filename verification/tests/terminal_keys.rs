//! What is sent to a shell for a key, and for text.
use rfn_edit::terminal::{encode_key, encode_paste, encode_typing, Key, Modes, Modifiers};

fn modes() -> Modes {
    Modes::default()
}

#[test]
fn a_letter_is_itself_and_ctrl_makes_it_a_control_code() {
    assert_eq!(encode_key(Key::Char('a'), Modifiers::none(), modes()), b"a");
    assert_eq!(
        encode_key(Key::Char('c'), Modifiers::control(), modes()),
        vec![0x03],
        "Ctrl+C is the interrupt, and it is one byte"
    );
    assert_eq!(
        encode_key(Key::Char('C'), Modifiers::control(), modes()),
        vec![0x03],
        "the shift key does not change which control code it is"
    );
}

#[test]
fn alt_is_an_escape_in_front() {
    let alt = Modifiers {
        alt: true,
        ..Modifiers::none()
    };
    assert_eq!(encode_key(Key::Char('f'), alt, modes()), b"\x1bf");
}

#[test]
fn a_japanese_character_goes_as_the_utf8_it_is() {
    assert_eq!(
        encode_key(Key::Char('あ'), Modifiers::none(), modes()),
        "あ".as_bytes()
    );
}

#[test]
fn return_sends_a_carriage_return_and_not_a_newline() {
    assert_eq!(encode_key(Key::Enter, Modifiers::none(), modes()), b"\r");
}

#[test]
fn the_arrows_change_shape_when_the_shell_asks_them_to() {
    let mut modes = modes();
    assert_eq!(encode_key(Key::Up, Modifiers::none(), modes), b"\x1b[A");
    modes.application_cursor_keys = true;
    assert_eq!(
        encode_key(Key::Up, Modifiers::none(), modes),
        b"\x1bOA",
        "`ESC[?1h` — and a shell's line editor reads only this form"
    );
    let control = Modifiers::control();
    assert_eq!(
        encode_key(Key::Right, control, modes),
        b"\x1b[1;5C",
        "with a modifier there is a number to carry, so it is CSI either way"
    );
}

#[test]
fn the_keys_above_the_arrows_keep_their_old_numbers() {
    assert_eq!(
        encode_key(Key::PageUp, Modifiers::none(), modes()),
        b"\x1b[5~"
    );
    assert_eq!(
        encode_key(Key::Delete, Modifiers::none(), modes()),
        b"\x1b[3~"
    );
    assert_eq!(
        encode_key(Key::Function(1), Modifiers::none(), modes()),
        b"\x1bOP"
    );
    assert_eq!(
        encode_key(Key::Function(5), Modifiers::none(), modes()),
        b"\x1b[15~",
        "F5 is 15, not 16 — the numbers were never contiguous"
    );
    assert_eq!(
        encode_key(Key::Function(12), Modifiers::none(), modes()),
        b"\x1b[24~"
    );
}

#[test]
fn shift_and_tab_is_a_key_of_its_own() {
    let shift = Modifiers {
        shift: true,
        ..Modifiers::none()
    };
    assert_eq!(encode_key(Key::Tab, shift, modes()), b"\x1b[Z");
}

#[test]
fn backspace_sends_delete() {
    assert_eq!(
        encode_key(Key::Backspace, Modifiers::none(), modes()),
        vec![0x7f]
    );
}

#[test]
fn a_paste_is_wrapped_only_while_the_shell_is_reading_it_that_way() {
    let mut modes = modes();
    assert_eq!(
        encode_paste("ls\nls\n", modes),
        b"ls\rls\r".to_vec(),
        "without the markers a pasted newline runs the command"
    );
    modes.bracketed_paste = true;
    assert_eq!(
        encode_paste("ls\r\nls", modes),
        b"\x1b[200~ls\rls\x1b[201~".to_vec()
    );
}

#[test]
fn what_is_typed_over_carries_no_paste_markers() {
    let mut modes = modes();
    modes.bracketed_paste = true;
    assert_eq!(encode_typing("ls\n"), b"ls\r".to_vec());
    assert_ne!(
        encode_typing("ls\n"),
        encode_paste("ls\n", modes),
        "貼り付けは抱えさせ、打鍵は走らせる"
    );
}
