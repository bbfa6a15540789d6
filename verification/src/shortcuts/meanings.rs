//! What keys are called, and what the commands behind them do.
use crate::lines;
use crate::shortcuts::actions;
use crate::shortcuts::bindings::{self, KeyAct};
use crate::shortcuts::keys;
use crate::shortcuts::spelling::{self, Held};
use crate::text;
use vstd::prelude::*;

verus! {

/// The arrow keys, as the window reports them, are called by where they point.
pub proof fn arrows_are_called_by_where_they_point()
    ensures
        spelling::key_named(seq![0xf700u32 as char]) == Some("Up"@),
        spelling::key_named(seq![0xf701u32 as char]) == Some("Down"@),
        spelling::key_named(seq![0xf702u32 as char]) == Some("Left"@),
        spelling::key_named(seq![0xf703u32 as char]) == Some("Right"@),
        spelling::key_named(seq!['\t']) == Some("Tab"@),
{
    reveal_with_fuel(keys::named_key, 7);
    assert(seq![0xf700u32 as char][0] == keys::key_char(10));
    assert(seq![0xf700u32 as char] != seq![keys::key_char(9)]) by {
        assert(seq![0xf700u32 as char][0] != seq![keys::key_char(9)][0]);
    }
    let one = seq![0xf701u32 as char];
    assert(one[0] != seq![keys::key_char(9)][0]);
    assert(one[0] != seq![keys::key_char(10)][0]);
    assert(one =~= seq![keys::key_char(11)]);
    let two = seq![0xf702u32 as char];
    assert(two[0] != seq![keys::key_char(9)][0]);
    assert(two[0] != seq![keys::key_char(10)][0]);
    assert(two[0] != seq![keys::key_char(11)][0]);
    assert(two =~= seq![keys::key_char(12)]);
    let three = seq![0xf703u32 as char];
    assert(three[0] != seq![keys::key_char(9)][0]);
    assert(three[0] != seq![keys::key_char(10)][0]);
    assert(three[0] != seq![keys::key_char(11)][0]);
    assert(three[0] != seq![keys::key_char(12)][0]);
    assert(three =~= seq![keys::key_char(13)]);
    assert(seq![0xf700u32 as char] =~= seq![keys::key_char(10)]);
    assert(seq!['\t'] =~= seq![keys::key_char(9)]);
}

/// A digit or a Latin letter is called by its capital, whatever else is held; a blank is
/// Space.
pub proof fn letters_are_called_by_their_capitals(c: char)
    requires
        '0' <= c <= '9' || 'a' <= c <= 'z' || 'A' <= c <= 'Z' || c == ' ',
    ensures
        'A' <= c <= 'Z' || '0' <= c <= '9' ==> spelling::key_named(seq![c]) == Some(seq![c]),
        'a' <= c <= 'z' ==> spelling::key_named(seq![c]) == Some(seq![(c as u32 - 32) as char]),
        c == ' ' ==> spelling::key_named(seq![c]) == Some("Space"@),
{
    named_keys_are_no_letters(seq![c], 9, 14);
    named_keys_are_no_letters(seq![c], 14, 26);
}

proof fn named_keys_are_no_letters(text: Seq<char>, from: int, to: int)
    requires
        text.len() == 1,
        ' ' <= text[0] <= 'z',
        9 <= from <= to <= 26,
    ensures
        keys::named_key(text, from, to) is None,
    decreases to - from,
{
    if from < to {
        named_keys_are_no_letters(text, from + 1, to);
        assert(text[0] != seq![keys::key_char(from)][0]);
    }
}

/// A key that is pressed with Ctrl or Alt is spelled with them before its name: Ctrl, then
/// Alt, then Shift. Alone, or with Shift alone, only a function key is heard.
pub proof fn a_pressed_key_is_spelled(text: Seq<char>, held: Held)
    requires
        spelling::key_named(text) is Some,
    ensures
        ({
            let key = spelling::key_named(text)->0;
            let heard = spelling::pressed(text, held);
            &&& held.control && !held.alt && !held.shift ==> heard == Some("Ctrl+"@ + key)
            &&& !held.control && held.alt && !held.shift ==> heard == Some("Alt+"@ + key)
            &&& held.control && held.alt && !held.shift ==> heard == Some("Ctrl+"@ + ("Alt+"@ + key))
            &&& held.control && !held.alt && held.shift ==> heard == Some(
                "Ctrl+"@ + ("Shift+"@ + key),
            )
            &&& !held.control && held.alt && held.shift ==> heard == Some(
                "Alt+"@ + ("Shift+"@ + key),
            )
            &&& held.control && held.alt && held.shift ==> heard == Some(
                "Ctrl+"@ + ("Alt+"@ + ("Shift+"@ + key)),
            )
            &&& !held.control && !held.alt ==> (heard is Some <==> spelling::is_function_name(key))
            &&& !held.control && !held.alt && held.shift && heard is Some ==> heard == Some(
                "Shift+"@ + key,
            )
            &&& !held.control && !held.alt && !held.shift && heard is Some ==> heard == Some(key)
        }),
{
    reveal_strlit("");
    let key = spelling::key_named(text)->0;
    let whole = spelling::spelt(held, key);
    if held.control && held.alt && held.shift {
        assert(whole =~= "Ctrl+"@ + ("Alt+"@ + ("Shift+"@ + key)));
    } else if held.control && held.alt {
        assert(whole =~= "Ctrl+"@ + ("Alt+"@ + key));
    } else if held.control && held.shift {
        assert(whole =~= "Ctrl+"@ + ("Shift+"@ + key));
    } else if held.alt && held.shift {
        assert(whole =~= "Alt+"@ + ("Shift+"@ + key));
    } else if held.control {
        assert(whole =~= "Ctrl+"@ + key);
    } else if held.alt {
        assert(whole =~= "Alt+"@ + key);
    } else if held.shift {
        assert(whole =~= "Shift+"@ + key);
    } else {
        assert(whole =~= key);
    }
}

/// The commands of a text do what their first keys are known for: Ctrl+O opens, Ctrl+S
/// saves, with Shift under a new name, Ctrl+W closes, Ctrl+F finds and Ctrl+H replaces,
/// Ctrl+G goes to a line, Ctrl+Z takes back and Ctrl+Y does again.
pub proof fn commands_do_what_their_keys_say(below: bool, viewer: bool, reads_only: bool)
    ensures
        actions::first_key(0)@ == "Ctrl+O"@ && bindings::act_of(0, below, viewer, reads_only)
            == KeyAct::OpenFile,
        actions::first_key(1)@ == "Ctrl+S"@ && bindings::act_of(1, below, viewer, reads_only)
            == KeyAct::Save,
        actions::first_key(2)@ == "Ctrl+Shift+S"@ && bindings::act_of(2, below, viewer, reads_only)
            == KeyAct::SaveAs,
        actions::first_key(3)@ == "Ctrl+W"@ && bindings::act_of(3, below, viewer, reads_only)
            == KeyAct::CloseTab,
        actions::first_key(4)@ == "Ctrl+F"@ && bindings::act_of(4, below, viewer, reads_only) == (
        KeyAct::Find { replace: false }),
        actions::first_key(5)@ == "Ctrl+H"@ && bindings::act_of(5, below, viewer, reads_only) == (
        KeyAct::Find { replace: true }),
        actions::first_key(6)@ == "Ctrl+G"@ && bindings::act_of(6, below, viewer, reads_only)
            == KeyAct::GoToLine,
        actions::first_key(7)@ == "Ctrl+Shift+T"@ && bindings::act_of(7, below, viewer, reads_only)
            == KeyAct::ReopenTab,
        actions::first_key(8)@ == "Ctrl+Z"@ && bindings::act_of(8, below, viewer, reads_only) == (
        KeyAct::Undo { redo: false }),
        actions::first_key(9)@ == "Ctrl+Y"@ && bindings::act_of(9, below, viewer, reads_only) == (
        KeyAct::Undo { redo: true }),
        actions::first_key(11)@ == "Ctrl+Tab"@ && bindings::act_of(11, below, viewer, reads_only)
            == (KeyAct::StepTab { back: false }),
        actions::first_key(12)@ == "Ctrl+Shift+Tab"@ && bindings::act_of(
            12,
            below,
            viewer,
            reads_only,
        ) == (KeyAct::StepTab { back: true }),
        actions::first_key(45)@ == "Ctrl+P"@ && bindings::act_of(45, below, viewer, reads_only)
            == KeyAct::Print,
        bindings::act_of(10, below, viewer, reads_only) == KeyAct::QuickDraft,
        actions::first_key(17)@ == "Ctrl+`"@ && bindings::act_of(17, below, viewer, reads_only)
            == KeyAct::ToggleBelow,
        bindings::act_of(42, below, viewer, reads_only) == KeyAct::ToggleDirection,
        bindings::act_of(44, below, viewer, reads_only) == KeyAct::ToggleViewer,
        bindings::act_of(43, below, viewer, reads_only) == (KeyAct::TogglePreview {
            leave_viewer: viewer && !reads_only,
        }),
{
}

/// The commands that move go the way their first keys point: panes by Ctrl, Alt and an
/// arrow, back and forward by Alt and an arrow, words by Alt with F and B, and lines by Alt
/// with an arrow, doubled with Shift. Down goes into the strip below, where one is
/// open.
pub proof fn moves_go_where_their_keys_point(below: bool, viewer: bool, reads_only: bool)
    ensures
        actions::first_key(13)@ == "Ctrl+Alt+Left"@ && bindings::act_of(
            13,
            below,
            viewer,
            reads_only,
        ) == KeyAct::MovePane(0),
        actions::first_key(14)@ == "Ctrl+Alt+Right"@ && bindings::act_of(
            14,
            below,
            viewer,
            reads_only,
        ) == KeyAct::MovePane(1),
        actions::first_key(15)@ == "Ctrl+Alt+Up"@ && bindings::act_of(15, below, viewer, reads_only)
            == KeyAct::MovePane(2),
        actions::first_key(16)@ == "Ctrl+Alt+Down"@ && bindings::act_of(
            16,
            below,
            viewer,
            reads_only,
        ) == if below {
            KeyAct::FocusBelow
        } else {
            KeyAct::MovePane(3)
        },
        actions::first_key(19)@ == "Alt+Left"@ && bindings::act_of(19, below, viewer, reads_only)
            == (KeyAct::Navigate { forward: false }),
        actions::first_key(20)@ == "Alt+Right"@ && bindings::act_of(20, below, viewer, reads_only)
            == (KeyAct::Navigate { forward: true }),
        actions::first_key(21)@ == "Ctrl+D"@ && bindings::act_of(21, below, viewer, reads_only)
            == KeyAct::Delete,
        actions::first_key(22)@ == "Alt+F"@ && bindings::act_of(22, below, viewer, reads_only) == (
        KeyAct::Move { step: 3, select: false }),
        actions::first_key(23)@ == "Alt+B"@ && bindings::act_of(23, below, viewer, reads_only) == (
        KeyAct::Move { step: (-3) as i8, select: false }),
        actions::first_key(31)@ == "Alt+Shift+F"@ && bindings::act_of(31, below, viewer, reads_only)
            == (KeyAct::Move { step: 3, select: true }),
        actions::first_key(32)@ == "Alt+Shift+B"@ && bindings::act_of(32, below, viewer, reads_only)
            == (KeyAct::Move { step: (-3) as i8, select: true }),
        actions::first_key(33)@ == "Ctrl+Shift+K"@ && bindings::act_of(
            33,
            below,
            viewer,
            reads_only,
        ) == KeyAct::LineEdit(4),
        actions::first_key(34)@ == "Alt+Up"@ && bindings::act_of(34, below, viewer, reads_only)
            == KeyAct::LineEdit(0),
        actions::first_key(35)@ == "Alt+Down"@ && bindings::act_of(35, below, viewer, reads_only)
            == KeyAct::LineEdit(1),
        actions::first_key(36)@ == "Alt+Shift+Up"@ && bindings::act_of(
            36,
            below,
            viewer,
            reads_only,
        ) == KeyAct::LineEdit(2),
        actions::first_key(37)@ == "Alt+Shift+Down"@ && bindings::act_of(
            37,
            below,
            viewer,
            reads_only,
        ) == KeyAct::LineEdit(3),
        actions::first_key(24)@ == "Ctrl+K"@ && bindings::act_of(24, below, viewer, reads_only)
            == KeyAct::Kill(0),
        actions::first_key(25)@ == "Ctrl+Space"@ && bindings::act_of(25, below, viewer, reads_only)
            == (KeyAct::Mark { rectangle: false }),
        actions::first_key(26)@ == "Ctrl+Shift+Space"@ && bindings::act_of(
            26,
            below,
            viewer,
            reads_only,
        ) == (KeyAct::Mark { rectangle: true }),
        actions::first_key(27)@ == "Alt+W"@ && bindings::act_of(27, below, viewer, reads_only)
            == KeyAct::Kill(1),
        actions::first_key(28)@ == "Alt+X"@ && bindings::act_of(28, below, viewer, reads_only)
            == KeyAct::Kill(2),
        actions::first_key(29)@ == "Alt+Y"@ && bindings::act_of(29, below, viewer, reads_only)
            == KeyAct::Kill(3),
        actions::first_key(30)@ == "Alt+Shift+Y"@ && bindings::act_of(30, below, viewer, reads_only)
            == KeyAct::Kill(4),
{
}

/// A key clashes exactly where another action that is heard in the same place has it, and
/// the first of those is named.
pub proof fn a_clash_names_the_other(held: Seq<Seq<char>>, i: int, key: Seq<char>, n: int)
    requires
        0 <= n <= held.len(),
    ensures
        match bindings::clash_among(held, i, key, n) {
            Some(other) => 0 <= other < n && other != i && held[other] == key && key.len() > 0
                && actions::heard_in(other as usize) == actions::heard_in(i as usize) && forall|
                j: int,
            |
                0 <= j < other && j != i && actions::heard_in(j as usize) == actions::heard_in(
                    i as usize,
                ) ==> #[trigger] held[j] != key,
            None => key.len() == 0 || forall|j: int|
                0 <= j < n && j != i && actions::heard_in(j as usize) == actions::heard_in(
                    i as usize,
                ) ==> #[trigger] held[j] != key,
        },
    decreases n,
{
    if n > 0 {
        a_clash_names_the_other(held, i, key, n - 1);
    }
}

// --- keys that are typed -------------------------------------------------------------------

/// The names of modifiers may stand in any order, but none twice, and nothing else among
/// them.
pub proof fn modifiers_stand_in_any_order(one: Seq<char>, two: Seq<char>)
    ensures
        spelling::modifiers_in(seq![one, two], 2) == spelling::modifiers_in(seq![two, one], 2),
        spelling::modifiers_in(seq![one, one], 2) is None,
        one != "CTRL"@ && one != "ALT"@ && one != "SHIFT"@ ==> spelling::modifiers_in(
            seq![one, two],
            2,
        ) is None,
        spelling::modifiers_in(seq!["CTRL"@], 1) == Some(
            Held { control: true, alt: false, shift: false },
        ),
        spelling::modifiers_in(seq!["ALT"@], 1) == Some(
            Held { control: false, alt: true, shift: false },
        ),
        spelling::modifiers_in(seq!["SHIFT"@], 1) == Some(
            Held { control: false, alt: false, shift: true },
        ),
{
    reveal_with_fuel(spelling::modifiers_in, 4);
    the_names_differ();
    assert(seq![one, two][0] == one && seq![one, two][1] == two);
    assert(seq![two, one][0] == two && seq![two, one][1] == one);
    assert(seq![one, one][0] == one && seq![one, one][1] == one);
}

proof fn the_names_differ()
    ensures
        "CTRL"@ != "ALT"@,
        "ALT"@ != "SHIFT"@,
        "CTRL"@ != "SHIFT"@,
{
    reveal_strlit("CTRL");
    reveal_strlit("ALT");
    reveal_strlit("SHIFT");
    assert("CTRL"@.len() == 4 && "ALT"@.len() == 3 && "SHIFT"@.len() == 5);
}

proof fn space_has_no_case(c: char)
    ensures
        text::is_space(keys::capital(c)) == text::is_space(c),
        keys::capital(keys::capital(c)) == keys::capital(c),
{
}

proof fn trimming_sees_no_case(value: Seq<char>, from: int, to: int)
    requires
        0 <= from <= to <= value.len(),
    ensures
        text::skip_space(keys::capitals(value), from, to) == text::skip_space(value, from, to),
        text::back_space(keys::capitals(value), from, to) == text::back_space(value, from, to),
        from <= text::skip_space(value, from, to) <= to,
        from <= text::back_space(value, from, to) <= to,
    decreases to - from,
{
    if from < to {
        space_has_no_case(value[from]);
        space_has_no_case(value[to - 1]);
        trimming_sees_no_case(value, from + 1, to);
        trimming_sees_no_case(value, from, to - 1);
    }
}

/// It makes no difference in which case a key is typed.
pub proof fn case_makes_no_difference(value: Seq<char>)
    ensures
        value.len() > 0 ==> spelling::normalized(keys::capitals(value)) == spelling::normalized(
            value,
        ),
{
    let upper = keys::capitals(value);
    let n = value.len() as int;
    trimming_sees_no_case(value, 0, n);
    trimming_sees_no_case(value, text::skip_space(value, 0, n), n);
    let one = lines::trim(value);
    let two = lines::trim(upper);
    assert(keys::capitals(two) =~= keys::capitals(one)) by {
        let (start, end) = text::trimmed(value, 0, n);
        assert(two.len() == one.len());
        assert forall|k: int| 0 <= k < one.len() implies keys::capitals(two)[k] == keys::capitals(
            one,
        )[k] by {
            assert(two[k] == upper[start + k]);
            assert(one[k] == value[start + k]);
            space_has_no_case(value[start + k]);
        }
    }
}

/// A key that is accepted is with Ctrl or Alt or is a function key, and is none that plain
/// editing or the window takes.
pub proof fn an_accepted_key_is_free(value: Seq<char>)
    requires
        value.len() > 0,
        spelling::normalized(value) is Some,
    ensures
        ({
            let key = spelling::normalized(value)->0;
            &&& key != "Ctrl+C"@
            &&& key != "Ctrl+X"@
            &&& key != "Ctrl+V"@
            &&& key != "Ctrl+A"@
            &&& key != "Ctrl+Shift+C"@
            &&& key != "Alt+Tab"@
            &&& key != "Alt+Shift+Tab"@
            &&& key != "Alt+F4"@
            &&& key != "Alt+Space"@
            &&& key != "F3"@
            &&& key != "Shift+F3"@
            &&& exists|held: Held, name: Seq<char>|
                #![trigger spelling::spelt(held, name)]
                key == spelling::spelt(held, name) && (held.control || held.alt
                    || spelling::is_function_name(name))
        }),
{
    let words = lines::split(keys::capitals(lines::trim(value)), '+');
    let name = spelling::key_spelt(words.last())->0;
    let held = spelling::modifiers_in(words, words.len() - 1)->0;
    assert(spelling::normalized(value) == Some(spelling::spelt(held, name)));
}

} // verus!
