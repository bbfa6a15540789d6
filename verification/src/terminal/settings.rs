//! What the sequences that set something or ask for something come to.
use crate::terminal::cell::{Attrs, Color};
use crate::terminal::laws;
use crate::terminal::model::{self, ScreenModel};
use crate::terminal::sequences;
use crate::terminal::stream::{self, ParserModel, State};
use vstd::prelude::*;
use vstd::utf8;

verus! {

// --- the pen ------------------------------------------------------------------------------

/// The pen after `CSI n m`.
pub open spec fn pen_after(parser: ParserModel, screen: ScreenModel, n: u16) -> Attrs {
    parser.screen_after(screen, sequences::asking(n, 0x6d)).pen
}

/// All but the flags of two pens agree.
pub open spec fn same_colours(one: Attrs, two: Attrs) -> bool {
    one.foreground == two.foreground && one.background == two.background
}

/// All flags of two pens agree.
pub open spec fn same_flags(one: Attrs, two: Attrs) -> bool {
    &&& one.bold == two.bold
    &&& one.faint == two.faint
    &&& one.italic == two.italic
    &&& one.underline == two.underline
    &&& one.blink == two.blink
    &&& one.reverse == two.reverse
    &&& one.hidden == two.hidden
    &&& one.struck == two.struck
}

#[verifier::spinoff_prover]
proof fn the_pen_is_set(parser: ParserModel, screen: ScreenModel, n: u16)
    requires
        parser.state == State::Ground,
        n != 38,
        n != 48,
    ensures
        parser.screen_after(screen, sequences::asking(n, 0x6d)) == (ScreenModel {
            pen: model::attribute(screen.pen, n),
            ..screen
        }),
{
    reveal(stream::setting);
    sequences::a_sequence_is_read(parser, screen, n, 0x6d);
    let groups = seq![seq![n]];
    assert(model::first_of(groups[0]) == n);
    reveal_with_fuel(model::rendition, 2);
}

/// `CSI 1 m` to `CSI 9 m` turn on bold, faint, italic, underline, blink (twice), reverse,
/// hidden and struck, and nothing else.
#[verifier::spinoff_prover]
pub proof fn flags_are_turned_on(parser: ParserModel, screen: ScreenModel)
    requires
        parser.state == State::Ground,
    ensures
        pen_after(parser, screen, 1) == (Attrs { bold: true, ..screen.pen }),
        pen_after(parser, screen, 2) == (Attrs { faint: true, ..screen.pen }),
        pen_after(parser, screen, 3) == (Attrs { italic: true, ..screen.pen }),
        pen_after(parser, screen, 4) == (Attrs { underline: true, ..screen.pen }),
        pen_after(parser, screen, 5) == (Attrs { blink: true, ..screen.pen }),
        pen_after(parser, screen, 6) == (Attrs { blink: true, ..screen.pen }),
        pen_after(parser, screen, 7) == (Attrs { reverse: true, ..screen.pen }),
        pen_after(parser, screen, 8) == (Attrs { hidden: true, ..screen.pen }),
        pen_after(parser, screen, 9) == (Attrs { struck: true, ..screen.pen }),
{
    the_pen_is_set(parser, screen, 1);
    the_pen_is_set(parser, screen, 2);
    the_pen_is_set(parser, screen, 3);
    the_pen_is_set(parser, screen, 4);
    the_pen_is_set(parser, screen, 5);
    the_pen_is_set(parser, screen, 6);
    the_pen_is_set(parser, screen, 7);
    the_pen_is_set(parser, screen, 8);
    the_pen_is_set(parser, screen, 9);
}

/// `CSI 21 m` to `CSI 29 m` turn them off again, bold and faint together.
#[verifier::spinoff_prover]
pub proof fn flags_are_turned_off(parser: ParserModel, screen: ScreenModel)
    requires
        parser.state == State::Ground,
    ensures
        pen_after(parser, screen, 21) == (Attrs { bold: false, faint: false, ..screen.pen }),
        pen_after(parser, screen, 22) == (Attrs { bold: false, faint: false, ..screen.pen }),
        pen_after(parser, screen, 23) == (Attrs { italic: false, ..screen.pen }),
        pen_after(parser, screen, 24) == (Attrs { underline: false, ..screen.pen }),
        pen_after(parser, screen, 25) == (Attrs { blink: false, ..screen.pen }),
        pen_after(parser, screen, 27) == (Attrs { reverse: false, ..screen.pen }),
        pen_after(parser, screen, 28) == (Attrs { hidden: false, ..screen.pen }),
        pen_after(parser, screen, 29) == (Attrs { struck: false, ..screen.pen }),
{
    the_pen_is_set(parser, screen, 21);
    the_pen_is_set(parser, screen, 22);
    the_pen_is_set(parser, screen, 23);
    the_pen_is_set(parser, screen, 24);
    the_pen_is_set(parser, screen, 25);
    the_pen_is_set(parser, screen, 27);
    the_pen_is_set(parser, screen, 28);
    the_pen_is_set(parser, screen, 29);
}

/// The eight colours of the palette are `CSI 30 m` to `CSI 37 m` in the foreground and 40
/// to 47 behind, the eight bright ones 90 to 97 and 100 to 107; 39 and 49 are the
/// terminal's own.
#[verifier::spinoff_prover]
pub proof fn colours_have_their_numbers(parser: ParserModel, screen: ScreenModel, k: u16)
    requires
        parser.state == State::Ground,
        k < 8,
    ensures
        pen_after(parser, screen, (30 + k) as u16).foreground == Color::Indexed(k as u8),
        pen_after(parser, screen, (90 + k) as u16).foreground == Color::Indexed((8 + k) as u8),
        pen_after(parser, screen, (40 + k) as u16).background == Color::Indexed(k as u8),
        pen_after(parser, screen, (100 + k) as u16).background == Color::Indexed((8 + k) as u8),
        pen_after(parser, screen, 39).foreground == Color::Default,
        pen_after(parser, screen, 49).background == Color::Default,
        pen_after(parser, screen, (30 + k) as u16).background == screen.pen.background,
        pen_after(parser, screen, (90 + k) as u16).background == screen.pen.background,
        pen_after(parser, screen, (40 + k) as u16).foreground == screen.pen.foreground,
        pen_after(parser, screen, (100 + k) as u16).foreground == screen.pen.foreground,
        pen_after(parser, screen, 39).background == screen.pen.background,
        pen_after(parser, screen, 49).foreground == screen.pen.foreground,
        same_flags(pen_after(parser, screen, (30 + k) as u16), screen.pen),
        same_flags(pen_after(parser, screen, (40 + k) as u16), screen.pen),
        same_flags(pen_after(parser, screen, (90 + k) as u16), screen.pen),
        same_flags(pen_after(parser, screen, (100 + k) as u16), screen.pen),
        same_flags(pen_after(parser, screen, 39), screen.pen),
        same_flags(pen_after(parser, screen, 49), screen.pen),
{
    the_pen_is_set(parser, screen, (30 + k) as u16);
    the_pen_is_set(parser, screen, (90 + k) as u16);
    the_pen_is_set(parser, screen, (40 + k) as u16);
    the_pen_is_set(parser, screen, (100 + k) as u16);
    the_pen_is_set(parser, screen, 39);
    the_pen_is_set(parser, screen, 49);
}

/// `CSI m` and `CSI 0 m` take everything back, and a graphic rendition changes nothing but
/// the pen.
#[verifier::spinoff_prover]
pub proof fn a_pen_is_taken_back(parser: ParserModel, screen: ScreenModel)
    requires
        parser.state == State::Ground,
    ensures
        ({
            let plain = pen_after(parser, screen, 0);
            &&& plain.foreground == Color::Default
            &&& plain.background == Color::Default
            &&& !plain.bold && !plain.faint && !plain.italic && !plain.underline
            &&& !plain.blink && !plain.reverse && !plain.hidden && !plain.struck
            &&& parser.screen_after(screen, sequences::bare(0x6d)).pen == plain
            &&& parser.screen_after(screen, sequences::bare(0x6d)) == (ScreenModel {
                pen: plain,
                ..screen
            })
        }),
{
    reveal(stream::setting);
    the_pen_is_set(parser, screen, 0);
    sequences::a_bare_sequence_is_read(parser, screen, 0x6d);
}

/// Two attributes in one sequence are one behind the other.
#[verifier::spinoff_prover]
pub proof fn attributes_follow_one_another(
    parser: ParserModel,
    screen: ScreenModel,
    one: u16,
    two: u16,
)
    requires
        parser.state == State::Ground,
        one != 38,
        one != 48,
        two != 38,
        two != 48,
    ensures
        parser.screen_after(screen, sequences::asking_two(one, two, 0x6d)).pen == pen_after(
            parser,
            parser.screen_after(screen, sequences::asking(one, 0x6d)),
            two,
        ),
{
    reveal(stream::setting);
    the_pen_is_set(parser, screen, one);
    the_pen_is_set(parser, parser.screen_after(screen, sequences::asking(one, 0x6d)), two);
    sequences::a_sequence_of_two_is_read(parser, screen, one, two, 0x6d);
    let groups = seq![seq![one], seq![two]];
    assert(model::first_of(groups[0]) == one);
    assert(model::first_of(groups[1]) == two);
    reveal_with_fuel(model::rendition, 3);
}

/// `38 ; 5 ; n` is the colour `n` of the palette in the foreground and `48 ; 5 ; n` behind;
/// `38 ; 2 ; r ; g ; b` and `48 ; 2 ; r ; g ; b` are the colour of these parts. What is
/// behind them goes on as it would alone.
#[verifier::spinoff_prover]
pub proof fn extended_colours_are_read(
    screen: ScreenModel,
    n: u8,
    r: u8,
    g: u8,
    b: u8,
    more: u16,
)
    requires
        more != 38,
        more != 48,
    ensures
        ({
            let pen = screen.select_graphic_rendition(
                seq![seq![38u16], seq![5u16], seq![n as u16], seq![more]],
            ).pen;
            let fore = ScreenModel {
                pen: Attrs { foreground: Color::Indexed(n), ..screen.pen },
                ..screen
            };
            pen == fore.select_graphic_rendition(seq![seq![more]]).pen
        }),
        ({
            let pen = screen.select_graphic_rendition(
                seq![seq![48u16], seq![5u16], seq![n as u16], seq![more]],
            ).pen;
            let back = ScreenModel {
                pen: Attrs { background: Color::Indexed(n), ..screen.pen },
                ..screen
            };
            pen == back.select_graphic_rendition(seq![seq![more]]).pen
        }),
        ({
            let pen = screen.select_graphic_rendition(
                seq![
                    seq![38u16],
                    seq![2u16],
                    seq![r as u16],
                    seq![g as u16],
                    seq![b as u16],
                    seq![more],
                ],
            ).pen;
            let fore = ScreenModel {
                pen: Attrs { foreground: Color::Rgb(r, g, b), ..screen.pen },
                ..screen
            };
            pen == fore.select_graphic_rendition(seq![seq![more]]).pen
        }),
        ({
            let pen = screen.select_graphic_rendition(
                seq![seq![48u16], seq![2u16], seq![r as u16], seq![g as u16], seq![b as u16]],
            ).pen;
            pen == (Attrs { background: Color::Rgb(r, g, b), ..screen.pen })
        }),
{
    reveal_with_fuel(model::rendition, 3);
    let five = seq![seq![38u16], seq![5u16], seq![n as u16], seq![more]];
    let rest = model::firsts(five.skip(1));
    assert(rest.len() == 3 && rest[0] == 5 && rest[1] == n);
    assert(model::colour_at(five, 0) == Some(Color::Indexed(n)));
    assert(model::colour_span(five, 0) == 3);
    let five = seq![seq![48u16], seq![5u16], seq![n as u16], seq![more]];
    let rest = model::firsts(five.skip(1));
    assert(rest.len() == 3 && rest[0] == 5 && rest[1] == n);
    assert(model::colour_at(five, 0) == Some(Color::Indexed(n)));
    assert(model::colour_span(five, 0) == 3);
    let two = seq![
        seq![38u16],
        seq![2u16],
        seq![r as u16],
        seq![g as u16],
        seq![b as u16],
        seq![more],
    ];
    let rest = model::firsts(two.skip(1));
    assert(rest.len() == 5 && rest[0] == 2 && rest[1] == r && rest[2] == g && rest[3] == b);
    assert(model::colour_at(two, 0) == Some(Color::Rgb(r, g, b)));
    assert(model::colour_span(two, 0) == 5);
    let two = seq![seq![48u16], seq![2u16], seq![r as u16], seq![g as u16], seq![b as u16]];
    let rest = model::firsts(two.skip(1));
    assert(rest.len() == 4 && rest[0] == 2 && rest[1] == r && rest[2] == g && rest[3] == b);
    assert(model::colour_at(two, 0) == Some(Color::Rgb(r, g, b)));
    assert(model::colour_span(two, 0) == 5);
}

/// Written with colons, the parts of a colour belong to one parameter; before the
/// components of an RGB colour a slot may stand that means nothing.
#[verifier::spinoff_prover]
pub proof fn colours_with_colons_are_read(
    screen: ScreenModel,
    n: u8,
    r: u8,
    g: u8,
    b: u8,
    slot: u16,
)
    ensures
        screen.select_graphic_rendition(seq![seq![38u16, 5, n as u16]]).pen == (Attrs {
            foreground: Color::Indexed(n),
            ..screen.pen
        }),
        screen.select_graphic_rendition(seq![seq![48u16, 5, n as u16]]).pen == (Attrs {
            background: Color::Indexed(n),
            ..screen.pen
        }),
        screen.select_graphic_rendition(
            seq![seq![38u16, 2, r as u16, g as u16, b as u16]],
        ).pen == (Attrs { foreground: Color::Rgb(r, g, b), ..screen.pen }),
        screen.select_graphic_rendition(
            seq![seq![48u16, 2, slot, r as u16, g as u16, b as u16]],
        ).pen == (Attrs { background: Color::Rgb(r, g, b), ..screen.pen }),
{
    reveal_with_fuel(model::rendition, 2);
    let one = seq![38u16, 5, n as u16];
    assert(one.skip(1) =~= seq![5u16, n as u16]);
    let one = seq![48u16, 5, n as u16];
    assert(one.skip(1) =~= seq![5u16, n as u16]);
    let one = seq![38u16, 2, r as u16, g as u16, b as u16];
    assert(one.skip(1) =~= seq![2u16, r as u16, g as u16, b as u16]);
    let one = seq![48u16, 2, slot, r as u16, g as u16, b as u16];
    assert(one.skip(1) =~= seq![2u16, slot, r as u16, g as u16, b as u16]);
}

// --- modes --------------------------------------------------------------------------------

#[verifier::spinoff_prover]
proof fn a_mode_is_set(parser: ParserModel, screen: ScreenModel, n: u16, on: bool)
    requires
        parser.state == State::Ground,
    ensures
        parser.screen_after(
            screen,
            sequences::asking_private(
                n,
                if on {
                    0x68
                } else {
                    0x6c
                },
            ),
        ) == screen.set_mode(true, n, on),
{
    reveal(stream::setting);
    let last: u8 = if on {
        0x68
    } else {
        0x6c
    };
    sequences::a_private_sequence_is_read(parser, screen, n, last);
    let groups = seq![seq![n]];
    assert(groups.drop_last() =~= Seq::empty());
    assert(groups.last() == seq![n]);
    reveal_with_fuel(ScreenModel::set_modes, 2);
    assert(screen.set_modes(true, groups.drop_last(), on) == screen);
}

/// The screen after `CSI ? n h` or `CSI ? n l`.
pub open spec fn mode_after(
    parser: ParserModel,
    screen: ScreenModel,
    n: u16,
    on: bool,
) -> ScreenModel {
    parser.screen_after(
        screen,
        sequences::asking_private(
            n,
            if on {
                0x68
            } else {
                0x6c
            },
        ),
    )
}

/// `CSI ? n h` turns on and `CSI ? n l` turns off: 1 the application's arrow keys, 25 the
/// cursor, 1000, 1002, 1003 and 1006 the mouse, 1004 the telling of focus, 2004
/// the marks around a paste, 9001 the console's own input. Each touches its own mode
/// alone, and nothing that is drawn.
#[verifier::spinoff_prover]
pub proof fn modes_have_their_numbers(parser: ParserModel, screen: ScreenModel, on: bool)
    requires
        parser.state == State::Ground,
    ensures
        mode_after(parser, screen, 1, on).modes == (crate::terminal::cell::Modes {
            application_cursor_keys: on,
            ..screen.modes
        }),
        mode_after(parser, screen, 25, on).modes == (crate::terminal::cell::Modes {
            cursor_visible: on,
            ..screen.modes
        }),
        forall|n: u16|
            n == 1000 || n == 1002 || n == 1003 || n == 1006 ==> (#[trigger] mode_after(
                parser,
                screen,
                n,
                on,
            )).modes == (crate::terminal::cell::Modes { mouse_tracking: on, ..screen.modes }),
        mode_after(parser, screen, 1004, on).modes == (crate::terminal::cell::Modes {
            focus_events: on,
            ..screen.modes
        }),
        mode_after(parser, screen, 2004, on).modes == (crate::terminal::cell::Modes {
            bracketed_paste: on,
            ..screen.modes
        }),
        mode_after(parser, screen, 9001, on).modes == (crate::terminal::cell::Modes {
            win32_input: on,
            ..screen.modes
        }),
        forall|n: u16|
            n != 1049 ==> (#[trigger] mode_after(parser, screen, n, on)).lines == screen.lines
                && mode_after(parser, screen, n, on).cursor == screen.cursor && mode_after(
                parser,
                screen,
                n,
                on,
            ).pen == screen.pen,
{
    a_mode_is_set(parser, screen, 1, on);
    a_mode_is_set(parser, screen, 25, on);
    a_mode_is_set(parser, screen, 1004, on);
    a_mode_is_set(parser, screen, 2004, on);
    a_mode_is_set(parser, screen, 9001, on);
    assert forall|n: u16| n == 1000 || n == 1002 || n == 1003 || n == 1006 implies (
    #[trigger] mode_after(parser, screen, n, on)).modes == (crate::terminal::cell::Modes {
        mouse_tracking: on,
        ..screen.modes
    }) by {
        a_mode_is_set(parser, screen, n, on);
    }
    assert forall|n: u16| n != 1049 implies (#[trigger] mode_after(parser, screen, n, on)).lines
        == screen.lines && mode_after(parser, screen, n, on).cursor == screen.cursor
        && mode_after(parser, screen, n, on).pen == screen.pen by {
        a_mode_is_set(parser, screen, n, on);
    }
}

/// `CSI ? 1049 h` shows a blank screen with the cursor in the corner, and `CSI ? 1049 l`
/// right behind it gives back the screen, the cursor, the pen and the history.
#[verifier::spinoff_prover]
#[verifier::rlimit(30)]
pub proof fn the_alternate_screen_comes_and_goes(parser: ParserModel, screen: ScreenModel)
    requires
        parser.state == State::Ground,
        screen.wf(),
        screen.stowed is None,
    ensures
        ({
            let shown = mode_after(parser, screen, 1049, true);
            let back = mode_after(parser, shown, 1049, false);
            &&& shown.modes.alternate_screen
            &&& shown.cursor.row == 0 && shown.cursor.column == 0
            &&& forall|r: int, c: int|
                0 <= r < screen.rows && 0 <= c < screen.columns ==> (
                #[trigger] shown.lines[r].cells[c]).text == ' '
            &&& !back.modes.alternate_screen
            &&& back.lines == screen.lines
            &&& back.cursor == screen.cursor
            &&& back.pen == screen.pen
            &&& back.scrollback == screen.scrollback
        }),
{
    a_mode_is_set(parser, screen, 1049, true);
    let shown = mode_after(parser, screen, 1049, true);
    a_mode_is_set(parser, shown, 1049, false);
    assert(screen.history() + Seq::empty() =~= screen.scrollback);
}

// --- the rest -----------------------------------------------------------------------------

/// `CSI top ; bottom r` makes those rows the scroll region and goes to the corner; rows are
/// counted from one, the bottom is held to the last row, and a region of less than
/// two rows is not taken.
#[verifier::spinoff_prover]
pub proof fn a_region_is_set(parser: ParserModel, screen: ScreenModel, top: u16, bottom: u16)
    requires
        parser.state == State::Ground,
        screen.wf(),
        top >= 1,
        bottom >= 1,
    ensures
        ({
            let after = parser.screen_after(screen, sequences::asking_two(top, bottom, 0x72));
            let last = sequences::more(0, bottom - 1, screen.rows - 1);
            &&& top - 1 < last ==> after.region == ((top - 1) as usize, last as usize)
                && after.cursor.row == 0 && after.cursor.column == 0
            &&& top - 1 >= last ==> after == screen
            &&& after.lines == screen.lines
            &&& after.pen == screen.pen
        }),
{
    reveal(stream::setting);
    sequences::a_sequence_of_two_is_read(parser, screen, top, bottom, 0x72);
}

/// `CSI 6 n` is answered with the place of the cursor, counted from one, `CSI 5 n` with
/// "all is well", and `CSI c` with what the terminal is. The answers stand behind those
/// that wait already, and nothing else changes.
#[verifier::spinoff_prover]
pub proof fn questions_are_answered(parser: ParserModel, screen: ScreenModel)
    requires
        parser.state == State::Ground,
        screen.wf(),
    ensures
        parser.screen_after(screen, sequences::asking(6, 0x6e)) == (ScreenModel {
            replies: screen.replies + (seq![0x1bu8, 0x5b] + model::digits(
                (screen.cursor.row + 1) as nat,
            ) + seq![0x3bu8] + model::digits((screen.cursor.column + 1) as nat) + seq![0x52u8]),
            ..screen
        }),
        parser.screen_after(screen, sequences::asking(5, 0x6e)) == (ScreenModel {
            replies: screen.replies + seq![0x1bu8, 0x5b, 0x30, 0x6e],
            ..screen
        }),
        parser.screen_after(screen, sequences::bare(0x63)) == (ScreenModel {
            replies: screen.replies + seq![0x1bu8, 0x5b, 0x3f, 0x36, 0x63],
            ..screen
        }),
{
    reveal(stream::setting);
    sequences::a_sequence_is_read(parser, screen, 6, 0x6e);
    sequences::a_sequence_is_read(parser, screen, 5, 0x6e);
    sequences::a_bare_sequence_is_read(parser, screen, 0x63);
}

/// `CSI g` takes the tab stop at the cursor away, `CSI 3 g` all of them.
#[verifier::spinoff_prover]
pub proof fn stops_are_taken_away(parser: ParserModel, screen: ScreenModel, column: int)
    requires
        parser.state == State::Ground,
        screen.wf(),
        0 <= column < screen.columns,
    ensures
        ({
            let one = parser.screen_after(screen, sequences::bare(0x67));
            let all = parser.screen_after(screen, sequences::asking(3, 0x67));
            &&& one.tab_stops[column] == (screen.tab_stops[column] && column
                != screen.cursor.column)
            &&& !all.tab_stops[column]
            &&& one.cursor == screen.cursor && all.cursor == screen.cursor
            &&& one.lines == screen.lines && all.lines == screen.lines
        }),
{
    reveal(stream::setting);
    sequences::a_bare_sequence_is_read(parser, screen, 0x67);
    sequences::a_sequence_is_read(parser, screen, 3, 0x67);
}

#[verifier::spinoff_prover]
proof fn a_title_is_gathered(parser: ParserModel, screen: ScreenModel, bytes: Seq<u8>)
    requires
        parser.state == State::Osc,
        forall|i: int| 0 <= i < bytes.len() ==> #[trigger] bytes[i] != 0x07 && bytes[i] != 0x1b,
    ensures
        parser.after(bytes) == (ParserModel { osc: parser.osc + bytes, ..parser }),
        parser.screen_after(screen, bytes) == screen,
    decreases bytes.len(),
{
    if bytes.len() > 0 {
        let less = bytes.drop_last();
        assert forall|i: int| 0 <= i < less.len() implies #[trigger] less[i] != 0x07 && less[i]
            != 0x1b by {
            assert(less[i] == bytes[i]);
        }
        a_title_is_gathered(parser, screen, less);
        assert(bytes[bytes.len() - 1] == bytes.last());
        assert((parser.osc + less).push(bytes.last()) =~= parser.osc + bytes);
    } else {
        assert(parser.osc + bytes =~= parser.osc);
    }
}

#[verifier::spinoff_prover]
proof fn a_title_opens(parser: ParserModel, screen: ScreenModel)
    requires
        parser.state == State::Ground,
    ensures
        parser.after(seq![0x1bu8, 0x5d]).state == State::Osc,
        parser.after(seq![0x1bu8, 0x5d]).osc == Seq::<u8>::empty(),
        parser.screen_after(screen, seq![0x1bu8, 0x5d]) == screen,
{
    reveal(stream::ground_act);
    reveal(stream::escape_act);
    sequences::two_bytes(parser, screen, 0x1b, 0x5d);
}

#[verifier::spinoff_prover]
proof fn a_title_ends(parser: ParserModel, screen: ScreenModel)
    requires
        parser.state == State::Osc,
    ensures
        parser.screen_after(screen, seq![0x07u8]) == stream::titled(screen, parser.osc),
        parser.screen_after(screen, seq![0x1bu8, 0x5c]) == stream::titled(screen, parser.osc),
{
    sequences::one_byte(parser, screen, 0x07);
    sequences::two_bytes(parser, screen, 0x1b, 0x5c);
}

#[verifier::spinoff_prover]
proof fn a_title_is_taken(screen: ScreenModel, kind: u8, title: Seq<char>)
    requires
        kind == 0x30 || kind == 0x32,
    ensures
        ({
            let after = stream::titled(screen, seq![kind, 0x3bu8] + utf8::encode_utf8(title));
            &&& after.title == title
            &&& after.lines == screen.lines
            &&& after.cursor == screen.cursor
        }),
{
    let bytes = utf8::encode_utf8(title);
    let body = seq![kind, 0x3bu8] + bytes;
    assert(body.skip(2) =~= bytes);
    utf8::encode_utf8_valid_utf8(title);
    utf8::encode_utf8_decode_utf8(title);
    if bytes.len() == 0 {
        assert(bytes =~= Seq::empty());
    }
}

/// `ESC ] 0 ;` or `ESC ] 2 ;`, a title as UTF-8 and BEL, or `ESC \`, set the title, and
/// nothing that is drawn.
#[verifier::spinoff_prover]
pub proof fn a_title_is_set(parser: ParserModel, screen: ScreenModel, kind: u8, title: Seq<char>)
    requires
        parser.state == State::Ground,
        kind == 0x30 || kind == 0x32,
        forall|i: int|
            0 <= i < utf8::encode_utf8(title).len() ==> #[trigger] utf8::encode_utf8(title)[i]
                != 0x07 && utf8::encode_utf8(title)[i] != 0x1b,
    ensures
        ({
            let start = seq![0x1bu8, 0x5d] + (seq![kind, 0x3bu8] + utf8::encode_utf8(title));
            let rung = parser.screen_after(screen, start + seq![0x07u8]);
            let ended = parser.screen_after(screen, start + seq![0x1bu8, 0x5c]);
            &&& rung.title == title
            &&& rung.lines == screen.lines && rung.cursor == screen.cursor
            &&& ended.title == title
            &&& ended.lines == screen.lines && ended.cursor == screen.cursor
        }),
{
    let open = seq![0x1bu8, 0x5d];
    let bytes = utf8::encode_utf8(title);
    let body = seq![kind, 0x3bu8] + bytes;
    a_title_opens(parser, screen);
    assert forall|i: int| 0 <= i < body.len() implies #[trigger] body[i] != 0x07 && body[i]
        != 0x1b by {
        if i >= 2 {
            assert(body[i] == bytes[i - 2]);
        }
    }
    a_title_is_gathered(parser.after(open), screen, body);
    laws::a_split_read_resumes(parser, screen, open, body);
    assert(Seq::<u8>::empty() + body =~= body);
    let read = parser.after(open + body);
    assert(read.state == State::Osc && read.osc == body);
    laws::a_split_read_resumes(parser, screen, open + body, seq![0x07u8]);
    laws::a_split_read_resumes(parser, screen, open + body, seq![0x1bu8, 0x5c]);
    a_title_ends(read, screen);
    a_title_is_taken(screen, kind, title);
}

} // verus!
