//! What characters and the plain control bytes come to.
use crate::terminal::cell::{self, Attrs, Cell, LineModel};
use crate::terminal::changes;
use crate::terminal::laws;
use crate::terminal::model::{self, ScreenModel};
use crate::terminal::sequences;
use crate::terminal::stream::{self, ParserModel, State};
use vstd::prelude::*;
use vstd::utf8;

verus! {

// --- characters as bytes --------------------------------------------------------------

proof fn bytes_of_two(code: u32)
    by (bit_vector)
    requires
        0x80 <= code <= 0x7ff,
    ensures
        0xC0u8 | ((code >> 6u32) & 0x1Fu32) as u8 == 0xC0 + code / 64,
        0x80u8 | (code & 0x3Fu32) as u8 == 0x80 + code % 64,
{
}

proof fn bytes_of_three(code: u32)
    by (bit_vector)
    requires
        0x800 <= code <= 0xffff,
    ensures
        0xE0u8 | ((code >> 12u32) & 0x0Fu32) as u8 == 0xE0 + code / 4096,
        0x80u8 | ((code >> 6u32) & 0x3Fu32) as u8 == 0x80 + code / 64 % 64,
        0x80u8 | (code & 0x3Fu32) as u8 == 0x80 + code % 64,
{
}

proof fn bytes_of_four(code: u32)
    by (bit_vector)
    requires
        0x10000 <= code <= 0x10ffff,
    ensures
        0xF0u8 | ((code >> 18u32) & 0x7u32) as u8 == 0xF0 + code / 262144,
        0x80u8 | ((code >> 12u32) & 0x3Fu32) as u8 == 0x80 + code / 4096 % 64,
        0x80u8 | ((code >> 6u32) & 0x3Fu32) as u8 == 0x80 + code / 64 % 64,
        0x80u8 | (code & 0x3Fu32) as u8 == 0x80 + code % 64,
{
}

proof fn byte_of_one(code: u32)
    by (bit_vector)
    requires
        code <= 0x7f,
    ensures
        (code & 0x7Fu32) as u8 == code,
{
}

#[verifier::spinoff_prover]
proof fn a_character_is_encoded(text: char)
    ensures
        utf8::encode_utf8(seq![text]) == utf8::encode_scalar(text as u32),
{
    assert(seq![text].drop_first() =~= Seq::empty());
    reveal_with_fuel(utf8::encode_utf8, 2);
    assert(utf8::encode_utf8(seq![text]) =~= utf8::encode_scalar(text as u32));
}

#[verifier::spinoff_prover]
proof fn a_byte_prints(parser: ParserModel, screen: ScreenModel, byte: u8, text: char)
    requires
        parser.state == State::Ground,
        byte >= 0x20,
        parser.printed(byte) == Some(text),
    ensures
        parser.act(screen, byte) == screen.print(text),
        parser.next(byte).state == State::Ground,
{
    reveal(stream::ground_act);
}

#[verifier::spinoff_prover]
proof fn a_byte_waits(parser: ParserModel, screen: ScreenModel, byte: u8)
    requires
        parser.state == State::Ground,
        byte >= 0x80,
        parser.printed(byte) is None,
    ensures
        parser.act(screen, byte) == screen,
        parser.next(byte) == parser.utf8(byte),
{
    reveal(stream::ground_act);
}

#[verifier::rlimit(40)]
proof fn two_bytes_print(parser: ParserModel, screen: ScreenModel, text: char)
    requires
        parser.state == State::Ground,
        0x80 <= text as u32 <= 0x7ff,
    ensures
        parser.screen_after(screen, utf8::encode_scalar(text as u32)) == screen.print(text),
        parser.after(utf8::encode_scalar(text as u32)).state == State::Ground,
{
    let code = text as u32;
    bytes_of_two(code);
    let one = (0xC0 + code / 64) as u8;
    let two = (0x80 + code % 64) as u8;
    assert(utf8::encode_scalar(code) =~= seq![one, two]);
    sequences::two_bytes(parser, screen, one, two);
    a_byte_waits(parser, screen, one);
    let first = parser.next(one);
    assert(first.pending == code / 64 && first.due == 1);
    assert(first.assembled(two) == code);
    a_byte_prints(first, screen, two, text);
}

#[verifier::rlimit(40)]
proof fn three_bytes_print(parser: ParserModel, screen: ScreenModel, text: char)
    requires
        parser.state == State::Ground,
        0x800 <= text as u32 <= 0xffff,
    ensures
        parser.screen_after(screen, utf8::encode_scalar(text as u32)) == screen.print(text),
        parser.after(utf8::encode_scalar(text as u32)).state == State::Ground,
{
    let code = text as u32;
    bytes_of_three(code);
    let one = (0xE0 + code / 4096) as u8;
    let two = (0x80 + code / 64 % 64) as u8;
    let three = (0x80 + code % 64) as u8;
    assert(utf8::encode_scalar(code) =~= seq![one, two] + seq![three]);
    laws::a_split_read_resumes(parser, screen, seq![one, two], seq![three]);
    sequences::two_bytes(parser, screen, one, two);
    a_byte_waits(parser, screen, one);
    let first = parser.next(one);
    assert(first.pending == code / 4096 && first.due == 2);
    a_byte_waits(first, screen, two);
    let second = first.next(two);
    assert(first.assembled(two) == code / 64);
    assert(second.pending == code / 64 && second.due == 1);
    sequences::one_byte(second, screen, three);
    assert(second.assembled(three) == code);
    a_byte_prints(second, screen, three, text);
}

#[verifier::rlimit(40)]
proof fn four_bytes_print(parser: ParserModel, screen: ScreenModel, text: char)
    requires
        parser.state == State::Ground,
        0x10000 <= text as u32 <= 0x10ffff,
    ensures
        parser.screen_after(screen, utf8::encode_scalar(text as u32)) == screen.print(text),
        parser.after(utf8::encode_scalar(text as u32)).state == State::Ground,
{
    let code = text as u32;
    bytes_of_four(code);
    let one = (0xF0 + code / 262144) as u8;
    let two = (0x80 + code / 4096 % 64) as u8;
    let three = (0x80 + code / 64 % 64) as u8;
    let four = (0x80 + code % 64) as u8;
    assert(utf8::encode_scalar(code) =~= seq![one, two] + seq![three, four]);
    laws::a_split_read_resumes(parser, screen, seq![one, two], seq![three, four]);
    sequences::two_bytes(parser, screen, one, two);
    a_byte_waits(parser, screen, one);
    let first = parser.next(one);
    assert(first.pending == code / 262144 && first.due == 3);
    a_byte_waits(first, screen, two);
    let second = first.next(two);
    assert(first.assembled(two) == code / 4096);
    assert(second.pending == code / 4096 && second.due == 2);
    sequences::two_bytes(second, screen, three, four);
    a_byte_waits(second, screen, three);
    let third = second.next(three);
    assert(second.assembled(three) == code / 64);
    assert(third.pending == code / 64 && third.due == 1);
    assert(third.assembled(four) == code);
    a_byte_prints(third, screen, four, text);
}

/// The UTF-8 bytes of a character that is no control print it.
#[verifier::spinoff_prover]
proof fn a_character_is_read(parser: ParserModel, screen: ScreenModel, text: char)
    requires
        parser.state == State::Ground,
        text as u32 >= 0x20,
        text as u32 != 0x7f,
    ensures
        parser.screen_after(screen, utf8::encode_utf8(seq![text])) == screen.print(text),
        parser.after(utf8::encode_utf8(seq![text])).state == State::Ground,
{
    a_character_is_encoded(text);
    let code = text as u32;
    if code <= 0x7f {
        byte_of_one(code);
        sequences::one_byte(parser, screen, code as u8);
        assert(utf8::encode_scalar(code) =~= seq![code as u8]);
        a_byte_prints(parser, screen, code as u8, text);
    } else if code <= 0x7ff {
        two_bytes_print(parser, screen, text);
    } else if code <= 0xffff {
        three_bytes_print(parser, screen, text);
    } else {
        four_bytes_print(parser, screen, text);
    }
}

/// A character stands in the cell at a column, in the pen's attributes; a full-width
/// one takes the next cell too.
pub open spec fn stands_at(
    cells: Seq<Cell>,
    column: int,
    text: char,
    pen: Attrs,
) -> bool {
    &&& cells[column].text == text
    &&& cells[column].attrs == pen
    &&& !cells[column].trailing
    &&& cell::width_of(text) == 2 ==> column + 1 < cells.len() && cells[column + 1].trailing
        && cells[column + 1].attrs == pen
}

/// The UTF-8 bytes of a character that fits in the line write it where the cursor is,
/// with the pen, and move the cursor behind it; at the right edge the cursor waits on
/// the last column. Cells further away, and other rows, stay.
#[verifier::spinoff_prover]
#[verifier::rlimit(40)]
pub proof fn a_character_is_written(parser: ParserModel, screen: ScreenModel, text: char)
    requires
        parser.state == State::Ground,
        screen.wf(),
        text as u32 >= 0x20,
        text as u32 != 0x7f,
        cell::width_of(text) > 0,
        !screen.cursor.pending_wrap,
        screen.cursor.column + cell::width_of(text) <= screen.columns,
    ensures
        ({
            let after = parser.screen_after(screen, utf8::encode_utf8(seq![text]));
            let row = screen.cursor.row as int;
            let column = screen.cursor.column as int;
            let end = column + cell::width_of(text);
            let was = screen.lines[row].cells;
            let now = after.lines[row].cells;
            &&& now.len() == was.len()
            &&& stands_at(now, column, text, screen.pen)
            &&& forall|c: int|
                0 <= c < was.len() && (c < column - 1 || c > end) ==> #[trigger] now[c] == was[c]
            &&& changes::is_clean(was, column) && column > 0 ==> now[column - 1] == was[column - 1]
            &&& changes::is_clean(was, end) && end < was.len() ==> now[end] == was[end]
            &&& forall|r: int|
                0 <= r < screen.rows && r != row ==> #[trigger] after.lines[r] == screen.lines[r]
            &&& after.cursor.row == screen.cursor.row
            &&& end < screen.columns ==> after.cursor.column == end && !after.cursor.pending_wrap
            &&& end == screen.columns ==> after.cursor.column == screen.columns - 1
                && after.cursor.pending_wrap
            &&& after.pen == screen.pen
            &&& after.scrollback == screen.scrollback
            &&& after.lines[row].wrapped == screen.lines[row].wrapped
        }),
{
    a_character_is_read(parser, screen, text);
    assert(screen.lines[screen.cursor.row as int].cells.len() == screen.columns);
}

/// Where the line is full, it is marked as running on and the character is the first of
/// the next row; in the last row of the region the rows move up for it.
#[verifier::spinoff_prover]
#[verifier::rlimit(60)]
pub proof fn a_full_line_runs_on(parser: ParserModel, screen: ScreenModel, text: char)
    requires
        parser.state == State::Ground,
        screen.wf(),
        text as u32 >= 0x20,
        text as u32 != 0x7f,
        cell::width_of(text) > 0,
        screen.columns >= 2,
        screen.cursor.pending_wrap || screen.cursor.column + cell::width_of(text)
            > screen.columns,
    ensures
        ({
            let after = parser.screen_after(screen, utf8::encode_utf8(seq![text]));
            let row = screen.cursor.row as int;
            let next = after.cursor.row as int;
            &&& row == screen.region.1 ==> next == row
            &&& row != screen.region.1 && row + 1 < screen.rows ==> next == row + 1
                && after.lines[row].wrapped && after.lines[row].cells == screen.lines[row].cells
            &&& row == screen.region.1 && screen.region.0 < row ==> after.lines[row - 1].wrapped
                && after.lines[row - 1].cells == screen.lines[row].cells
            &&& stands_at(after.lines[next].cells, 0, text, screen.pen)
            &&& cell::width_of(text) < screen.columns ==> after.cursor.column == cell::width_of(text)
        }),
{
    a_character_is_read(parser, screen, text);
    let on = screen.running_on();
    let fed = on.line_feed();
    let row = screen.cursor.row as int;
    assert(fed.lines.len() == screen.rows);
    assert forall|r: int| 0 <= r < screen.rows implies (#[trigger] fed.lines[r]).cells.len()
        == screen.columns by {}
    assert(fed.cursor.row < screen.rows && fed.cursor.column == 0);
}

/// A combining mark takes no cell: nothing is written and the cursor stays.
#[verifier::spinoff_prover]
pub proof fn a_mark_takes_no_cell(parser: ParserModel, screen: ScreenModel, text: char)
    requires
        parser.state == State::Ground,
        text as u32 >= 0x80,
        cell::width_of(text) == 0,
    ensures
        parser.screen_after(screen, utf8::encode_utf8(seq![text])) == screen,
{
    a_character_is_read(parser, screen, text);
}

/// Every character of ASCII takes one cell. Of the others, the scripts that are written
/// in squares take two: Hangul, kana, the Chinese characters of all planes, full-width
/// forms and the common emoji. The combining marks take none.
#[verifier::spinoff_prover]
pub proof fn widths_follow_the_scripts(text: char)
    ensures
        ({
            let code = text as u32;
            &&& 0x20 <= code < 0x7f ==> cell::width_of(text) == 1
            &&& 0xa1 <= code < 0x300 ==> cell::width_of(text) == 1
            &&& 0x370 <= code <= 0x482 ==> cell::width_of(text) == 1
            &&& 0x300 <= code <= 0x36f || 0x20d0 <= code <= 0x20f0 || 0x200b <= code <= 0x200f
                || 0xfe00 <= code <= 0xfe0f ==> cell::width_of(text) == 0
            &&& 0x3041 <= code <= 0x30ff || 0x3400 <= code <= 0x4dbf || 0x4e00 <= code <= 0x9fff
                || 0xac00 <= code <= 0xd7a3 || 0xf900 <= code <= 0xfaff || 0xff01 <= code <= 0xff60
                || 0x1100 <= code <= 0x115f || 0x3001 <= code <= 0x303e || 0x20000 <= code
                <= 0x2fffd || 0x30000 <= code <= 0x3fffd || 0x1f300 <= code <= 0x1f64f || 0x1f900
                <= code <= 0x1f9ff || 0xffe0 <= code <= 0xffe6 || 0xa000 <= code <= 0xa4cf || 0x2e80
                <= code <= 0x2fdf ==> cell::width_of(text) == 2
            &&& 0xff61 <= code <= 0xffdc || 0x2500 <= code <= 0x257f || 0x2010 <= code <= 0x205f
                || 0x2190 <= code <= 0x23ff ==> cell::width_of(text) == 1
            &&& cell::width_of(text) <= 2
        }),
{
}

// --- control bytes ------------------------------------------------------------------------

/// A return goes to the start of the line, a backspace one column back or, at the right
/// edge, nowhere; a tab to the next stop or the last column.
#[verifier::spinoff_prover]
pub proof fn controls_move_along_the_line(parser: ParserModel, screen: ScreenModel)
    requires
        parser.state == State::Ground,
        screen.wf(),
    ensures
        ({
            let back = parser.screen_after(screen, seq![0x0du8]);
            &&& sequences::only_moved(screen, back)
            &&& back.cursor.row == screen.cursor.row && back.cursor.column == 0
            &&& !back.cursor.pending_wrap
        }),
        ({
            let back = parser.screen_after(screen, seq![0x08u8]);
            &&& sequences::only_moved(screen, back)
            &&& back.cursor.row == screen.cursor.row
            &&& !back.cursor.pending_wrap
            &&& screen.cursor.pending_wrap ==> back.cursor.column == screen.cursor.column
            &&& !screen.cursor.pending_wrap ==> back.cursor.column == sequences::less(
                screen.cursor.column as int,
                1,
            )
        }),
        ({
            let on = parser.screen_after(screen, seq![0x09u8]);
            let from = screen.cursor.column as int;
            let to = on.cursor.column as int;
            &&& sequences::only_moved(screen, on)
            &&& on.cursor.row == screen.cursor.row
            &&& !on.cursor.pending_wrap
            &&& from < screen.columns - 1 ==> from < to < screen.columns
            &&& from == screen.columns - 1 ==> to == from
            &&& forall|c: int| from < c < to ==> !#[trigger] screen.tab_stops[c]
            &&& to < screen.columns - 1 ==> screen.tab_stops[to]
        }),
{
    reveal(stream::ground_act);
    sequences::one_byte(parser, screen, 0x0d);
    sequences::one_byte(parser, screen, 0x08);
    sequences::one_byte(parser, screen, 0x09);
    the_next_stop_is_next(screen.tab_stops, screen.cursor.column + 1);
}

proof fn the_next_stop_is_next(stops: Seq<bool>, column: int)
    requires
        0 <= column <= stops.len(),
    ensures
        column <= model::next_stop(stops, column) <= stops.len(),
        forall|c: int| column <= c < model::next_stop(stops, column) ==> !#[trigger] stops[c],
        model::next_stop(stops, column) < stops.len() ==> stops[model::next_stop(stops, column)],
    decreases stops.len() - column,
{
    if column < stops.len() && !stops[column] {
        the_next_stop_is_next(stops, column + 1);
    }
}

/// A fresh screen, and one of a new size, has a stop at every eighth column.
#[verifier::spinoff_prover]
pub proof fn stops_are_eight_apart(columns: usize, rows: usize, column: int)
    requires
        0 <= column < columns,
    ensures
        ScreenModel::blank(columns, rows).tab_stops[column] == (column % 8 == 0),
{
}

/// A newline, a vertical tab and a form feed go one row down in the same column. In the
/// last row of the scroll region the rows move up by one instead; in the last row of
/// the screen, below the region, nothing moves.
#[verifier::spinoff_prover]
#[verifier::rlimit(40)]
pub proof fn a_newline_goes_down(parser: ParserModel, screen: ScreenModel, byte: u8)
    requires
        parser.state == State::Ground,
        screen.wf(),
        byte == 0x0a || byte == 0x0b || byte == 0x0c,
    ensures
        ({
            let after = parser.screen_after(screen, seq![byte]);
            let row = screen.cursor.row as int;
            &&& after.cursor.column == screen.cursor.column
            &&& !after.cursor.pending_wrap
            &&& row != screen.region.1 && row + 1 < screen.rows ==> after.cursor.row == row + 1
                && after.lines == screen.lines && after.scrollback == screen.scrollback
            &&& row != screen.region.1 && row + 1 == screen.rows ==> after.cursor.row == row
                && after.lines == screen.lines && after.scrollback == screen.scrollback
            &&& row == screen.region.1 ==> after.cursor.row == row && changes::rows_went_up(
                screen,
                after,
                screen.region.0 as int,
                screen.region.1 as int,
                1,
            )
            &&& row == screen.region.1 && screen.region.0 == 0 && screen.stowed is None
                && screen.scrollback.len() < screen.scrollback_limit ==> after.scrollback
                == screen.scrollback.push(screen.lines[0])
        }),
{
    reveal(stream::ground_act);
    sequences::one_byte(parser, screen, byte);
    if screen.stowed is None {
        assert(screen.stowed_history =~= Seq::empty());
        let all = screen.scrollback + screen.lines.take(1);
        assert(Seq::<LineModel>::empty() + all =~= all);
        assert(all.skip(0) =~= all);
        assert(all =~= screen.scrollback.push(screen.lines[0]));
    }
}

/// What is neither a character nor a control that is known leaves the screen as it is.
#[verifier::spinoff_prover]
pub proof fn other_bytes_do_nothing(parser: ParserModel, screen: ScreenModel, byte: u8)
    requires
        parser.state == State::Ground,
        byte < 0x08 || 0x0e <= byte < 0x20 || byte == 0x7f,
    ensures
        parser.screen_after(screen, seq![byte]) == screen,
{
    reveal(stream::ground_act);
    sequences::one_byte(parser, screen, byte);
}

// --- escapes ------------------------------------------------------------------------------

/// `ESC 7` and `CSI s` put the cursor and the pen aside, and `ESC 8` and `CSI u` bring them
/// back, wherever the cursor is by then.
#[verifier::spinoff_prover]
#[verifier::rlimit(30)]
pub proof fn a_saved_cursor_comes_back(
    parser: ParserModel,
    screen: ScreenModel,
    later: ScreenModel,
)
    requires
        parser.state == State::Ground,
        screen.wf(),
        later.wf(),
        later.rows == screen.rows,
        later.columns == screen.columns,
        later.saved == parser.screen_after(screen, seq![0x1bu8, 0x37]).saved,
    ensures
        parser.screen_after(screen, sequences::bare(0x73)).saved == later.saved,
        parser.screen_after(screen, seq![0x1bu8, 0x37]).cursor == screen.cursor,
        parser.screen_after(screen, seq![0x1bu8, 0x37]).lines == screen.lines,
        ({
            let back = parser.screen_after(later, seq![0x1bu8, 0x38]);
            &&& back.cursor == screen.cursor
            &&& back.pen == screen.pen
            &&& back.lines == later.lines
            &&& back.scrollback == later.scrollback
        }),
        ({
            let back = parser.screen_after(later, sequences::bare(0x75));
            &&& back.cursor == screen.cursor
            &&& back.pen == screen.pen
            &&& back.lines == later.lines
        }),
{
    reveal(stream::ground_act);
    reveal(stream::escape_act);
    reveal(stream::setting);
    sequences::two_bytes(parser, screen, 0x1b, 0x37);
    sequences::two_bytes(parser, later, 0x1b, 0x38);
    sequences::a_bare_sequence_is_read(parser, screen, 0x73);
    sequences::a_bare_sequence_is_read(parser, later, 0x75);
}

/// `ESC D` goes down as a newline does, and `ESC E` also to the start of the line.
#[verifier::spinoff_prover]
pub proof fn an_index_goes_down(parser: ParserModel, screen: ScreenModel)
    requires
        parser.state == State::Ground,
        screen.wf(),
    ensures
        parser.screen_after(screen, seq![0x1bu8, 0x44]) == parser.screen_after(
            screen,
            seq![0x0au8],
        ),
        parser.screen_after(screen, seq![0x1bu8, 0x45]) == parser.screen_after(
            parser.screen_after(screen, seq![0x0du8]),
            seq![0x0au8],
        ),
{
    reveal(stream::ground_act);
    reveal(stream::escape_act);
    sequences::two_bytes(parser, screen, 0x1b, 0x44);
    sequences::two_bytes(parser, screen, 0x1b, 0x45);
    sequences::one_byte(parser, screen, 0x0a);
    sequences::one_byte(parser, screen, 0x0d);
    sequences::one_byte(parser, parser.screen_after(screen, seq![0x0du8]), 0x0a);
}

/// `ESC M` goes up in the same column; in the first row of the scroll region the rows
/// move down by one instead.
#[verifier::spinoff_prover]
#[verifier::rlimit(30)]
pub proof fn a_reverse_index_goes_up(parser: ParserModel, screen: ScreenModel)
    requires
        parser.state == State::Ground,
        screen.wf(),
    ensures
        ({
            let up = parser.screen_after(screen, seq![0x1bu8, 0x4d]);
            let row = screen.cursor.row as int;
            &&& up.cursor.column == screen.cursor.column
            &&& row != screen.region.0 ==> up.cursor.row == sequences::less(row, 1) && up.lines
                == screen.lines
            &&& row == screen.region.0 ==> up.cursor.row == row && changes::rows_went_down(
                screen,
                up,
                screen.region.0 as int,
                screen.region.1 as int,
                1,
            )
            &&& up.scrollback == screen.scrollback
        }),
{
    reveal(stream::ground_act);
    reveal(stream::escape_act);
    sequences::two_bytes(parser, screen, 0x1b, 0x4d);
}

/// `ESC c` starts the terminal again: a blank screen, the cursor in the corner, the pen
/// plain, the whole screen as the region, and the ordinary modes. The history stays.
#[verifier::spinoff_prover]
pub proof fn a_reset_starts_again(parser: ParserModel, screen: ScreenModel)
    requires
        parser.state == State::Ground,
        screen.wf(),
    ensures
        ({
            let after = parser.screen_after(screen, seq![0x1bu8, 0x63]);
            &&& after.rows == screen.rows && after.columns == screen.columns
            &&& forall|r: int, c: int|
                0 <= r < screen.rows && 0 <= c < screen.columns ==> (
                #[trigger] after.lines[r].cells[c]).text == ' '
            &&& after.cursor.row == 0 && after.cursor.column == 0 && !after.cursor.pending_wrap
            &&& !after.pen.bold && !after.pen.reverse && !after.pen.underline
            &&& after.pen.foreground == cell::Color::Default
            &&& after.pen.background == cell::Color::Default
            &&& after.region == (0usize, (screen.rows - 1) as usize)
            &&& after.history() == screen.history()
            &&& after.modes.cursor_visible && !after.modes.alternate_screen
            &&& !after.modes.bracketed_paste && !after.modes.application_cursor_keys
            &&& after.saved is None
        }),
{
    reveal(stream::ground_act);
    reveal(stream::escape_act);
    sequences::two_bytes(parser, screen, 0x1b, 0x63);
    assert(Seq::<LineModel>::empty() + screen.history() =~= screen.history());
}

} // verus!
