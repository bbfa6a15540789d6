//! What the sequences of the stream come to, from their bytes to the cells.
//!
//! Every law here takes the bytes of a whole sequence, as a program writes them,
//! and says what has become of the cursor, the cells and the pen once they were
//! read.
use crate::terminal::laws;
use crate::terminal::model::{self, ScreenModel};
use crate::terminal::stream::{self, ParserModel, State};
use vstd::prelude::*;

verus! {

// --- how a sequence is written ------------------------------------------------------

/// `ESC [` and a final byte.
pub open spec fn bare(last: u8) -> Seq<u8> {
    seq![0x1bu8, 0x5b, last]
}

/// `ESC [`, a number and a final byte.
pub open spec fn asking(number: u16, last: u8) -> Seq<u8> {
    seq![0x1bu8, 0x5b] + model::digits(number as nat) + seq![last]
}

/// `ESC [`, two numbers and a final byte.
pub open spec fn asking_two(one: u16, two: u16, last: u8) -> Seq<u8> {
    seq![0x1bu8, 0x5b] + model::digits(one as nat) + seq![0x3bu8] + model::digits(two as nat)
        + seq![last]
}

/// `ESC [ ?`, a number and a final byte.
pub open spec fn asking_private(number: u16, last: u8) -> Seq<u8> {
    seq![0x1bu8, 0x5b, 0x3f] + model::digits(number as nat) + seq![last]
}

/// The value of digits, the last of which counts once, the one before it ten
/// times, and so on.
pub open spec fn worth(bytes: Seq<u8>) -> int
    decreases bytes.len(),
{
    if bytes.len() == 0 {
        0
    } else {
        worth(bytes.drop_last()) * 10 + (bytes.last() - 0x30)
    }
}

/// A number is written in decimal, without zeros before it.
pub proof fn numbers_are_decimal(number: nat)
    ensures
        worth(model::digits(number)) == number,
        model::digits(number).len() >= 1,
        number > 0 ==> model::digits(number)[0] != 0x30,
        number == 0 ==> model::digits(number).len() == 1,
        forall|i: int|
            0 <= i < model::digits(number).len() ==> 0x30 <= #[trigger] model::digits(number)[i]
                <= 0x39,
    decreases number,
{
    if number < 10 {
        let one = model::digits(number);
        assert(one.drop_last() =~= Seq::empty());
        assert(worth(one.drop_last()) == 0);
    } else {
        numbers_are_decimal(number / 10);
        let before = model::digits(number / 10);
        let all = model::digits(number);
        assert(all.drop_last() =~= before);
        assert(all[0] == before[0]);
        assert forall|i: int| 0 <= i < all.len() implies 0x30 <= #[trigger] all[i] <= 0x39 by {
            if i < before.len() {
                assert(all[i] == before[i]);
            }
        }
    }
}

pub(crate) proof fn one_byte(parser: ParserModel, screen: ScreenModel, byte: u8)
    ensures
        parser.after(seq![byte]) == parser.next(byte),
        parser.screen_after(screen, seq![byte]) == parser.act(screen, byte),
{
    let bytes = seq![byte];
    assert(bytes.drop_last() =~= Seq::empty());
    assert(parser.after(bytes.drop_last()) == parser);
    assert(parser.screen_after(screen, bytes.drop_last()) == screen);
}

pub(crate) proof fn two_bytes(parser: ParserModel, screen: ScreenModel, one: u8, two: u8)
    ensures
        parser.after(seq![one, two]) == parser.next(one).next(two),
        parser.screen_after(screen, seq![one, two]) == parser.next(one).act(
            parser.act(screen, one),
            two,
        ),
{
    one_byte(parser, screen, one);
    let bytes = seq![one, two];
    assert(bytes.drop_last() =~= seq![one]);
}

/// Digits of a sequence are read as the number they write.
proof fn a_number_is_read(parser: ParserModel, screen: ScreenModel, number: nat)
    requires
        parser.state == State::Csi,
        parser.number is None,
        number <= 65535,
    ensures
        parser.after(model::digits(number)) == (ParserModel {
            number: Some(number as u16),
            ..parser
        }),
        parser.screen_after(screen, model::digits(number)) == screen,
    decreases number,
{
    let all = model::digits(number);
    if number < 10 {
        one_byte(parser, screen, (48 + number) as u8);
    } else {
        a_number_is_read(parser, screen, number / 10);
        assert(all.drop_last() =~= model::digits(number / 10));
    }
}

/// A sequence opens and waits for its parameters.
proof fn a_sequence_opens(parser: ParserModel, screen: ScreenModel)
    requires
        parser.state == State::Ground,
    ensures
        parser.after(seq![0x1bu8, 0x5b]) == parser.clear().to(State::Csi),
        parser.screen_after(screen, seq![0x1bu8, 0x5b]) == screen,
{
    two_bytes(parser, screen, 0x1b, 0x5b);
    reveal(stream::ground_act);
    reveal(stream::escape_act);
}

pub(crate) proof fn a_bare_sequence_is_read(parser: ParserModel, screen: ScreenModel, last: u8)
    requires
        parser.state == State::Ground,
        0x40 <= last <= 0x7e,
    ensures
        parser.screen_after(screen, bare(last)) == stream::dispatch(
            Seq::empty(),
            None,
            None,
            screen,
            last,
        ),
        parser.after(bare(last)) == parser.clear(),
{
    let open = seq![0x1bu8, 0x5b];
    a_sequence_opens(parser, screen);
    assert(bare(last) =~= open + seq![last]);
    laws::a_split_read_resumes(parser, screen, open, seq![last]);
    one_byte(parser.after(open), screen, last);
}

pub(crate) proof fn a_sequence_is_read(parser: ParserModel, screen: ScreenModel, number: u16, last: u8)
    requires
        parser.state == State::Ground,
        0x40 <= last <= 0x7e,
    ensures
        parser.screen_after(screen, asking(number, last)) == stream::dispatch(
            seq![seq![number]],
            None,
            None,
            screen,
            last,
        ),
        parser.after(asking(number, last)) == parser.clear(),
{
    let open = seq![0x1bu8, 0x5b];
    let digits = model::digits(number as nat);
    a_sequence_opens(parser, screen);
    laws::a_split_read_resumes(parser, screen, open, digits);
    let waiting = parser.after(open);
    a_number_is_read(waiting, screen, number as nat);
    laws::a_split_read_resumes(parser, screen, open + digits, seq![last]);
    let read = parser.after(open + digits);
    one_byte(read, screen, last);
    assert(read.params() =~= seq![seq![number]]) by {
        assert(read.group_so_far() =~= seq![number]);
    }
}

pub(crate) proof fn a_sequence_of_two_is_read(
    parser: ParserModel,
    screen: ScreenModel,
    one: u16,
    two: u16,
    last: u8,
)
    requires
        parser.state == State::Ground,
        0x40 <= last <= 0x7e,
    ensures
        parser.screen_after(screen, asking_two(one, two, last)) == stream::dispatch(
            seq![seq![one], seq![two]],
            None,
            None,
            screen,
            last,
        ),
        parser.after(asking_two(one, two, last)) == parser.clear(),
{
    let open = seq![0x1bu8, 0x5b];
    let first = open + model::digits(one as nat);
    let parted = first + seq![0x3bu8];
    let second = parted + model::digits(two as nat);
    a_sequence_opens(parser, screen);
    laws::a_split_read_resumes(parser, screen, open, model::digits(one as nat));
    a_number_is_read(parser.after(open), screen, one as nat);
    laws::a_split_read_resumes(parser, screen, first, seq![0x3bu8]);
    one_byte(parser.after(first), screen, 0x3b);
    laws::a_split_read_resumes(parser, screen, parted, model::digits(two as nat));
    a_number_is_read(parser.after(parted), screen, two as nat);
    laws::a_split_read_resumes(parser, screen, second, seq![last]);
    let read = parser.after(second);
    one_byte(read, screen, last);
    assert(parser.after(first).group_so_far() =~= seq![one]);
    assert(read.groups =~= seq![seq![one]]);
    assert(read.group_so_far() =~= seq![two]);
    assert(read.params() =~= seq![seq![one], seq![two]]);
}

pub(crate) proof fn a_private_sequence_is_read(
    parser: ParserModel,
    screen: ScreenModel,
    number: u16,
    last: u8,
)
    requires
        parser.state == State::Ground,
        0x40 <= last <= 0x7e,
    ensures
        parser.screen_after(screen, asking_private(number, last)) == stream::dispatch(
            seq![seq![number]],
            Some(0x3fu8),
            None,
            screen,
            last,
        ),
        parser.after(asking_private(number, last)) == parser.clear(),
{
    let open = seq![0x1bu8, 0x5b];
    let mark = seq![0x1bu8, 0x5b, 0x3f];
    let digits = model::digits(number as nat);
    a_sequence_opens(parser, screen);
    assert(mark =~= open + seq![0x3fu8]);
    laws::a_split_read_resumes(parser, screen, open, seq![0x3fu8]);
    one_byte(parser.after(open), screen, 0x3f);
    laws::a_split_read_resumes(parser, screen, mark, digits);
    a_number_is_read(parser.after(mark), screen, number as nat);
    laws::a_split_read_resumes(parser, screen, mark + digits, seq![last]);
    let read = parser.after(mark + digits);
    one_byte(read, screen, last);
    assert(read.params() =~= seq![seq![number]]) by {
        assert(read.group_so_far() =~= seq![number]);
    }
}

// --- the cursor -----------------------------------------------------------------------

/// Only where the cursor stands may differ.
pub open spec fn only_moved(before: ScreenModel, after: ScreenModel) -> bool {
    &&& after.columns == before.columns
    &&& after.rows == before.rows
    &&& after.lines == before.lines
    &&& after.scrollback == before.scrollback
    &&& after.stowed == before.stowed
    &&& after.pen == before.pen
    &&& after.saved == before.saved
    &&& after.region == before.region
    &&& after.tab_stops == before.tab_stops
    &&& after.modes == before.modes
    &&& after.title == before.title
    &&& after.replies == before.replies
}

/// A number below another, or nothing.
pub open spec fn less(number: int, by: int) -> int {
    if by >= number {
        0
    } else {
        number - by
    }
}

/// A number above another, but not above the last.
pub open spec fn more(number: int, by: int, last: int) -> int {
    if number + by > last {
        last
    } else {
        number + by
    }
}

/// `CSI n A`, `B`, `C` and `D` move the cursor up, down, right and left by `n`, as
/// far as there is room, and nothing else.
pub proof fn arrows_move_the_cursor(parser: ParserModel, screen: ScreenModel, n: u16)
    requires
        parser.state == State::Ground,
        screen.wf(),
        n >= 1,
    ensures
        ({
            let up = parser.screen_after(screen, asking(n, 0x41));
            &&& up.cursor.row == less(screen.cursor.row as int, n as int)
            &&& up.cursor.column == screen.cursor.column
            &&& !up.cursor.pending_wrap
            &&& only_moved(screen, up)
        }),
        ({
            let down = parser.screen_after(screen, asking(n, 0x42));
            &&& down.cursor.row == more(screen.cursor.row as int, n as int, screen.rows - 1)
            &&& down.cursor.column == screen.cursor.column
            &&& !down.cursor.pending_wrap
            &&& only_moved(screen, down)
        }),
        ({
            let right = parser.screen_after(screen, asking(n, 0x43));
            &&& right.cursor.row == screen.cursor.row
            &&& right.cursor.column == more(
                screen.cursor.column as int,
                n as int,
                screen.columns - 1,
            )
            &&& !right.cursor.pending_wrap
            &&& only_moved(screen, right)
        }),
        ({
            let left = parser.screen_after(screen, asking(n, 0x44));
            &&& left.cursor.row == screen.cursor.row
            &&& left.cursor.column == less(screen.cursor.column as int, n as int)
            &&& !left.cursor.pending_wrap
            &&& only_moved(screen, left)
        }),
{
    reveal(stream::motion);
    a_sequence_is_read(parser, screen, n, 0x41);
    a_sequence_is_read(parser, screen, n, 0x42);
    a_sequence_is_read(parser, screen, n, 0x43);
    a_sequence_is_read(parser, screen, n, 0x44);
}

/// `CSI n e` and `a` are other spellings of `CSI n B` and `C`; `CSI n E` and `F` go
/// down and up by `n` rows to the start of the line.
pub proof fn line_moves_go_to_the_start(parser: ParserModel, screen: ScreenModel, n: u16)
    requires
        parser.state == State::Ground,
        screen.wf(),
        n >= 1,
    ensures
        ({
            let down = parser.screen_after(screen, asking(n, 0x65));
            &&& down.cursor.row == more(screen.cursor.row as int, n as int, screen.rows - 1)
            &&& down.cursor.column == screen.cursor.column
            &&& only_moved(screen, down)
        }),
        ({
            let right = parser.screen_after(screen, asking(n, 0x61));
            &&& right.cursor.row == screen.cursor.row
            &&& right.cursor.column == more(
                screen.cursor.column as int,
                n as int,
                screen.columns - 1,
            )
            &&& only_moved(screen, right)
        }),
        ({
            let down = parser.screen_after(screen, asking(n, 0x45));
            &&& down.cursor.row == more(screen.cursor.row as int, n as int, screen.rows - 1)
            &&& down.cursor.column == 0
            &&& only_moved(screen, down)
        }),
        ({
            let up = parser.screen_after(screen, asking(n, 0x46));
            &&& up.cursor.row == less(screen.cursor.row as int, n as int)
            &&& up.cursor.column == 0
            &&& only_moved(screen, up)
        }),
{
    reveal(stream::motion);
    a_sequence_is_read(parser, screen, n, 0x65);
    a_sequence_is_read(parser, screen, n, 0x61);
    a_sequence_is_read(parser, screen, n, 0x45);
    a_sequence_is_read(parser, screen, n, 0x46);
}

/// `CSI row ; column H` and `f` put the cursor on that row and column, `CSI column G`
/// and `` ` `` on that column, and `CSI row d` on that row. The upper left corner is
/// row 1, column 1.
pub proof fn places_are_counted_from_one(
    parser: ParserModel,
    screen: ScreenModel,
    row: u16,
    column: u16,
)
    requires
        parser.state == State::Ground,
        screen.wf(),
        row >= 1,
        column >= 1,
    ensures
        ({
            let there = parser.screen_after(screen, asking_two(row, column, 0x48));
            let also = parser.screen_after(screen, asking_two(row, column, 0x66));
            &&& there.cursor.row == more(0, row - 1, screen.rows - 1)
            &&& there.cursor.column == more(0, column - 1, screen.columns - 1)
            &&& !there.cursor.pending_wrap
            &&& only_moved(screen, there)
            &&& also.cursor == there.cursor
            &&& only_moved(screen, also)
        }),
        ({
            let there = parser.screen_after(screen, asking(column, 0x47));
            let also = parser.screen_after(screen, asking(column, 0x60));
            &&& there.cursor.row == screen.cursor.row
            &&& there.cursor.column == more(0, column - 1, screen.columns - 1)
            &&& !there.cursor.pending_wrap
            &&& only_moved(screen, there)
            &&& also.cursor == there.cursor
            &&& only_moved(screen, also)
        }),
        ({
            let there = parser.screen_after(screen, asking(row, 0x64));
            &&& there.cursor.row == more(0, row - 1, screen.rows - 1)
            &&& there.cursor.column == screen.cursor.column
            &&& !there.cursor.pending_wrap
            &&& only_moved(screen, there)
        }),
        ({
            let there = parser.screen_after(screen, asking(row, 0x48));
            &&& there.cursor.row == more(0, row - 1, screen.rows - 1)
            &&& there.cursor.column == 0
            &&& only_moved(screen, there)
        }),
{
    reveal(stream::motion);
    a_sequence_of_two_is_read(parser, screen, row, column, 0x48);
    a_sequence_of_two_is_read(parser, screen, row, column, 0x66);
    a_sequence_is_read(parser, screen, column, 0x47);
    a_sequence_is_read(parser, screen, column, 0x60);
    a_sequence_is_read(parser, screen, row, 0x64);
    a_sequence_is_read(parser, screen, row, 0x48);
}

/// A number that is left out, and a zero, count as one.
pub proof fn nothing_counts_as_one(parser: ParserModel, screen: ScreenModel, last: u8)
    requires
        parser.state == State::Ground,
        0x41 <= last <= 0x48 || last == 0x4c || last == 0x4d || last == 0x50 || last == 0x53
            || last == 0x54 || last == 0x58 || last == 0x40 || last == 0x60 || last == 0x61 || 0x64
            <= last <= 0x66,
    ensures
        parser.screen_after(screen, bare(last)) == parser.screen_after(screen, asking(1, last)),
        parser.screen_after(screen, asking(0, last)) == parser.screen_after(
            screen,
            asking(1, last),
        ),
{
    reveal(stream::motion);
    reveal(stream::edit);
    a_bare_sequence_is_read(parser, screen, last);
    a_sequence_is_read(parser, screen, 0, last);
    a_sequence_is_read(parser, screen, 1, last);
}

/// Without a number the arrows move by one, and `CSI H` goes to the upper left corner.
#[verifier::rlimit(40)]
pub proof fn bare_arrows_move_by_one(parser: ParserModel, screen: ScreenModel)
    requires
        parser.state == State::Ground,
        screen.wf(),
    ensures
        ({
            let up = parser.screen_after(screen, bare(0x41));
            &&& up.cursor.row == less(screen.cursor.row as int, 1)
            &&& up.cursor.column == screen.cursor.column
            &&& only_moved(screen, up)
        }),
        ({
            let down = parser.screen_after(screen, bare(0x42));
            &&& down.cursor.row == more(screen.cursor.row as int, 1, screen.rows - 1)
            &&& down.cursor.column == screen.cursor.column
            &&& only_moved(screen, down)
        }),
        ({
            let right = parser.screen_after(screen, bare(0x43));
            &&& right.cursor.row == screen.cursor.row
            &&& right.cursor.column == more(screen.cursor.column as int, 1, screen.columns - 1)
            &&& only_moved(screen, right)
        }),
        ({
            let left = parser.screen_after(screen, bare(0x44));
            &&& left.cursor.row == screen.cursor.row
            &&& left.cursor.column == less(screen.cursor.column as int, 1)
            &&& only_moved(screen, left)
        }),
        ({
            let home = parser.screen_after(screen, bare(0x48));
            &&& home.cursor.row == 0
            &&& home.cursor.column == 0
            &&& only_moved(screen, home)
        }),
{
    reveal(stream::motion);
    a_bare_sequence_is_read(parser, screen, 0x41);
    a_bare_sequence_is_read(parser, screen, 0x42);
    a_bare_sequence_is_read(parser, screen, 0x43);
    a_bare_sequence_is_read(parser, screen, 0x44);
    a_bare_sequence_is_read(parser, screen, 0x48);
}

} // verus!
