//! What the sequences that change the screen come to, cell by cell.
use crate::terminal::cell::{Attrs, Cell, Color, LineModel};
use crate::terminal::model::ScreenModel;
use crate::terminal::sequences;
use crate::terminal::stream::{self, ParserModel, State};
use vstd::prelude::*;

verus! {

// --- cells --------------------------------------------------------------------------------

/// A cell that was erased with a pen: a blank with the pen's background and nothing
/// else of it.
pub open spec fn is_cleared(cell: Cell, pen: Attrs) -> bool {
    &&& cell.text == ' '
    &&& !cell.trailing
    &&& cell.attrs.background == pen.background
    &&& cell.attrs.foreground == Color::Default
    &&& !cell.attrs.bold
    &&& !cell.attrs.faint
    &&& !cell.attrs.italic
    &&& !cell.attrs.underline
    &&& !cell.attrs.blink
    &&& !cell.attrs.reverse
    &&& !cell.attrs.hidden
    &&& !cell.attrs.struck
}

/// No full-width character lies across the edge before a column.
pub open spec fn is_clean(cells: Seq<Cell>, at: int) -> bool {
    !(0 < at < cells.len() && cells[at].trailing)
}

/// All cells of a row are cleared.
pub open spec fn is_cleared_row(line: LineModel, columns: int, pen: Attrs) -> bool {
    &&& line.cells.len() == columns
    &&& !line.wrapped
    &&& forall|c: int| 0 <= c < columns ==> is_cleared(#[trigger] line.cells[c], pen)
}

/// Only the cells `from..to` of the cursor's row were cleared.
pub open spec fn only_cleared(
    before: ScreenModel,
    after: ScreenModel,
    from: int,
    to: int,
) -> bool {
    let row = before.cursor.row as int;
    let was = before.lines[row].cells;
    let now = after.lines[row].cells;
    &&& only_drawn(before, after)
    &&& after.lines.len() == before.lines.len()
    &&& forall|r: int|
        0 <= r < before.lines.len() && r != row ==> #[trigger] after.lines[r] == before.lines[r]
    &&& now.len() == was.len()
    &&& after.lines[row].wrapped == before.lines[row].wrapped
    &&& forall|c: int| from <= c < to ==> is_cleared(#[trigger] now[c], before.pen)
    &&& forall|c: int|
        0 <= c < was.len() && (c < from - 1 || c > to) ==> #[trigger] now[c] == was[c]
    &&& is_clean(was, from) && from > 0 ==> now[from - 1] == was[from - 1]
    &&& is_clean(was, to) && to < was.len() ==> now[to] == was[to]
}

/// The cursor and everything but what is drawn stayed as they were.
pub open spec fn only_drawn(before: ScreenModel, after: ScreenModel) -> bool {
    &&& after.cursor == before.cursor
    &&& after.columns == before.columns
    &&& after.rows == before.rows
    &&& after.stowed == before.stowed
    &&& after.pen == before.pen
    &&& after.saved == before.saved
    &&& after.region == before.region
    &&& after.tab_stops == before.tab_stops
    &&& after.modes == before.modes
    &&& after.title == before.title
    &&& after.replies == before.replies
}

proof fn clearing_clears(screen: ScreenModel, from: int, to: int)
    requires
        screen.wf(),
        0 <= from < to <= screen.columns,
    ensures
        only_cleared(screen, screen.clear_cells(from, to).touch(), from, to),
{
    let after = screen.clear_cells(from, to).touch();
    let row = screen.cursor.row as int;
    let was = screen.lines[row].cells;
    assert(was.len() == screen.columns);
    assert(after.lines[row].cells.len() == was.len());
}

/// `CSI K` clears from the cursor to the end of the line, `CSI 1 K` from its start up to
/// and with the cursor, `CSI 2 K` all of it; `CSI n X` clears `n` cells from the
/// cursor on, as far as there are.
pub proof fn a_line_is_erased(parser: ParserModel, screen: ScreenModel, n: u16)
    requires
        parser.state == State::Ground,
        screen.wf(),
        n >= 1,
    ensures
        only_cleared(
            screen,
            parser.screen_after(screen, sequences::bare(0x4b)),
            screen.cursor.column as int,
            screen.columns as int,
        ),
        only_cleared(
            screen,
            parser.screen_after(screen, sequences::asking(1, 0x4b)),
            0,
            screen.cursor.column + 1,
        ),
        only_cleared(
            screen,
            parser.screen_after(screen, sequences::asking(2, 0x4b)),
            0,
            screen.columns as int,
        ),
        only_cleared(
            screen,
            parser.screen_after(screen, sequences::asking(n, 0x58)),
            screen.cursor.column as int,
            sequences::more(screen.cursor.column as int, n as int, screen.columns as int),
        ),
{
    reveal(stream::edit);
    sequences::a_bare_sequence_is_read(parser, screen, 0x4b);
    sequences::a_sequence_is_read(parser, screen, 1, 0x4b);
    sequences::a_sequence_is_read(parser, screen, 2, 0x4b);
    sequences::a_sequence_is_read(parser, screen, n, 0x58);
    clearing_clears(screen, screen.cursor.column as int, screen.columns as int);
    clearing_clears(screen, 0, screen.cursor.column + 1);
    clearing_clears(screen, 0, screen.columns as int);
    clearing_clears(
        screen,
        screen.cursor.column as int,
        sequences::more(screen.cursor.column as int, n as int, screen.columns as int),
    );
}

/// `CSI J` clears the screen from the cursor on, `CSI 1 J` up to and with the cursor, and
/// `CSI 2 J` all of it; the history stays. `CSI 3 J` drops the history and leaves the
/// screen.
#[verifier::rlimit(30)]
pub proof fn a_display_is_erased(parser: ParserModel, screen: ScreenModel)
    requires
        parser.state == State::Ground,
        screen.wf(),
    ensures
        ({
            let after = parser.screen_after(screen, sequences::bare(0x4a));
            let row = screen.cursor.row as int;
            &&& only_drawn(screen, after)
            &&& after.history() == screen.history()
            &&& after.lines.len() == screen.lines.len()
            &&& forall|r: int| 0 <= r < row ==> #[trigger] after.lines[r] == screen.lines[r]
            &&& forall|r: int|
                row < r < screen.rows ==> is_cleared_row(
                    #[trigger] after.lines[r],
                    screen.columns as int,
                    screen.pen,
                )
            &&& forall|c: int|
                screen.cursor.column <= c < screen.columns ==> is_cleared(
                    #[trigger] after.lines[row].cells[c],
                    screen.pen,
                )
            &&& forall|c: int|
                0 <= c < screen.cursor.column - 1 ==> #[trigger] after.lines[row].cells[c]
                    == screen.lines[row].cells[c]
        }),
        ({
            let after = parser.screen_after(screen, sequences::asking(1, 0x4a));
            let row = screen.cursor.row as int;
            &&& only_drawn(screen, after)
            &&& after.history() == screen.history()
            &&& after.lines.len() == screen.lines.len()
            &&& forall|r: int|
                row < r < screen.rows ==> #[trigger] after.lines[r] == screen.lines[r]
            &&& forall|r: int|
                0 <= r < row ==> is_cleared_row(
                    #[trigger] after.lines[r],
                    screen.columns as int,
                    screen.pen,
                )
            &&& forall|c: int|
                0 <= c <= screen.cursor.column ==> is_cleared(
                    #[trigger] after.lines[row].cells[c],
                    screen.pen,
                )
            &&& forall|c: int|
                screen.cursor.column + 1 < c < screen.columns
                    ==> #[trigger] after.lines[row].cells[c] == screen.lines[row].cells[c]
        }),
        ({
            let after = parser.screen_after(screen, sequences::asking(2, 0x4a));
            &&& only_drawn(screen, after)
            &&& after.history() == screen.history()
            &&& after.lines.len() == screen.lines.len()
            &&& forall|r: int|
                0 <= r < screen.rows ==> is_cleared_row(
                    #[trigger] after.lines[r],
                    screen.columns as int,
                    screen.pen,
                )
        }),
        ({
            let after = parser.screen_after(screen, sequences::asking(3, 0x4a));
            &&& only_drawn(screen, after)
            &&& after.history().len() == 0
            &&& after.lines == screen.lines
        }),
{
    reveal(stream::edit);
    sequences::a_bare_sequence_is_read(parser, screen, 0x4a);
    sequences::a_sequence_is_read(parser, screen, 1, 0x4a);
    sequences::a_sequence_is_read(parser, screen, 2, 0x4a);
    sequences::a_sequence_is_read(parser, screen, 3, 0x4a);
    clearing_clears(screen, screen.cursor.column as int, screen.columns as int);
    clearing_clears(screen, 0, screen.cursor.column + 1);
    assert(screen.clear_history().history() =~= Seq::empty());
}

/// `CSI n @` opens `n` cleared cells at the cursor and pushes the others right, off the
/// edge where there is no room; `CSI n P` takes `n` cells out and pulls the others left,
/// with cleared cells at the edge. The cells before the cursor stay.
#[verifier::rlimit(30)]
pub proof fn cells_move_along_the_line(parser: ParserModel, screen: ScreenModel, n: u16)
    requires
        parser.state == State::Ground,
        screen.wf(),
        n >= 1,
    ensures
        ({
            let after = parser.screen_after(screen, sequences::asking(n, 0x40));
            let row = screen.cursor.row as int;
            let at = screen.cursor.column as int;
            let by = sequences::more(0, n as int, screen.columns - at);
            let was = screen.lines[row].cells;
            let now = after.lines[row].cells;
            &&& only_drawn(screen, after)
            &&& now.len() == was.len()
            &&& forall|r: int|
                0 <= r < screen.rows && r != row ==> #[trigger] after.lines[r] == screen.lines[r]
            &&& forall|c: int| at <= c < at + by ==> is_cleared(#[trigger] now[c], screen.pen)
            &&& is_clean(was, at) && is_clean(was, screen.columns - by) ==> (forall|c: int|
                0 <= c < at ==> #[trigger] now[c] == was[c]) && (forall|c: int|
                at + by <= c < screen.columns ==> #[trigger] now[c] == was[c - by])
        }),
        ({
            let after = parser.screen_after(screen, sequences::asking(n, 0x50));
            let row = screen.cursor.row as int;
            let at = screen.cursor.column as int;
            let by = sequences::more(0, n as int, screen.columns - at);
            let was = screen.lines[row].cells;
            let now = after.lines[row].cells;
            &&& only_drawn(screen, after)
            &&& now.len() == was.len()
            &&& forall|r: int|
                0 <= r < screen.rows && r != row ==> #[trigger] after.lines[r] == screen.lines[r]
            &&& forall|c: int|
                screen.columns - by <= c < screen.columns ==> is_cleared(
                    #[trigger] now[c],
                    screen.pen,
                )
            &&& is_clean(was, at) && is_clean(was, at + by) ==> (forall|c: int|
                0 <= c < at ==> #[trigger] now[c] == was[c]) && (forall|c: int|
                at <= c < screen.columns - by ==> #[trigger] now[c] == was[c + by])
        }),
{
    reveal(stream::edit);
    sequences::a_sequence_is_read(parser, screen, n, 0x40);
    sequences::a_sequence_is_read(parser, screen, n, 0x50);
    assert(screen.lines[screen.cursor.row as int].cells.len() == screen.columns);
}

// --- rows ---------------------------------------------------------------------------------

/// The rows `top..=bottom` moved up by `by`, with cleared rows below, and the others
/// stayed.
pub open spec fn rows_went_up(
    before: ScreenModel,
    after: ScreenModel,
    top: int,
    bottom: int,
    by: int,
) -> bool {
    &&& after.lines.len() == before.lines.len()
    &&& forall|r: int|
        0 <= r < before.lines.len() && (r < top || r > bottom) ==> #[trigger] after.lines[r]
            == before.lines[r]
    &&& forall|r: int|
        top <= r <= bottom - by ==> #[trigger] after.lines[r] == before.lines[r + by]
    &&& forall|r: int|
        bottom - by < r <= bottom ==> is_cleared_row(
            #[trigger] after.lines[r],
            before.columns as int,
            before.pen,
        )
}

/// The rows `top..=bottom` moved down by `by`, with cleared rows above, and the others
/// stayed.
pub open spec fn rows_went_down(
    before: ScreenModel,
    after: ScreenModel,
    top: int,
    bottom: int,
    by: int,
) -> bool {
    &&& after.lines.len() == before.lines.len()
    &&& forall|r: int|
        0 <= r < before.lines.len() && (r < top || r > bottom) ==> #[trigger] after.lines[r]
            == before.lines[r]
    &&& forall|r: int|
        top + by <= r <= bottom ==> #[trigger] after.lines[r] == before.lines[r - by]
    &&& forall|r: int|
        top <= r < top + by ==> is_cleared_row(
            #[trigger] after.lines[r],
            before.columns as int,
            before.pen,
        )
}

/// `CSI n L` pushes the cursor's row and those below it down by `n` within the scroll
/// region, and `CSI n M` takes `n` rows out and pulls those below up. Outside the
/// region neither does anything.
#[verifier::rlimit(30)]
pub proof fn lines_come_and_go(parser: ParserModel, screen: ScreenModel, n: u16)
    requires
        parser.state == State::Ground,
        screen.wf(),
        n >= 1,
    ensures
        ({
            let down = parser.screen_after(screen, sequences::asking(n, 0x4c));
            let up = parser.screen_after(screen, sequences::asking(n, 0x4d));
            let row = screen.cursor.row as int;
            let inside = screen.region.0 <= row <= screen.region.1;
            let by = sequences::more(0, n as int, screen.region.1 - row + 1);
            &&& only_drawn(screen, down) && only_drawn(screen, up)
            &&& down.history() == screen.history() && up.history() == screen.history()
            &&& !inside ==> down.lines == screen.lines && up.lines == screen.lines
            &&& inside ==> rows_went_down(screen, down, row, screen.region.1 as int, by)
            &&& inside ==> rows_went_up(screen, up, row, screen.region.1 as int, by)
        }),
{
    reveal(stream::edit);
    sequences::a_sequence_is_read(parser, screen, n, 0x4c);
    sequences::a_sequence_is_read(parser, screen, n, 0x4d);
}

/// `CSI n S` moves the rows of the scroll region up by `n` and `CSI n T` down. Rows that
/// leave the top of the whole primary screen become history, in order; no other row
/// does.
#[verifier::rlimit(40)]
pub proof fn the_region_scrolls(parser: ParserModel, screen: ScreenModel, n: u16)
    requires
        parser.state == State::Ground,
        screen.wf(),
        n >= 1,
    ensures
        ({
            let up = parser.screen_after(screen, sequences::asking(n, 0x53));
            let (top, bottom) = screen.region;
            let by = sequences::more(0, n as int, bottom - top + 1);
            &&& only_drawn(screen, up)
            &&& rows_went_up(screen, up, top as int, bottom as int, by)
            &&& top > 0 || screen.stowed is Some ==> up.history() == screen.history()
            &&& top == 0 && screen.stowed is None ==> {
                let all = screen.scrollback + screen.lines.take(by);
                let gone = if all.len() > screen.scrollback_limit {
                    all.len() - screen.scrollback_limit
                } else {
                    0
                };
                up.scrollback == all.skip(gone)
            }
        }),
        ({
            let down = parser.screen_after(screen, sequences::asking(n, 0x54));
            let (top, bottom) = screen.region;
            let by = sequences::more(0, n as int, bottom - top + 1);
            &&& only_drawn(screen, down)
            &&& rows_went_down(screen, down, top as int, bottom as int, by)
            &&& down.history() == screen.history()
        }),
{
    reveal(stream::edit);
    sequences::a_sequence_is_read(parser, screen, n, 0x53);
    sequences::a_sequence_is_read(parser, screen, n, 0x54);
    let by = sequences::more(0, n as int, screen.region.1 - screen.region.0 + 1);
    if screen.stowed is None {
        assert(Seq::<LineModel>::empty() + (screen.scrollback + screen.lines.take(by))
            =~= screen.scrollback + screen.lines.take(by));
        assert(screen.stowed_history =~= Seq::empty());
    }
}

} // verus!
