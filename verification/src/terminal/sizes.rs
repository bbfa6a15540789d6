//! What becomes of a screen that is given another size, row by row and cell by cell.
use crate::terminal::cell::{self, LineModel};
use crate::terminal::model::{self, ScreenModel};
use vstd::prelude::*;

verus! {

/// The row holds a character other than a blank.
pub open spec fn shows_something(line: LineModel) -> bool {
    line.text().len() > 0
}

/// A screen has the size that it is given, and all of it scrolls. Its stops are eight
/// apart again, and the cursor stays in its column as far as there is one.
pub proof fn a_screen_has_the_size_it_is_given(
    screen: ScreenModel,
    columns: usize,
    rows: usize,
)
    requires
        screen.wf(),
        columns >= 1,
        rows >= 1,
        columns != screen.columns || rows != screen.rows,
    ensures
        ({
            let after = screen.resize(columns, rows);
            &&& after.columns == columns
            &&& after.rows == rows
            &&& after.lines.len() == rows
            &&& after.region == (0usize, (rows - 1) as usize)
            &&& after.tab_stops.len() == columns
            &&& forall|k: int| 0 <= k < columns ==> #[trigger] after.tab_stops[k] == (k % 8 == 0)
            &&& screen.cursor.column < columns ==> after.cursor.column == screen.cursor.column
            &&& screen.cursor.column >= columns ==> after.cursor.column == columns - 1
            &&& !after.cursor.pending_wrap
            &&& after.title == screen.title
            &&& after.modes == screen.modes
            &&& after.pen == screen.pen
        }),
{
}

/// Where the lowest row that shows something, and the cursor's, still have room, every row
/// and the cursor stay where they are.
pub proof fn rows_with_room_stay(screen: ScreenModel, columns: usize, rows: usize, k: int)
    requires
        screen.wf(),
        columns >= 1,
        rows >= 1,
        columns != screen.columns || rows != screen.rows,
        screen.cursor.row < rows,
        forall|r: int| rows <= r < screen.lines.len() ==> !shows_something(#[trigger] screen.lines[r]),
        0 <= k < screen.lines.len(),
        k < rows,
    ensures
        screen.resize(columns, rows).lines[k] == model::refitted(screen.lines[k], columns as int),
        screen.resize(columns, rows).cursor.row == screen.cursor.row,
        screen.stowed is None && screen.scrollback.len() <= screen.scrollback_limit
            ==> screen.resize(columns, rows).scrollback == screen.scrollback,
{
    nothing_is_written_below(screen.lines, screen.lines.len() as int, rows as int);
    assert(screen.leaving(rows as int) == 0);
    let wide = model::refitted_all(screen.lines, columns as int);
    assert(wide.skip(0) =~= wide);
    assert(screen.scrollback + wide.take(0) =~= screen.scrollback);
    assert(screen.scrollback.skip(0) =~= screen.scrollback);
}

proof fn nothing_is_written_below(lines: Seq<LineModel>, n: int, rows: int)
    requires
        0 <= n <= lines.len(),
        forall|r: int| rows <= r < n ==> !shows_something(#[trigger] lines[r]),
        rows >= 0,
    ensures
        model::last_written(lines, n) < rows,
    decreases n,
{
    if n > rows {
        assert(!shows_something(lines[n - 1]));
        nothing_is_written_below(lines, n - 1, rows);
    } else if n > 0 {
        nothing_is_written_below(lines, n - 1, rows);
    }
}

/// Where there is no room, as many rows leave the top as are missing below: the lowest row
/// that shows something is the last one left.
pub proof fn rows_without_room_leave_the_top(
    screen: ScreenModel,
    columns: usize,
    rows: usize,
    last: int,
    k: int,
)
    requires
        screen.wf(),
        columns >= 1,
        1 <= rows <= last < screen.lines.len(),
        shows_something(screen.lines[last]),
        screen.cursor.row <= last,
        forall|r: int| last < r < screen.lines.len() ==> !shows_something(#[trigger] screen.lines[r]),
        0 <= k < rows,
    ensures
        ({
            let gone = last + 1 - rows;
            let after = screen.resize(columns, rows);
            &&& after.lines[k] == model::refitted(screen.lines[gone + k], columns as int)
            &&& screen.cursor.row >= gone ==> after.cursor.row == screen.cursor.row - gone
            &&& screen.cursor.row < gone ==> after.cursor.row == 0
            &&& screen.stowed is None && screen.scrollback.len() + gone <= screen.scrollback_limit
                ==> after.scrollback == screen.scrollback + model::refitted_all(
                screen.lines,
                columns as int,
            ).take(gone)
        }),
{
    the_lowest_is_found(screen.lines, screen.lines.len() as int, last);
    let gone = last + 1 - rows;
    assert(screen.leaving(rows as int) == gone);
    let wide = model::refitted_all(screen.lines, columns as int);
    let left = wide.skip(gone);
    assert(left.len() >= rows);
    assert(left[k] == wide[gone + k]);
    let history = screen.scrollback + wide.take(gone);
    assert(history.skip(0) =~= history);
}

proof fn the_lowest_is_found(lines: Seq<LineModel>, n: int, last: int)
    requires
        0 <= last < n <= lines.len(),
        shows_something(lines[last]),
        forall|r: int| last < r < n ==> !shows_something(#[trigger] lines[r]),
    ensures
        model::last_written(lines, n) == last,
    decreases n,
{
    if last < n - 1 {
        assert(!shows_something(lines[n - 1]));
        the_lowest_is_found(lines, n - 1, last);
    }
}

/// A row is cut at the right edge or filled with blanks; its other cells stay, unless a
/// full-width character lies across the edge.
pub proof fn a_row_is_cut_or_filled(line: LineModel, columns: int, k: int)
    requires
        0 <= k < columns,
        !(columns < line.cells.len() && line.cells[columns].trailing),
    ensures
        model::refitted(line, columns).cells.len() == columns,
        model::refitted(line, columns).wrapped == line.wrapped,
        k < line.cells.len() ==> model::refitted(line, columns).cells[k] == line.cells[k],
        k >= line.cells.len() ==> model::refitted(line, columns).cells[k] == cell::blank_cell(
            cell::plain(),
        ),
{
}

} // verus!
