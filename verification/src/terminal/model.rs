//! What a screen holds, and what each operation makes of it.
//!
//! Everything here is mathematics: [`ScreenModel`] is the view of a
//! [`Screen`](crate::terminal::Screen), and the contracts of its methods say
//! that the screen afterwards is what the function of the same name makes of
//! the screen before.
use crate::rows;
use crate::terminal::cell::{self, Attrs, Cell, Color, Cursor, Line, LineModel, Modes};
use crate::terminal::halves;
use crate::text;
use vstd::prelude::*;

verus! {

/// The cursor and the pen, put aside.
#[derive(Clone, Copy, Debug)]
pub struct SavedCursor {
    pub cursor: Cursor,
    pub pen: Attrs,
}

/// Output being collected.
#[verifier::ext_equal]
pub struct CaptureModel {
    /// Rows above this one are not collected: they were on the screen before,
    /// or have been collected already.
    pub first_row: usize,
    /// Rows written to since.
    pub touched: Set<usize>,
    /// Lines that are finished, each with its line break.
    pub completed: Seq<char>,
    /// The rows so far of a line that runs over several.
    pub wrapped: Seq<char>,
    /// What stood on the first row at the start, and is not output.
    pub initial: Seq<char>,
}

/// Everything a screen holds.
pub struct ScreenModel {
    pub columns: usize,
    pub rows: usize,
    pub lines: Seq<LineModel>,
    /// The primary screen, held while the alternate one is showing.
    pub stowed: Option<Seq<LineModel>>,
    /// The rows that scrolled off the primary screen, held with it.
    pub stowed_history: Seq<LineModel>,
    pub scrollback: Seq<LineModel>,
    pub scrollback_limit: usize,
    pub cursor: Cursor,
    pub saved: Option<SavedCursor>,
    pub pen: Attrs,
    /// Rows the scroll happens between, both ends included.
    pub region: (usize, usize),
    pub tab_stops: Seq<bool>,
    pub modes: Modes,
    pub title: Seq<char>,
    pub replies: Seq<u8>,
    /// Sequences that arrived and were not acted on, each with a count.
    pub unhandled: Seq<(Seq<char>, u32)>,
    pub revision: u64,
    /// Rows that have left the scrollback.
    pub history_origin: u64,
    pub capture: Option<CaptureModel>,
    pub file_capture: Option<CaptureModel>,
}

// --- captures -----------------------------------------------------------------

impl CaptureModel {
    /// A collection that starts on `row`, where `standing` is written already.
    pub open spec fn from(row: usize, standing: Seq<char>) -> CaptureModel {
        CaptureModel {
            first_row: row,
            touched: Set::empty(),
            completed: Seq::empty(),
            wrapped: Seq::empty(),
            initial: standing,
        }
    }

    /// `row` has been written to.
    pub open spec fn touching(self, row: usize) -> CaptureModel {
        CaptureModel { touched: self.touched.insert(row), ..self }
    }

    /// `row` is left for good and its text is output, unless it stood there
    /// before.
    pub open spec fn commit(self, row: usize, changed_only: bool, line: LineModel) -> CaptureModel {
        if row < self.first_row || (changed_only && !self.touched.contains(row)) {
            self
        } else {
            let whole = self.wrapped + line.logical_text();
            let fresh = text::without_prefix(whole, self.initial);
            if line.wrapped {
                CaptureModel {
                    first_row: (row + 1) as usize,
                    touched: self.touched.remove(row),
                    wrapped: whole,
                    ..self
                }
            } else {
                CaptureModel {
                    first_row: (row + 1) as usize,
                    touched: self.touched.remove(row),
                    completed: if fresh.len() > 0 || self.initial.len() == 0 {
                        self.completed + fresh + seq!['\n']
                    } else {
                        self.completed
                    },
                    wrapped: Seq::empty(),
                    initial: Seq::empty(),
                }
            }
        }
    }

    /// The changed rows among `from..to` are left for good, one after the other.
    pub open spec fn commit_rows(self, lines: Seq<LineModel>, from: int, to: int) -> CaptureModel
        decreases to - from,
    {
        if from >= to {
            self
        } else {
            self.commit_rows(lines, from, to - 1).commit(
                (to - 1) as usize,
                true,
                lines[to - 1],
            )
        }
    }

    /// The rows `top..=bottom` have moved up by `by`.
    pub open spec fn scrolled(self, top: usize, bottom: usize, by: usize) -> CaptureModel {
        CaptureModel {
            first_row: if top == 0 {
                self.first_row.saturating_sub(by)
            } else {
                self.first_row
            },
            touched: Set::new(
                |row: usize|
                    if row < top || row > bottom {
                        self.touched.contains(row)
                    } else {
                        row + by <= bottom && self.touched.contains((row + by) as usize)
                    },
            ),
            ..self
        }
    }

    /// `by` rows have left the top of the screen.
    pub open spec fn cut(self, by: int) -> CaptureModel {
        CaptureModel {
            first_row: if self.first_row <= by {
                0
            } else {
                (self.first_row - by) as usize
            },
            touched: rows::lifted(self.touched, by),
            ..self
        }
    }

    /// The screen was cleared and starts again at the top.
    pub open spec fn restarted(self) -> CaptureModel {
        CaptureModel {
            first_row: 0,
            touched: Set::empty(),
            wrapped: Seq::empty(),
            initial: Seq::empty(),
            ..self
        }
    }

    /// The line that is still being written, with the cursor on `row`.
    pub open spec fn tail(self, row: usize, text: Seq<char>) -> Seq<char> {
        if row < self.first_row || (self.wrapped.len() == 0 && !self.touched.contains(row)) {
            Seq::empty()
        } else {
            text::without_prefix(self.wrapped + text, self.initial)
        }
    }

    /// The finished lines have been handed over.
    pub open spec fn handed_over(self) -> CaptureModel {
        CaptureModel { completed: Seq::empty(), ..self }
    }
}

pub open spec fn touching(capture: Option<CaptureModel>, row: usize) -> Option<CaptureModel> {
    match capture {
        Some(it) => Some(it.touching(row)),
        None => None,
    }
}

pub open spec fn commit(
    capture: Option<CaptureModel>,
    row: usize,
    changed_only: bool,
    line: LineModel,
) -> Option<CaptureModel> {
    match capture {
        Some(it) => Some(it.commit(row, changed_only, line)),
        None => None,
    }
}

pub open spec fn commit_rows(
    capture: Option<CaptureModel>,
    lines: Seq<LineModel>,
    from: int,
    to: int,
) -> Option<CaptureModel> {
    match capture {
        Some(it) => Some(it.commit_rows(lines, from, to)),
        None => None,
    }
}

pub open spec fn scrolled(
    capture: Option<CaptureModel>,
    top: usize,
    bottom: usize,
    by: usize,
) -> Option<CaptureModel> {
    match capture {
        Some(it) => Some(it.scrolled(top, bottom, by)),
        None => None,
    }
}

pub open spec fn cut(capture: Option<CaptureModel>, by: int) -> Option<CaptureModel> {
    match capture {
        Some(it) => Some(it.cut(by)),
        None => None,
    }
}

pub open spec fn restarted(capture: Option<CaptureModel>) -> Option<CaptureModel> {
    match capture {
        Some(it) => Some(it.restarted()),
        None => None,
    }
}

pub open spec fn handed_over(capture: Option<CaptureModel>) -> Option<CaptureModel> {
    match capture {
        Some(it) => Some(it.handed_over()),
        None => None,
    }
}

/// What a consumer is told: the finished lines and the one being written.
pub open spec fn update_of(
    capture: Option<CaptureModel>,
    row: usize,
    text: Seq<char>,
) -> Option<(Seq<char>, Seq<char>)> {
    match capture {
        Some(it) => Some((it.completed, it.tail(row, text))),
        None => None,
    }
}

// --- rows and cells -----------------------------------------------------------

/// What a cell becomes when it is erased: the background travels, and nothing
/// else of the pen does.
pub open spec fn erased(pen: Attrs) -> Attrs {
    Attrs { background: pen.background, ..cell::plain() }
}

/// Writing over half of a full-width character destroys the other half.
pub open spec fn cleared_pair(cells: Seq<Cell>, column: int, attrs: Attrs) -> Seq<Cell> {
    if cells[column].trailing && column > 0 {
        cells.update(column - 1, cell::blank_cell(attrs))
    } else if column + 1 < cells.len() && cells[column + 1].trailing && cell::width_of(
        cells[column].text,
    ) == 2 {
        cells.update(column + 1, cell::blank_cell(attrs))
    } else {
        cells
    }
}

/// The cells of a row after `text` is written at `column`.
pub open spec fn written(
    cells: Seq<Cell>,
    column: int,
    text: char,
    pen: Attrs,
) -> Seq<Cell> {
    let clear = cleared_pair(cells, column, erased(pen));
    if cell::width_of(text) == 2 {
        cleared_pair(clear, column + 1, erased(pen)).update(
            column,
            Cell { text, attrs: pen, trailing: false },
        ).update(column + 1, Cell { text: ' ', attrs: pen, trailing: true })
    } else {
        clear.update(column, Cell { text, attrs: pen, trailing: false })
    }
}

/// A row that runs on.
pub open spec fn wrapped_line(line: LineModel) -> LineModel {
    LineModel { wrapped: true, ..line }
}

/// No full-width character lies across the edge before `at`: where one does, both
/// of its halves are cleared.
pub open spec fn parted(cells: Seq<Cell>, at: int, attrs: Attrs) -> Seq<Cell> {
    if 0 < at < cells.len() && cells[at].trailing {
        cells.update(at - 1, cell::blank_cell(attrs)).update(at, cell::blank_cell(attrs))
    } else {
        cells
    }
}

/// The cells `from..to` cleared, and the other half of a character that lies
/// across one of their edges.
pub open spec fn cleared(cells: Seq<Cell>, from: int, to: int, attrs: Attrs) -> Seq<Cell> {
    blanked(parted(parted(cells, from, attrs), to, attrs), from, to, attrs)
}

/// The cells `from..to` as blanks.
pub open spec fn blanked(cells: Seq<Cell>, from: int, to: int, attrs: Attrs) -> Seq<Cell> {
    Seq::new(
        cells.len(),
        |at: int|
            if from <= at < to {
                cell::blank_cell(attrs)
            } else {
                cells[at]
            },
    )
}

/// `count` cleared cells.
pub open spec fn blanks(count: int, attrs: Attrs) -> Seq<Cell> {
    Seq::new(count as nat, |at: int| cell::blank_cell(attrs))
}

/// `count` cleared rows.
pub open spec fn blank_lines(count: int, columns: int, attrs: Attrs) -> Seq<LineModel> {
    Seq::new(count as nat, |at: int| cell::blank_line(columns, attrs))
}

/// `count` cells opened at `column`; what is pushed off the right edge is lost, and
/// so is a character of which a half is, or which lies across the column.
pub open spec fn opened(cells: Seq<Cell>, column: int, count: int, attrs: Attrs) -> Seq<Cell> {
    pushed(parted(parted(cells, column, attrs), cells.len() - count, attrs), column, count, attrs)
}

/// The cells from `column` on pushed to the right.
pub open spec fn pushed(cells: Seq<Cell>, column: int, count: int, attrs: Attrs) -> Seq<Cell> {
    cells.take(column) + blanks(count, attrs) + cells.subrange(column, cells.len() - count)
}

/// `count` cells taken out at `column`; blanks come in at the right edge. A
/// character that lies across an edge of what is taken out goes with it.
pub open spec fn closed_up(cells: Seq<Cell>, column: int, count: int, attrs: Attrs) -> Seq<Cell> {
    pulled(parted(parted(cells, column, attrs), column + count, attrs), column, count, attrs)
}

/// The cells behind `count` at `column` pulled to the left.
pub open spec fn pulled(cells: Seq<Cell>, column: int, count: int, attrs: Attrs) -> Seq<Cell> {
    cells.take(column) + cells.skip(column + count) + blanks(count, attrs)
}

/// The rows `top..=bottom` moved up by `by`, with blanks below.
pub open spec fn raised(
    lines: Seq<LineModel>,
    top: int,
    bottom: int,
    by: int,
    columns: int,
    attrs: Attrs,
) -> Seq<LineModel> {
    lines.take(top) + lines.subrange(top + by, bottom + 1) + blank_lines(by, columns, attrs)
        + lines.skip(bottom + 1)
}

/// The rows `top..=bottom` moved down by `by`, with blanks above.
pub open spec fn lowered(
    lines: Seq<LineModel>,
    top: int,
    bottom: int,
    by: int,
    columns: int,
    attrs: Attrs,
) -> Seq<LineModel> {
    lines.take(top) + blank_lines(by, columns, attrs) + lines.subrange(top, bottom + 1 - by)
        + lines.skip(bottom + 1)
}

/// A row made `columns` wide: cut at the right edge, or filled with blanks. A
/// character that lies across the new edge is lost.
pub open spec fn refitted(line: LineModel, columns: int) -> LineModel {
    LineModel {
        cells: widened(parted(line.cells, columns, cell::plain()), columns),
        wrapped: line.wrapped,
    }
}

/// A row of these cells that does not run on.
pub open spec fn row_of(cells: Seq<Cell>) -> LineModel {
    LineModel { cells, wrapped: false }
}

/// The first `columns` cells, with blanks where there are fewer.
pub open spec fn widened(cells: Seq<Cell>, columns: int) -> Seq<Cell> {
    Seq::new(
        columns as nat,
        |at: int|
            if at < cells.len() {
                cells[at]
            } else {
                cell::blank_cell(cell::plain())
            },
    )
}

pub open spec fn refitted_all(lines: Seq<LineModel>, columns: int) -> Seq<LineModel> {
    lines.map_values(|line: LineModel| refitted(line, columns))
}

/// The first `rows` of these rows, with blanks where there are fewer.
pub open spec fn fitted(lines: Seq<LineModel>, rows: int, columns: int) -> Seq<LineModel> {
    if lines.len() >= rows {
        lines.take(rows)
    } else {
        lines + blank_lines(rows - lines.len(), columns, cell::plain())
    }
}

/// A stop at every eighth column.
pub open spec fn default_stops(columns: int) -> Seq<bool> {
    Seq::new(columns as nat, |column: int| column % 8 == 0)
}

/// The first stop at or after `column`, or the number of columns.
pub open spec fn next_stop(stops: Seq<bool>, column: int) -> int
    decreases stops.len() - column,
{
    if column >= stops.len() || stops[column] {
        column
    } else {
        next_stop(stops, column + 1)
    }
}

/// A cursor that was put aside, after `by` rows above it have left.
pub open spec fn lifted_cursor(saved: Option<SavedCursor>, by: int) -> Option<SavedCursor> {
    match saved {
        Some(saved) => Some(
            SavedCursor {
                cursor: Cursor {
                    row: excess(saved.cursor.row as int, by) as usize,
                    ..saved.cursor
                },
                ..saved
            },
        ),
        None => None,
    }
}

/// How much of a number is over a limit.
pub open spec fn excess(count: int, limit: int) -> int {
    if count > limit {
        count - limit
    } else {
        0
    }
}

/// A count that stays at its greatest value.
pub open spec fn counted(count: u64, more: int) -> u64 {
    if count + more > u64::MAX {
        u64::MAX
    } else {
        (count + more) as u64
    }
}

pub open spec fn next_revision(revision: u64) -> u64 {
    if revision == u64::MAX {
        0
    } else {
        (revision + 1) as u64
    }
}

pub open spec fn clamped(value: int, most: int) -> usize {
    if value < 0 {
        0
    } else if value > most {
        most as usize
    } else {
        value as usize
    }
}

pub open spec fn at_least_one(count: int) -> int {
    if count < 1 {
        1
    } else {
        count
    }
}

pub open spec fn at_most(count: int, most: int) -> int {
    if count > most {
        most
    } else {
        count
    }
}

// --- colours and attributes -----------------------------------------------------

/// The low eight bits.
pub open spec fn low_byte(value: u16) -> u8 {
    (value % 256) as u8
}

/// The colour after the 38 or 48 of a graphic rendition: `5` and an index, or
/// `2` and three components. Where the parts were joined by colons, a slot for
/// the colour space may stand before the components.
pub open spec fn extended(parts: Seq<u16>, colon: bool) -> Option<Color> {
    if parts.len() >= 2 && parts[0] == 5 {
        Some(Color::Indexed(low_byte(parts[1])))
    } else if parts.len() >= 1 && parts[0] == 2 {
        let first: int = if colon && parts.len() >= 5 {
            2
        } else {
            1
        };
        if first + 3 <= parts.len() {
            Some(
                Color::Rgb(
                    low_byte(parts[first]),
                    low_byte(parts[first + 1]),
                    low_byte(parts[first + 2]),
                ),
            )
        } else {
            None
        }
    } else {
        None
    }
}

/// The first number of a parameter, 0 where it has none.
pub open spec fn first_of(group: Seq<u16>) -> u16 {
    if group.len() > 0 {
        group[0]
    } else {
        0
    }
}

pub open spec fn firsts(groups: Seq<Seq<u16>>) -> Seq<u16> {
    groups.map_values(|group: Seq<u16>| first_of(group))
}

/// The pen after one attribute that needs no further parameters.
pub open spec fn attribute(pen: Attrs, code: u16) -> Attrs {
    if code == 0 {
        cell::plain()
    } else if code == 1 {
        Attrs { bold: true, ..pen }
    } else if code == 2 {
        Attrs { faint: true, ..pen }
    } else if code == 3 {
        Attrs { italic: true, ..pen }
    } else if code == 4 {
        Attrs { underline: true, ..pen }
    } else if code == 5 || code == 6 {
        Attrs { blink: true, ..pen }
    } else if code == 7 {
        Attrs { reverse: true, ..pen }
    } else if code == 8 {
        Attrs { hidden: true, ..pen }
    } else if code == 9 {
        Attrs { struck: true, ..pen }
    } else if code == 21 || code == 22 {
        Attrs { bold: false, faint: false, ..pen }
    } else if code == 23 {
        Attrs { italic: false, ..pen }
    } else if code == 24 {
        Attrs { underline: false, ..pen }
    } else if code == 25 {
        Attrs { blink: false, ..pen }
    } else if code == 27 {
        Attrs { reverse: false, ..pen }
    } else if code == 28 {
        Attrs { hidden: false, ..pen }
    } else if code == 29 {
        Attrs { struck: false, ..pen }
    } else if 30 <= code <= 37 {
        Attrs { foreground: Color::Indexed((code - 30) as u8), ..pen }
    } else if code == 39 {
        Attrs { foreground: Color::Default, ..pen }
    } else if 40 <= code <= 47 {
        Attrs { background: Color::Indexed((code - 40) as u8), ..pen }
    } else if code == 49 {
        Attrs { background: Color::Default, ..pen }
    } else if 90 <= code <= 97 {
        Attrs { foreground: Color::Indexed((code - 82) as u8), ..pen }
    } else if 100 <= code <= 107 {
        Attrs { background: Color::Indexed((code - 92) as u8), ..pen }
    } else {
        pen
    }
}

/// The colour that starts at parameter `index`, whose first number is 38 or 48.
pub open spec fn colour_at(groups: Seq<Seq<u16>>, index: int) -> Option<Color> {
    if groups[index].len() > 1 {
        extended(groups[index].skip(1), true)
    } else {
        extended(firsts(groups.skip(index + 1)), false)
    }
}

/// How many parameters the colour that starts at parameter `index` uses. Written
/// with colons its parts belong to one parameter.
pub open spec fn colour_span(groups: Seq<Seq<u16>>, index: int) -> int {
    if groups[index].len() > 1 {
        1
    } else if index + 1 < groups.len() && first_of(groups[index + 1]) == 5 {
        3
    } else if index + 1 < groups.len() && first_of(groups[index + 1]) == 2 {
        5
    } else {
        2
    }
}

/// The pen after the parameters from `index` on.
pub open spec fn rendition(pen: Attrs, groups: Seq<Seq<u16>>, index: int) -> Attrs
    decreases groups.len() - index,
{
    if index >= groups.len() {
        pen
    } else {
        let code = first_of(groups[index]);
        if code == 38 || code == 48 {
            let next = match colour_at(groups, index) {
                Some(colour) => if code == 38 {
                    Attrs { foreground: colour, ..pen }
                } else {
                    Attrs { background: colour, ..pen }
                },
                None => pen,
            };
            rendition(
                next,
                groups,
                at_most(index + colour_span(groups, index), groups.len() as int),
            )
        } else {
            rendition(attribute(pen, code), groups, index + 1)
        }
    }
}

// --- what was not understood ----------------------------------------------------

/// Where a name is listed, or the length of the list.
pub open spec fn place_of(seen: Seq<(Seq<char>, u32)>, what: Seq<char>, from: int) -> int
    decreases seen.len() - from,
{
    if from >= seen.len() || seen[from].0 == what {
        from
    } else {
        place_of(seen, what, from + 1)
    }
}

/// The list after `what` has been met once more. Sixteen names are kept, the
/// first ones; a count stays at its greatest value.
pub open spec fn noted(seen: Seq<(Seq<char>, u32)>, what: Seq<char>) -> Seq<(Seq<char>, u32)> {
    let at = place_of(seen, what, 0);
    if at < seen.len() {
        seen.update(at, (what, seen[at].1.saturating_add(1)))
    } else if seen.len() < 16 {
        seen.push((what, 1u32))
    } else {
        seen
    }
}

/// The list with the most common first; where two are as common, the one that
/// was met first.
pub open spec fn by_count(seen: Seq<(Seq<char>, u32)>) -> Seq<(Seq<char>, u32)>
    decreases seen.len(),
{
    if seen.len() == 0 {
        Seq::empty()
    } else {
        let rest = by_count(seen.drop_last());
        let at = rank(rest, seen.last().1, 0);
        rest.insert(at, seen.last())
    }
}

/// How many of these, from the front, are at least as common.
pub open spec fn rank(ordered: Seq<(Seq<char>, u32)>, count: u32, from: int) -> int
    decreases ordered.len() - from,
{
    if from >= ordered.len() || ordered[from].1 < count {
        from
    } else {
        rank(ordered, count, from + 1)
    }
}

/// No name is in the list twice, and each was met at least once.
pub open spec fn each_once(seen: Seq<(Seq<char>, u32)>) -> bool {
    &&& forall|i: int, j: int|
        0 <= i < j < seen.len() ==> (#[trigger] seen[i]).0 != (#[trigger] seen[j]).0
    &&& forall|i: int| 0 <= i < seen.len() ==> (#[trigger] seen[i]).1 >= 1
}

// --- the screen -------------------------------------------------------------------

impl ScreenModel {
    /// A blank screen.
    pub open spec fn blank(columns: usize, rows: usize) -> ScreenModel {
        let columns: usize = if columns < 1 {
            1
        } else {
            columns
        };
        let rows: usize = if rows < 1 {
            1
        } else {
            rows
        };
        ScreenModel {
            columns,
            rows,
            lines: blank_lines(rows as int, columns as int, cell::plain()),
            stowed: None,
            stowed_history: Seq::empty(),
            scrollback: Seq::empty(),
            scrollback_limit: 10_000,
            cursor: cell::home(),
            saved: None,
            pen: cell::plain(),
            region: (0, (rows - 1) as usize),
            tab_stops: default_stops(columns as int),
            modes: cell::first_modes(),
            title: Seq::empty(),
            replies: Seq::empty(),
            unhandled: Seq::empty(),
            revision: 0,
            history_origin: 0,
            capture: None,
            file_capture: None,
        }
    }

    /// What holds of every screen.
    pub open spec fn wf(self) -> bool {
        &&& self.columns >= 1
        &&& self.rows >= 1
        &&& grid(self.lines, self.rows as int, self.columns as int)
        &&& match self.stowed {
            Some(lines) => grid(lines, self.rows as int, self.columns as int),
            None => true,
        }
        &&& self.modes.alternate_screen == (self.stowed is Some)
        &&& self.scrollback_limit <= 1_000_000
        &&& self.history().len() <= self.scrollback_limit
        &&& match self.stowed {
            Some(_) => self.scrollback.len() == 0,
            None => self.stowed_history.len() == 0,
        }
        &&& self.cursor.row < self.rows
        &&& self.cursor.column < self.columns
        &&& self.region.0 <= self.region.1 < self.rows
        &&& self.tab_stops.len() == self.columns
        &&& self.unhandled.len() <= 16
        &&& each_once(self.unhandled)
    }

    /// Every row that scrolled off the primary screen and is kept, oldest first:
    /// while the alternate screen is showing, it is held with the screen.
    pub open spec fn history(self) -> Seq<LineModel> {
        self.stowed_history + self.scrollback
    }

    /// Something visible has changed.
    pub open spec fn touch(self) -> ScreenModel {
        ScreenModel { revision: next_revision(self.revision), ..self }
    }

    pub open spec fn row_text(self, row: int) -> Seq<char> {
        if 0 <= row < self.lines.len() {
            self.lines[row].text()
        } else {
            Seq::empty()
        }
    }

    pub open spec fn start_capture(self) -> ScreenModel {
        ScreenModel {
            capture: Some(
                CaptureModel::from(self.cursor.row, self.row_text(self.cursor.row as int)),
            ),
            ..self
        }
    }

    pub open spec fn start_file_capture(self) -> ScreenModel {
        ScreenModel {
            file_capture: Some(
                CaptureModel::from(self.cursor.row, self.row_text(self.cursor.row as int)),
            ),
            ..self
        }
    }

    /// The screen with another history, held where it is held now.
    pub open spec fn with_history(self, rows: Seq<LineModel>) -> ScreenModel {
        if self.stowed is Some {
            ScreenModel { stowed_history: rows, scrollback: Seq::empty(), ..self }
        } else {
            ScreenModel { stowed_history: Seq::empty(), scrollback: rows, ..self }
        }
    }

    /// The oldest rows leave until the limit is met.
    pub open spec fn trim_history(self) -> ScreenModel {
        let out = excess(self.history().len() as int, self.scrollback_limit as int);
        ScreenModel {
            history_origin: counted(self.history_origin, out),
            ..self.with_history(self.history().skip(out))
        }
    }

    pub open spec fn set_history_limit(self, limit: usize) -> ScreenModel {
        let limit = at_most(limit as int, 1_000_000) as usize;
        if self.scrollback_limit == limit {
            self
        } else {
            ScreenModel { scrollback_limit: limit, ..self }.trim_history().touch()
        }
    }

    pub open spec fn clear_history(self) -> ScreenModel {
        ScreenModel {
            history_origin: counted(self.history_origin, self.history().len() as int),
            ..self.with_history(Seq::empty())
        }.touch()
    }

    pub open spec fn note_unhandled(self, what: Seq<char>) -> ScreenModel {
        ScreenModel { unhandled: noted(self.unhandled, what), ..self }
    }

    /// The character is written with the pen, on the next line where this one
    /// is full.
    pub open spec fn print(self, text: char) -> ScreenModel {
        if cell::width_of(text) == 0 {
            self
        } else if self.cursor.pending_wrap || self.columns - self.cursor.column < cell::width_of(text) {
            self.wrap_line().put(text)
        } else {
            self.put(text)
        }
    }

    /// The character is written where the cursor is.
    pub open spec fn put(self, text: char) -> ScreenModel {
        let row = self.cursor.row as int;
        let end = self.cursor.column + cell::width_of(text);
        ScreenModel {
            capture: touching(self.capture, self.cursor.row),
            file_capture: touching(self.file_capture, self.cursor.row),
            lines: self.lines.update(
                row,
                LineModel {
                    cells: written(
                        self.lines[row].cells,
                        self.cursor.column as int,
                        text,
                        self.pen,
                    ),
                    wrapped: self.lines[row].wrapped,
                },
            ),
            cursor: if end >= self.columns {
                Cursor {
                    row: self.cursor.row,
                    column: (self.columns - 1) as usize,
                    pending_wrap: true,
                }
            } else {
                Cursor { column: end as usize, ..self.cursor }
            },
            ..self
        }.touch()
    }

    /// The row runs on in the next one.
    pub open spec fn wrap_line(self) -> ScreenModel {
        self.running_on().line_feed()
    }

    pub open spec fn running_on(self) -> ScreenModel {
        let row = self.cursor.row as int;
        ScreenModel {
            lines: self.lines.update(row, wrapped_line(self.lines[row])),
            cursor: Cursor { row: self.cursor.row, column: 0, pending_wrap: false },
            ..self
        }
    }

    pub open spec fn capture_line(self, row: usize, changed_only: bool) -> ScreenModel {
        if self.stowed is None {
            ScreenModel {
                capture: commit(self.capture, row, changed_only, self.lines[row as int]),
                file_capture: commit(self.file_capture, row, changed_only, self.lines[row as int]),
                ..self
            }
        } else {
            self
        }
    }

    pub open spec fn line_feed(self) -> ScreenModel {
        let seen = self.capture_line(self.cursor.row, false);
        let moved = if self.cursor.row == self.region.1 {
            seen.scroll_up(1)
        } else if self.cursor.row + 1 < self.rows {
            ScreenModel {
                cursor: Cursor { row: (self.cursor.row + 1) as usize, ..self.cursor },
                ..seen
            }
        } else {
            seen
        };
        ScreenModel { cursor: Cursor { pending_wrap: false, ..moved.cursor }, ..moved }.touch()
    }

    pub open spec fn reverse_index(self) -> ScreenModel {
        if self.cursor.row == self.region.0 {
            self.scroll_down(1).touch()
        } else if self.cursor.row > 0 {
            ScreenModel {
                cursor: Cursor { row: (self.cursor.row - 1) as usize, ..self.cursor },
                ..self
            }.touch()
        } else {
            self.touch()
        }
    }

    pub open spec fn carriage_return(self) -> ScreenModel {
        ScreenModel {
            cursor: Cursor { row: self.cursor.row, column: 0, pending_wrap: false },
            ..self
        }.touch()
    }

    pub open spec fn backspace(self) -> ScreenModel {
        if self.cursor.pending_wrap {
            ScreenModel { cursor: Cursor { pending_wrap: false, ..self.cursor }, ..self }.touch()
        } else if self.cursor.column > 0 {
            ScreenModel {
                cursor: Cursor { column: (self.cursor.column - 1) as usize, ..self.cursor },
                ..self
            }.touch()
        } else {
            self.touch()
        }
    }

    pub open spec fn tab(self) -> ScreenModel {
        ScreenModel {
            cursor: Cursor {
                row: self.cursor.row,
                column: clamped(
                    next_stop(self.tab_stops, self.cursor.column + 1),
                    self.columns - 1,
                ),
                pending_wrap: false,
            },
            ..self
        }.touch()
    }

    /// Put the cursor somewhere on the screen. Rows left downwards are left for
    /// good.
    pub open spec fn move_to(self, row: int, column: int) -> ScreenModel {
        let row = clamped(row, self.rows - 1);
        ScreenModel {
            cursor: Cursor { row, column: clamped(column, self.columns - 1), pending_wrap: false },
            ..self.leaving_rows(row as int)
        }.touch()
    }

    /// The rows from the cursor's down to `row` have been left.
    pub open spec fn leaving_rows(self, row: int) -> ScreenModel {
        if self.stowed is None {
            ScreenModel {
                capture: commit_rows(self.capture, self.lines, self.cursor.row as int, row),
                file_capture: commit_rows(
                    self.file_capture,
                    self.lines,
                    self.cursor.row as int,
                    row,
                ),
                ..self
            }
        } else {
            self
        }
    }

    pub open spec fn move_by(self, rows: int, columns: int) -> ScreenModel {
        self.move_to(self.cursor.row + rows, self.cursor.column + columns)
    }

    /// Move `count` lines out of the top of the scroll region. Only lines that
    /// leave the top of the whole primary screen are history.
    pub open spec fn scroll_up(self, count: int) -> ScreenModel {
        let (top, bottom) = self.region;
        let by = at_most(count, bottom - top + 1);
        let raised = ScreenModel {
            capture: scrolled(self.capture, top, bottom, by as usize),
            file_capture: scrolled(self.file_capture, top, bottom, by as usize),
            lines: raised(
                self.lines,
                top as int,
                bottom as int,
                by,
                self.columns as int,
                erased(self.pen),
            ),
            ..self
        };
        if top == 0 && self.stowed is None {
            ScreenModel {
                scrollback: self.scrollback + self.lines.take(by),
                ..raised
            }.trim_history().touch()
        } else {
            raised.touch()
        }
    }

    pub open spec fn scroll_down(self, count: int) -> ScreenModel {
        let (top, bottom) = self.region;
        ScreenModel {
            lines: lowered(
                self.lines,
                top as int,
                bottom as int,
                at_most(count, bottom - top + 1),
                self.columns as int,
                erased(self.pen),
            ),
            ..self
        }.touch()
    }

    /// The cells `from..to` of the cursor's row cleared.
    pub open spec fn clear_cells(self, from: int, to: int) -> ScreenModel {
        let row = self.cursor.row as int;
        ScreenModel {
            lines: self.lines.update(
                row,
                LineModel {
                    cells: cleared(self.lines[row].cells, from, to, erased(self.pen)),
                    wrapped: self.lines[row].wrapped,
                },
            ),
            ..self
        }
    }

    /// From the cursor (0), up to and with the cursor (1), or the whole row (2).
    pub open spec fn erase_in_line(self, mode: u16) -> ScreenModel {
        if mode == 0 {
            self.clear_cells(self.cursor.column as int, self.columns as int).touch()
        } else if mode == 1 {
            self.clear_cells(0, self.cursor.column + 1).touch()
        } else if mode == 2 {
            self.clear_cells(0, self.columns as int).touch()
        } else {
            self.touch()
        }
    }

    /// The rows `from..to` cleared.
    pub open spec fn clear_rows(self, from: int, to: int) -> ScreenModel {
        ScreenModel {
            lines: Seq::new(
                self.lines.len(),
                |row: int|
                    if from <= row < to {
                        cell::blank_line(self.columns as int, erased(self.pen))
                    } else {
                        self.lines[row]
                    },
            ),
            ..self
        }
    }

    /// From the cursor (0), up to and with the cursor (1), the whole screen (2)
    /// or the history (3). The cursor does not move.
    pub open spec fn erase_in_display(self, mode: u16) -> ScreenModel {
        if mode == 0 {
            self.erase_in_line(0).clear_rows(self.cursor.row + 1, self.rows as int).touch()
        } else if mode == 1 {
            self.erase_in_line(1).clear_rows(0, self.cursor.row as int).touch()
        } else if mode == 2 {
            self.clear_rows(0, self.rows as int).touch()
        } else if mode == 3 {
            self.clear_history().touch()
        } else {
            self.touch()
        }
    }

    pub open spec fn erase_cells(self, count: int) -> ScreenModel {
        self.clear_cells(
            self.cursor.column as int,
            at_most(self.cursor.column + at_least_one(count), self.columns as int),
        ).touch()
    }

    /// How many cells, at most, an edit at the cursor moves.
    pub open spec fn cells_here(self, count: int) -> int {
        at_most(at_least_one(count), self.columns - self.cursor.column)
    }

    pub open spec fn insert_cells(self, count: int) -> ScreenModel {
        let row = self.cursor.row as int;
        ScreenModel {
            lines: self.lines.update(
                row,
                LineModel {
                    cells: opened(
                        self.lines[row].cells,
                        self.cursor.column as int,
                        self.cells_here(count),
                        erased(self.pen),
                    ),
                    wrapped: self.lines[row].wrapped,
                },
            ),
            ..self
        }.touch()
    }

    pub open spec fn delete_cells(self, count: int) -> ScreenModel {
        let row = self.cursor.row as int;
        ScreenModel {
            lines: self.lines.update(
                row,
                LineModel {
                    cells: closed_up(
                        self.lines[row].cells,
                        self.cursor.column as int,
                        self.cells_here(count),
                        erased(self.pen),
                    ),
                    wrapped: self.lines[row].wrapped,
                },
            ),
            ..self
        }.touch()
    }

    pub open spec fn in_region(self) -> bool {
        self.region.0 <= self.cursor.row <= self.region.1
    }

    /// How many rows, at most, an edit at the cursor moves.
    pub open spec fn rows_here(self, count: int) -> int {
        at_most(at_least_one(count), self.region.1 - self.cursor.row + 1)
    }

    pub open spec fn insert_lines(self, count: int) -> ScreenModel {
        if self.in_region() {
            ScreenModel {
                lines: lowered(
                    self.lines,
                    self.cursor.row as int,
                    self.region.1 as int,
                    self.rows_here(count),
                    self.columns as int,
                    erased(self.pen),
                ),
                ..self
            }.touch()
        } else {
            self
        }
    }

    pub open spec fn delete_lines(self, count: int) -> ScreenModel {
        if self.in_region() {
            ScreenModel {
                lines: raised(
                    self.lines,
                    self.cursor.row as int,
                    self.region.1 as int,
                    self.rows_here(count),
                    self.columns as int,
                    erased(self.pen),
                ),
                ..self
            }.touch()
        } else {
            self
        }
    }

    pub open spec fn set_region(self, top: int, bottom: int) -> ScreenModel {
        let bottom = at_most(bottom, self.rows - 1);
        if top < bottom {
            ScreenModel { region: (top as usize, bottom as usize), ..self }.move_to(0, 0)
        } else {
            self
        }
    }

    pub open spec fn save_cursor(self) -> ScreenModel {
        ScreenModel { saved: Some(SavedCursor { cursor: self.cursor, pen: self.pen }), ..self }
    }

    pub open spec fn restore_cursor(self) -> ScreenModel {
        match self.saved {
            Some(saved) => ScreenModel {
                cursor: Cursor {
                    row: clamped(saved.cursor.row as int, self.rows - 1),
                    column: clamped(saved.cursor.column as int, self.columns - 1),
                    pending_wrap: saved.cursor.pending_wrap,
                },
                pen: saved.pen,
                ..self
            }.touch(),
            None => self,
        }
    }

    /// Swap in the alternate screen, or give the first one back. The alternate
    /// screen has no history.
    pub open spec fn use_alternate_screen(self, alternate: bool) -> ScreenModel {
        if alternate == (self.stowed is Some) {
            self
        } else if alternate {
            let kept = self.save_cursor();
            ScreenModel {
                stowed: Some(self.lines),
                stowed_history: self.history(),
                scrollback: Seq::empty(),
                lines: blank_lines(self.rows as int, self.columns as int, cell::plain()),
                cursor: cell::home(),
                modes: Modes { alternate_screen: true, ..self.modes },
                ..kept
            }.touch()
        } else {
            let back = ScreenModel {
                lines: self.stowed->Some_0,
                stowed: None,
                stowed_history: Seq::empty(),
                scrollback: self.history(),
                ..self
            }.restore_cursor();
            ScreenModel {
                modes: Modes { alternate_screen: false, ..self.modes },
                ..back
            }.touch()
        }
    }

    /// How many rows leave the top when only `rows` are left: those for which
    /// there is no room above the last one that shows something.
    pub open spec fn leaving(self, rows: int) -> int {
        excess(self.last_row() + 1, rows)
    }

    /// [`ScreenModel::leaving`], of the screen that is held.
    pub open spec fn leaving_stowed(self, rows: int) -> int {
        match self.stowed {
            Some(lines) => excess(last_written(lines, lines.len() as int) + 1, rows),
            None => 0,
        }
    }

    /// Give the screen a new size. Nothing is wrapped anew; what shows something
    /// is not dropped from the bottom: the top goes into the history instead.
    pub open spec fn resize(self, columns: usize, rows: usize) -> ScreenModel {
        let columns: usize = if columns < 1 {
            1
        } else {
            columns
        };
        let rows: usize = if rows < 1 {
            1
        } else {
            rows
        };
        if columns == self.columns && rows == self.rows {
            self
        } else {
            let top = self.leaving(rows as int);
            let held = self.leaving_stowed(rows as int);
            let wide = refitted_all(self.lines, columns as int);
            ScreenModel {
                columns,
                rows,
                lines: fitted(wide.skip(top), rows as int, columns as int),
                scrollback: if self.stowed is None {
                    self.scrollback + wide.take(top)
                } else {
                    self.scrollback
                },
                stowed: match self.stowed {
                    Some(lines) => Some(
                        fitted(
                            refitted_all(lines, columns as int).skip(held),
                            rows as int,
                            columns as int,
                        ),
                    ),
                    None => None,
                },
                stowed_history: match self.stowed {
                    Some(lines) => self.stowed_history + refitted_all(lines, columns as int).take(
                        held,
                    ),
                    None => self.stowed_history,
                },
                saved: lifted_cursor(self.saved, held),
                cursor: Cursor {
                    row: excess(self.cursor.row as int, top) as usize,
                    column: clamped(self.cursor.column as int, columns - 1),
                    pending_wrap: false,
                },
                capture: if top > 0 {
                    cut(self.capture, top)
                } else {
                    self.capture
                },
                file_capture: if top > 0 {
                    cut(self.file_capture, top)
                } else {
                    self.file_capture
                },
                tab_stops: default_stops(columns as int),
                region: (0, (rows - 1) as usize),
                ..self
            }.trim_history().touch()
        }
    }

    /// Start again: only the history and what is being collected stay, and the
    /// revision goes on.
    pub open spec fn reset(self) -> ScreenModel {
        ScreenModel {
            scrollback: self.history(),
            scrollback_limit: self.scrollback_limit,
            history_origin: self.history_origin,
            capture: restarted(self.capture),
            file_capture: restarted(self.file_capture),
            revision: self.revision,
            ..ScreenModel::blank(self.columns, self.rows)
        }.touch()
    }

    pub open spec fn select_graphic_rendition(self, groups: Seq<Seq<u16>>) -> ScreenModel {
        ScreenModel {
            pen: if groups.len() == 0 {
                cell::plain()
            } else {
                rendition(self.pen, groups, 0)
            },
            ..self
        }
    }

    /// The cursor is shown or hidden.
    pub open spec fn show_cursor(self, on: bool) -> ScreenModel {
        if on == self.modes.cursor_visible {
            self
        } else {
            ScreenModel { modes: Modes { cursor_visible: on, ..self.modes }, ..self }.touch()
        }
    }

    pub open spec fn set_mode(self, private: bool, mode: u16, on: bool) -> ScreenModel {
        if !private {
            self
        } else if mode == 1 {
            ScreenModel { modes: Modes { application_cursor_keys: on, ..self.modes }, ..self }
        } else if mode == 25 {
            self.show_cursor(on)
        } else if mode == 1000 || mode == 1002 || mode == 1003 || mode == 1006 {
            ScreenModel { modes: Modes { mouse_tracking: on, ..self.modes }, ..self }
        } else if mode == 1004 {
            ScreenModel { modes: Modes { focus_events: on, ..self.modes }, ..self }
        } else if mode == 1049 {
            self.use_alternate_screen(on)
        } else if mode == 2004 {
            ScreenModel { modes: Modes { bracketed_paste: on, ..self.modes }, ..self }
        } else if mode == 9001 {
            ScreenModel { modes: Modes { win32_input: on, ..self.modes }, ..self }
        } else {
            self.note_unhandled(
                seq!['C', 'S', 'I', ' ', '?'] + text::decimal(mode as nat) + seq![
                    if on {
                        'h'
                    } else {
                        'l'
                    },
                ],
            )
        }
    }

    /// Modes are set one after the other.
    pub open spec fn set_modes(self, private: bool, groups: Seq<Seq<u16>>, on: bool) -> ScreenModel
        decreases groups.len(),
    {
        if groups.len() == 0 {
            self
        } else {
            let before = self.set_modes(private, groups.drop_last(), on);
            if groups.last().len() > 0 {
                before.set_mode(private, groups.last()[0], on)
            } else {
                before
            }
        }
    }

    pub open spec fn reply(self, answer: Seq<u8>) -> ScreenModel {
        ScreenModel { replies: self.replies + answer, ..self }
    }

    /// An answer to "are you there" (5) and to "where is the cursor" (6).
    pub open spec fn report(self, kind: u16) -> ScreenModel {
        if kind == 5 {
            self.reply(seq![0x1bu8, 0x5b, 0x30, 0x6e])
        } else if kind == 6 {
            self.reply(
                seq![0x1bu8, 0x5b] + digits((self.cursor.row + 1) as nat) + seq![0x3bu8] + digits(
                    (self.cursor.column + 1) as nat,
                ) + seq![0x52u8],
            )
        } else {
            self
        }
    }

    /// A VT102 with no options.
    pub open spec fn identify(self) -> ScreenModel {
        self.reply(seq![0x1bu8, 0x5b, 0x3f, 0x36, 0x63])
    }

    pub open spec fn clear_stop(self, all: bool) -> ScreenModel {
        ScreenModel {
            tab_stops: if all {
                Seq::new(self.tab_stops.len(), |column: int| false)
            } else {
                self.tab_stops.update(self.cursor.column as int, false)
            },
            ..self
        }
    }

    pub open spec fn set_title(self, title: Seq<char>) -> ScreenModel {
        ScreenModel { title, ..self }.touch()
    }

    /// Retained output: the history and the screen down to the cursor or the
    /// last row with text, wrapping joined and line breaks kept.
    pub open spec fn retained_text(self) -> Seq<char> {
        let all = self.history() + self.lines.take(self.last_row() + 1);
        let text = joined(all);
        if text.len() > 0 && text.last() == '\n' {
            text.drop_last()
        } else {
            text
        }
    }

    /// The lowest row that holds text, or the cursor's where that is lower.
    pub open spec fn last_row(self) -> int {
        let last = last_written(self.lines, self.lines.len() as int);
        if last > self.cursor.row {
            last
        } else {
            self.cursor.row as int
        }
    }
}

/// The lowest of the first `rows` rows that holds text, or -1.
pub open spec fn last_written(lines: Seq<LineModel>, rows: int) -> int
    decreases rows,
{
    if rows <= 0 {
        -1
    } else if lines[rows - 1].text().len() > 0 {
        rows - 1
    } else {
        last_written(lines, rows - 1)
    }
}

/// The text of these rows, with a line break after each that does not run on.
pub open spec fn joined(lines: Seq<LineModel>) -> Seq<char>
    decreases lines.len(),
{
    if lines.len() == 0 {
        Seq::empty()
    } else {
        let before = joined(lines.drop_last()) + lines.last().logical_text();
        if lines.last().wrapped {
            before
        } else {
            before.push('\n')
        }
    }
}

/// A number in decimal, as bytes.
pub open spec fn digits(number: nat) -> Seq<u8>
    decreases number,
{
    if number < 10 {
        seq![(48 + number) as u8]
    } else {
        digits(number / 10).push((48 + number % 10) as u8)
    }
}

/// The rows of a list of lines.
pub open spec fn lines_of(lines: Seq<Line>) -> Seq<LineModel> {
    lines.map_values(|line: Line| line@)
}

/// The numbers of a list of parameters.
pub open spec fn groups_of(groups: Seq<Vec<u16>>) -> Seq<Seq<u16>> {
    groups.map_values(|group: Vec<u16>| group@)
}

/// The names and counts of a list of them.
pub open spec fn names_of(seen: Seq<(String, u32)>) -> Seq<(Seq<char>, u32)> {
    seen.map_values(|one: (String, u32)| (one.0@, one.1))
}

/// Every full-width character has its spacer behind it, and every spacer its
/// character before it.
#[verifier::opaque]
pub open spec fn paired(cells: Seq<Cell>) -> bool {
    &&& forall|at: int|
        #![trigger cells[at]]
        0 <= at < cells.len() && cells[at].trailing ==> at > 0 && !cells[at - 1].trailing
            && cell::width_of(cells[at - 1].text) == 2
    &&& forall|at: int|
        #![trigger cells[at]]
        0 <= at < cells.len() && !cells[at].trailing && cell::width_of(cells[at].text) == 2 ==> at
            + 1 < cells.len() && cells[at + 1].trailing
}

/// `rows` rows, each `columns` wide, and none with half a character.
pub open spec fn grid(lines: Seq<LineModel>, rows: int, columns: int) -> bool {
    &&& lines.len() == rows
    &&& forall|row: int|
        0 <= row < rows ==> (#[trigger] lines[row]).cells.len() == columns && paired(
            lines[row].cells,
        )
}

/// A row keeps its place when rows are made wider or narrower, and every row
/// has the new width.
pub proof fn refitted_is_grid(lines: Seq<LineModel>, skipped: int, rows: int, columns: int)
    requires
        0 <= skipped <= lines.len(),
        rows >= 0,
        columns >= 0,
        forall|row: int| 0 <= row < lines.len() ==> paired((#[trigger] lines[row]).cells),
    ensures
        grid(
            fitted(refitted_all(lines, columns).skip(skipped), rows, columns),
            rows,
            columns,
        ),
{
    halves::blanks_are_paired();
    let wide = refitted_all(lines, columns).skip(skipped);
    let out = fitted(wide, rows, columns);
    assert forall|row: int| 0 <= row < rows implies (#[trigger] out[row]).cells.len() == columns
        && paired(out[row].cells) by {
        if row < wide.len() {
            assert(out[row] == refitted(lines[skipped + row], columns));
            halves::refitting_is_paired(lines[skipped + row].cells, columns);
        } else {
            assert(out[row] == cell::blank_line(columns, cell::plain()));
        }
    }
}

/// The last row with text is one of the rows.
pub proof fn last_written_is_a_row(lines: Seq<LineModel>, rows: int)
    requires
        0 <= rows <= lines.len(),
    ensures
        -1 <= last_written(lines, rows) < rows,
        last_written(lines, rows) >= 0 ==> lines[last_written(lines, rows)].text().len() > 0,
        forall|row: int|
            last_written(lines, rows) < row < rows ==> (#[trigger] lines[row]).text().len() == 0,
    decreases rows,
{
    if rows > 0 {
        last_written_is_a_row(lines, rows - 1);
    }
}

/// A screen of a new size is well formed.
pub proof fn resized_is_wf(screen: ScreenModel, columns: usize, rows: usize)
    requires
        screen.wf(),
    ensures
        screen.resize(columns, rows).wf(),
{
    let columns: usize = if columns < 1 {
        1
    } else {
        columns
    };
    let rows: usize = if rows < 1 {
        1
    } else {
        rows
    };
    if columns != screen.columns || rows != screen.rows {
        let top = screen.leaving(rows as int);
        last_written_is_a_row(screen.lines, screen.lines.len() as int);
        refitted_is_grid(screen.lines, top, rows as int, columns as int);
        if let Some(lines) = screen.stowed {
            last_written_is_a_row(lines, lines.len() as int);
            refitted_is_grid(
                lines,
                screen.leaving_stowed(rows as int),
                rows as int,
                columns as int,
            );
        }
    }
}

} // verus!
