//! Moving about the screen, and giving it a new size.
use crate::terminal::cell::{self, character_width, Cursor};
use crate::terminal::model;
use crate::terminal::screen::Screen;
use vstd::prelude::*;

verus! {

/// `at` moved by `by`, kept within `0..=most`.
fn shifted(at: usize, by: isize, most: usize) -> (out: usize)
    requires
        at <= most,
    ensures
        out == model::clamped(at + by, most as int),
{
    if by >= 0 {
        let more: usize = by as usize;
        if more > most - at {
            most
        } else {
            at + more
        }
    } else {
        let less: usize = (-(by + 1)) as usize;
        if at <= less {
            0
        } else {
            at - less - 1
        }
    }
}

impl Screen {
    /// Writes a character; a combining mark joins nothing and is skipped.
    pub(crate) fn print(&mut self, text: char)
        requires
            old(self)@.wf(),
            old(self)@.columns >= 2 || cell::width_of(text) < 2,
        ensures
            final(self)@ == old(self)@.print(text),
            final(self)@.wf(),
    {
        let width: usize = character_width(text);
        if width == 0 {
            return;
        }
        if self.cursor().pending_wrap || self.columns() - self.cursor().column < width {
            self.wrap_line();
        }
        self.put(text, width);
    }

    fn wrap_line(&mut self)
        requires
            old(self)@.wf(),
        ensures
            final(self)@ == old(self)@.wrap_line(),
            final(self)@.wf(),
            final(self)@.cursor.column == 0,
            !final(self)@.cursor.pending_wrap,
            final(self)@.columns == old(self)@.columns,
    {
        self.run_on();
        self.line_feed();
    }

    pub(crate) fn line_feed(&mut self)
        requires
            old(self)@.wf(),
        ensures
            final(self)@ == old(self)@.line_feed(),
            final(self)@.wf(),
    {
        let at = self.cursor();
        self.capture_line(at.row, false);
        if at.row == self.region().1 {
            self.scroll_up(1);
        } else if self.rows() - at.row > 1 {
            self.set_cursor(Cursor { row: at.row + 1, ..at });
        }
        let now = self.cursor();
        self.set_cursor(Cursor { pending_wrap: false, ..now });
        self.touch();
    }

    pub(crate) fn reverse_index(&mut self)
        requires
            old(self)@.wf(),
        ensures
            final(self)@ == old(self)@.reverse_index(),
            final(self)@.wf(),
    {
        let at = self.cursor();
        if at.row == self.region().0 {
            self.scroll_down(1);
        } else if at.row > 0 {
            self.set_cursor(Cursor { row: at.row - 1, ..at });
        }
        self.touch();
    }

    pub(crate) fn move_to(&mut self, row: usize, column: usize)
        requires
            old(self)@.wf(),
        ensures
            final(self)@ == old(self)@.move_to(row as int, column as int),
            final(self)@.wf(),
    {
        let row: usize = if row > self.rows() - 1 {
            self.rows() - 1
        } else {
            row
        };
        let ghost first = self@;
        if self.collects() {
            let mut leaving: usize = self.cursor().row;
            while leaving < row
                invariant
                    first.wf(),
                    self@.wf(),
                    row < first.rows,
                    first.cursor.row <= leaving,
                    first.cursor.row <= row ==> leaving <= row,
                    first.cursor.row > row ==> leaving == first.cursor.row,
                    self@ == first.leaving_rows(leaving as int),
                decreases row - leaving,
            {
                self.capture_line(leaving, true);
                leaving += 1;
                assert(self@ == first.leaving_rows(leaving as int));
            }
            assert(self@ == first.leaving_rows(row as int));
        }
        assert(self@ == first.leaving_rows(row as int));
        let column: usize = if column > self.columns() - 1 {
            self.columns() - 1
        } else {
            column
        };
        self.set_cursor(Cursor { row, column, pending_wrap: false });
        self.touch();
    }

    pub(crate) fn move_by(&mut self, rows: isize, columns: isize)
        requires
            old(self)@.wf(),
        ensures
            final(self)@ == old(self)@.move_by(rows as int, columns as int),
            final(self)@.wf(),
    {
        let row: usize = shifted(self.cursor().row, rows, self.rows() - 1);
        let column: usize = shifted(self.cursor().column, columns, self.columns() - 1);
        self.move_to(row, column);
    }

    pub(crate) fn set_region(&mut self, top: usize, bottom: usize)
        requires
            old(self)@.wf(),
        ensures
            final(self)@ == old(self)@.set_region(top as int, bottom as int),
            final(self)@.wf(),
    {
        let bottom: usize = if bottom > self.rows() - 1 {
            self.rows() - 1
        } else {
            bottom
        };
        if top < bottom {
            self.set_region_to((top, bottom));
            self.move_to(0, 0);
        }
    }

    /// Give the screen a new size.
    ///
    /// Nothing is wrapped anew. What a resize must not do is lose the rows the
    /// reader can see, so shrinking pushes the top into the scrollback rather
    /// than dropping the bottom.
    pub fn resize(&mut self, columns: usize, rows: usize)
        requires
            old(self)@.wf(),
        ensures
            final(self)@ == old(self)@.resize(columns, rows),
            final(self)@.wf(),
    {
        let ghost first = self@;
        let columns: usize = if columns < 1 {
            1
        } else {
            columns
        };
        let rows: usize = if rows < 1 {
            1
        } else {
            rows
        };
        if columns == self.columns() && rows == self.rows() {
            return;
        }
        let at = self.cursor();
        let last: usize = self.last_row();
        let top: usize = if last >= rows {
            last - rows + 1
        } else {
            0
        };
        self.resize_lines(columns, rows, top);
        self.resize_stowed(columns, rows);
        self.cut_captures(top);
        self.set_size(columns, rows);
        let column: usize = if at.column > columns - 1 {
            columns - 1
        } else {
            at.column
        };
        let row: usize = if at.row > top {
            at.row - top
        } else {
            0
        };
        self.set_cursor(Cursor { row, column, pending_wrap: false });
        self.trim_history();
        self.touch();
        proof {
            model::resized_is_wf(first, columns, rows);
        }
        assert(self@ == first.resize(columns, rows));
    }
}

} // verus!
