//! The screen, its scrollback, and everything the stream has said about them.
use crate::terminal::capture::CapturedOutput;
use crate::terminal::cell::{self, character_width, Attrs, Cell, Cursor, Line, Modes};
use crate::terminal::grid;
use crate::terminal::halves;
use crate::terminal::model::{self, CaptureModel, SavedCursor, ScreenModel};
use crate::text::{chars_of, same_text, string_of};
use std::collections::VecDeque;
use vstd::prelude::*;

verus! {

/// The screen, its scrollback, and everything the stream has said about them.
#[derive(Debug)]
pub struct Screen {
    columns: usize,
    rows: usize,
    lines: Vec<Line>,
    stowed: Option<Vec<Line>>,
    stowed_history: VecDeque<Line>,
    scrollback: VecDeque<Line>,
    scrollback_limit: usize,
    cursor: Cursor,
    saved: Option<SavedCursor>,
    pen: Attrs,
    region: (usize, usize),
    tab_stops: Vec<bool>,
    modes: Modes,
    title: String,
    replies: Vec<u8>,
    unhandled: Vec<(String, u32)>,
    revision: u64,
    history_origin: u64,
    capture: Option<CapturedOutput>,
    file_capture: Option<CapturedOutput>,
}

spec fn capture_of(capture: Option<CapturedOutput>) -> Option<CaptureModel> {
    match capture {
        Some(it) => Some(it@),
        None => None,
    }
}

impl View for Screen {
    type V = ScreenModel;

    closed spec fn view(&self) -> ScreenModel {
        ScreenModel {
            columns: self.columns,
            rows: self.rows,
            lines: model::lines_of(self.lines@),
            stowed: match self.stowed {
                Some(lines) => Some(model::lines_of(lines@)),
                None => None,
            },
            stowed_history: model::lines_of(self.stowed_history@),
            scrollback: model::lines_of(self.scrollback@),
            scrollback_limit: self.scrollback_limit,
            cursor: self.cursor,
            saved: self.saved,
            pen: self.pen,
            region: self.region,
            tab_stops: self.tab_stops@,
            modes: self.modes,
            title: self.title@,
            replies: self.replies@,
            unhandled: model::names_of(self.unhandled@),
            revision: self.revision,
            history_origin: self.history_origin,
            capture: capture_of(self.capture),
            file_capture: capture_of(self.file_capture),
        }
    }
}

impl Screen {
    /// A blank screen, at least one cell large.
    pub fn new(columns: usize, rows: usize) -> (out: Self)
        ensures
            out@ == ScreenModel::blank(columns, rows),
            out@.wf(),
    {
        let columns: usize = if columns < 1 {
            1
        } else {
            columns
        };
        let rows: usize = if rows < 1 {
            1
        } else {
            rows
        };
        let out = Screen {
            columns,
            rows,
            lines: grid::blank_rows(rows, columns, Attrs::default()),
            stowed: None,
            stowed_history: VecDeque::new(),
            scrollback: VecDeque::new(),
            scrollback_limit: 10_000,
            cursor: Cursor::default(),
            saved: None,
            pen: Attrs::default(),
            region: (0, rows - 1),
            tab_stops: grid::default_stops(columns),
            modes: Modes::default(),
            title: String::new(),
            replies: Vec::new(),
            unhandled: Vec::new(),
            revision: 0,
            history_origin: 0,
            capture: None,
            file_capture: None,
        };
        proof {
            halves::blanks_are_paired();
            assert(out@.stowed_history =~= Seq::empty());
            assert(out@.scrollback =~= Seq::empty());
            assert(out@.unhandled =~= Seq::empty());
            assert(out@ == ScreenModel::blank(columns, rows));
        }
        out
    }

    pub fn columns(&self) -> (out: usize)
        ensures
            out == self@.columns,
    {
        self.columns
    }

    pub fn rows(&self) -> (out: usize)
        ensures
            out == self@.rows,
    {
        self.rows
    }

    pub fn cursor(&self) -> (out: Cursor)
        ensures
            out == self@.cursor,
    {
        self.cursor
    }

    pub fn modes(&self) -> (out: Modes)
        ensures
            out == self@.modes,
    {
        self.modes
    }

    pub fn title(&self) -> (out: &str)
        ensures
            out@ == self@.title,
    {
        self.title.as_str()
    }

    /// Bumped whenever anything visible changes, so that a pane can tell in one
    /// comparison whether it has to draw.
    pub fn revision(&self) -> (out: u64)
        ensures
            out == self@.revision,
    {
        self.revision
    }

    pub fn line(&self, row: usize) -> (out: Option<&Line>)
        ensures
            match out {
                Some(line) => row < self@.lines.len() && line@ == self@.lines[row as int],
                None => row >= self@.lines.len(),
            },
    {
        if row < self.lines.len() {
            Some(&self.lines[row])
        } else {
            None
        }
    }

    pub fn lines(&self) -> (out: &[Line])
        ensures
            model::lines_of(out@) == self@.lines,
    {
        self.lines.as_slice()
    }

    /// The rows that scrolled off the top, oldest first.
    ///
    /// Empty while the alternate screen is showing: a full-screen program that
    /// scrolls its own window must not push anything into the history of the
    /// shell session.
    pub fn scrollback(&self) -> (out: &VecDeque<Line>)
        ensures
            model::lines_of(out@) == self@.scrollback,
            self@.wf() && self@.stowed is Some ==> out@.len() == 0,
            self@.wf() && self@.stowed is None ==> model::lines_of(out@) == self@.history(),
    {
        assert(self@.stowed_history.len() == 0 ==> self@.history() =~= self@.scrollback);
        &self.scrollback
    }

    /// Total rows discarded from the scrollback, an explicit clear included.
    pub fn history_origin(&self) -> (out: u64)
        ensures
            out == self@.history_origin,
    {
        self.history_origin
    }

    /// Start collecting what is written from here on.
    pub fn start_capture(&mut self)
        ensures
            final(self)@ == old(self)@.start_capture(),
    {
        let standing = self.row_text(self.cursor.row);
        self.capture = Some(CapturedOutput::start(self.cursor.row, standing));
        assert(self@ == old(self)@.start_capture());
    }

    /// Completed logical lines and the current, still editable terminal line.
    /// Consumers replace the previous tail, avoiding duplicate prompt redraws.
    pub fn capture_update(&mut self) -> (out: Option<(String, String)>)
        ensures
            final(self)@ == (ScreenModel {
                capture: model::handed_over(old(self)@.capture),
                ..old(self)@
            }),
            match out {
                Some(told) => model::update_of(
                    old(self)@.capture,
                    old(self)@.cursor.row,
                    old(self)@.row_text(old(self)@.cursor.row as int),
                ) == Some((told.0@, told.1@)),
                None => old(self)@.capture is None,
            },
    {
        let row: usize = self.cursor.row;
        let text = self.row_text(row);
        let ghost before = self@;
        match &mut self.capture {
            Some(capture) => {
                let told = capture.update(row, text.as_str());
                proof {
                    assert(self@ == (ScreenModel {
                        capture: model::handed_over(before.capture),
                        ..before
                    }));
                }
                Some(told)
            },
            None => None,
        }
    }

    pub fn stop_capture(&mut self)
        ensures
            final(self)@ == (ScreenModel { capture: None, ..old(self)@ }),
    {
        self.capture = None;
    }

    /// Start collecting, for a file, what is written from here on.
    pub fn start_file_capture(&mut self)
        ensures
            final(self)@ == old(self)@.start_file_capture(),
    {
        let standing = self.row_text(self.cursor.row);
        self.file_capture = Some(CapturedOutput::start(self.cursor.row, standing));
        assert(self@ == old(self)@.start_file_capture());
    }

    pub fn file_capture_update(&mut self) -> (out: Option<(String, String)>)
        ensures
            final(self)@ == (ScreenModel {
                file_capture: model::handed_over(old(self)@.file_capture),
                ..old(self)@
            }),
            match out {
                Some(told) => model::update_of(
                    old(self)@.file_capture,
                    old(self)@.cursor.row,
                    old(self)@.row_text(old(self)@.cursor.row as int),
                ) == Some((told.0@, told.1@)),
                None => old(self)@.file_capture is None,
            },
    {
        let row: usize = self.cursor.row;
        let text = self.row_text(row);
        let ghost before = self@;
        match &mut self.file_capture {
            Some(capture) => {
                let told = capture.update(row, text.as_str());
                proof {
                    assert(self@ == (ScreenModel {
                        file_capture: model::handed_over(before.file_capture),
                        ..before
                    }));
                }
                Some(told)
            },
            None => None,
        }
    }

    pub fn stop_file_capture(&mut self)
        ensures
            final(self)@ == (ScreenModel { file_capture: None, ..old(self)@ }),
    {
        self.file_capture = None;
    }

    pub(crate) fn trim_history(&mut self)
        requires
            old(self)@.stowed is Some ==> old(self)@.scrollback.len() == 0,
            old(self)@.stowed is None ==> old(self)@.stowed_history.len() == 0,
        ensures
            final(self)@ == old(self)@.trim_history(),
    {
        let ghost first = self@;
        let limit: usize = self.scrollback_limit;
        let out: u64 = if self.stowed.is_some() {
            assert(first.history() =~= first.stowed_history);
            grid::forget(&mut self.stowed_history, limit)
        } else {
            assert(first.history() =~= first.scrollback);
            grid::forget(&mut self.scrollback, limit)
        };
        self.history_origin = self.history_origin.saturating_add(out);
        proof {
            let after = first.trim_history();
            assert(self@.stowed_history =~= after.stowed_history);
            assert(self@.scrollback =~= after.scrollback);
            assert(self@ == after);
        }
    }

    /// Keep at most this many rows of history (a million, where more are asked
    /// for).
    pub fn set_history_limit(&mut self, limit: usize)
        requires
            old(self)@.wf(),
        ensures
            final(self)@ == old(self)@.set_history_limit(limit),
            final(self)@.wf(),
    {
        let limit: usize = if limit > 1_000_000 {
            1_000_000
        } else {
            limit
        };
        if self.scrollback_limit == limit {
            return;
        }
        self.scrollback_limit = limit;
        self.trim_history();
        self.touch();
    }

    pub fn clear_history(&mut self)
        requires
            old(self)@.wf(),
        ensures
            final(self)@ == old(self)@.clear_history(),
            final(self)@.wf(),
    {
        let left: u64 = if self.stowed.is_some() {
            self.stowed_history.len() as u64
        } else {
            self.scrollback.len() as u64
        };
        assert(left == self@.history().len());
        self.history_origin = self.history_origin.saturating_add(left);
        self.stowed_history.clear();
        self.scrollback.clear();
        self.touch();
        assert(self@.stowed_history =~= Seq::empty());
        assert(self@.scrollback =~= Seq::empty());
        assert(self@ == old(self)@.clear_history());
    }

    /// Clear only the visible grid; keep the running process and its history.
    pub fn clear_screen(&mut self)
        requires
            old(self)@.wf(),
        ensures
            final(self)@ == old(self)@.erase_in_display(2),
            final(self)@.wf(),
    {
        self.erase_in_display(2);
    }

    /// What the shell asked for and has not been told yet. Send it up the pipe.
    pub fn take_replies(&mut self) -> (out: Vec<u8>)
        ensures
            out@ == old(self)@.replies,
            final(self)@ == (ScreenModel { replies: Seq::empty(), ..old(self)@ }),
    {
        let mut out: Vec<u8> = Vec::new();
        std::mem::swap(&mut out, &mut self.replies);
        assert(self@ == (ScreenModel { replies: Seq::empty(), ..old(self)@ }));
        out
    }

    /// The row as a reader sees it.
    pub fn row_text(&self, row: usize) -> (out: String)
        ensures
            out@ == self@.row_text(row as int),
    {
        if row < self.lines.len() {
            self.lines[row].text()
        } else {
            String::new()
        }
    }

    pub(crate) fn touch(&mut self)
        ensures
            final(self)@ == old(self)@.touch(),
    {
        self.revision = self.revision.wrapping_add(1);
    }

    fn erased(&self) -> (out: Attrs)
        ensures
            out == model::erased(self@.pen),
    {
        Attrs { background: self.pen.background, ..Attrs::default() }
    }
}

/// What the stream asks for.
impl Screen {
    pub(crate) fn note_unhandled(&mut self, what: String)
        requires
            old(self)@.wf(),
        ensures
            final(self)@ == old(self)@.note_unhandled(what@),
            final(self)@.wf(),
    {
        let ghost seen = self@.unhandled;
        let mut at: usize = 0;
        while at < self.unhandled.len()
            invariant
                at <= self.unhandled@.len(),
                *self == *old(self),
                old(self)@.wf(),
                seen == self@.unhandled,
                seen.len() == self.unhandled@.len(),
                model::place_of(seen, what@, 0) == model::place_of(seen, what@, at as int),
                forall|i: int| 0 <= i < at ==> (#[trigger] seen[i]).0 != what@,
            decreases self.unhandled@.len() - at,
        {
            assert(seen[at as int].0 == self.unhandled@[at as int].0@);
            if same_text(self.unhandled[at].0.as_str(), what.as_str()) {
                let count: u32 = self.unhandled[at].1.saturating_add(1);
                self.unhandled[at] = (what, count);
                assert(self@.unhandled =~= model::noted(seen, what@));
                assert(model::each_once(self@.unhandled));
                assert(self@ == old(self)@.note_unhandled(what@));
                return;
            }
            at += 1;
        }
        // A cap, so that a stream of nonsense cannot grow this without bound.
        if self.unhandled.len() < 16 {
            self.unhandled.push((what, 1));
            assert(self@.unhandled =~= model::noted(seen, what@));
            assert(model::each_once(self@.unhandled));
        }
        assert(self@ == old(self)@.note_unhandled(what@));
    }

    pub(crate) fn set_cursor(&mut self, cursor: Cursor)
        ensures
            final(self)@ == (ScreenModel { cursor, ..old(self)@ }),
    {
        self.cursor = cursor;
    }

    pub(crate) fn set_region_to(&mut self, region: (usize, usize))
        ensures
            final(self)@ == (ScreenModel { region, ..old(self)@ }),
    {
        self.region = region;
    }

    pub(crate) fn set_size(&mut self, columns: usize, rows: usize)
        requires
            rows >= 1,
        ensures
            final(self)@ == (ScreenModel {
                columns,
                rows,
                tab_stops: model::default_stops(columns as int),
                region: (0, (rows - 1) as usize),
                ..old(self)@
            }),
    {
        self.columns = columns;
        self.rows = rows;
        self.tab_stops = grid::default_stops(columns);
        self.region = (0, rows - 1);
    }

    pub(crate) fn region(&self) -> (out: (usize, usize))
        ensures
            out == self@.region,
    {
        self.region
    }

    pub(crate) fn collects(&self) -> (out: bool)
        ensures
            out == (self@.capture is Some || self@.file_capture is Some),
    {
        self.capture.is_some() || self.file_capture.is_some()
    }

    /// The row runs on in the next one.
    pub(crate) fn run_on(&mut self)
        requires
            old(self)@.wf(),
        ensures
            final(self)@ == old(self)@.running_on(),
            final(self)@.wf(),
    {
        let row: usize = self.cursor.row;
        let ghost before = self@;
        mark_wrapped(&mut self.lines[row]);
        self.cursor.column = 0;
        self.cursor.pending_wrap = false;
        proof {
            assert(self@.lines =~= before.lines.update(
                row as int,
                model::wrapped_line(before.lines[row as int]),
            ));
            assert(self@ == before.running_on());
        }
    }

    fn touch_captures(&mut self, row: usize)
        ensures
            final(self)@ == (ScreenModel {
                capture: model::touching(old(self)@.capture, row),
                file_capture: model::touching(old(self)@.file_capture, row),
                ..old(self)@
            }),
    {
        match &mut self.capture {
            Some(capture) => capture.touching(row),
            None => {},
        }
        match &mut self.file_capture {
            Some(capture) => capture.touching(row),
            None => {},
        }
    }

    pub(crate) fn put(&mut self, text: char, width: usize)
        requires
            old(self)@.wf(),
            1 <= width == cell::width_of(text),
            width <= old(self)@.columns - old(self)@.cursor.column,
        ensures
            final(self)@ == old(self)@.put(text),
            final(self)@.wf(),
    {
        let row: usize = self.cursor.row;
        let column: usize = self.cursor.column;
        self.touch_captures(row);
        let pen = self.pen;
        let attrs = self.erased();
        let ghost before = model::lines_of(self.lines@);
        assert(before[row as int].cells.len() == self.columns);
        proof {
            halves::writing_is_paired(before[row as int].cells, column as int, text, pen);
        }
        write_cell(&mut self.lines[row], column, text, width, pen, attrs);
        if width >= self.columns - column {
            self.cursor.column = self.columns - 1;
            self.cursor.pending_wrap = true;
        } else {
            self.cursor.column = column + width;
        }
        self.touch();
        assert(self@.lines =~= old(self)@.put(text).lines);
        assert(self@ == old(self)@.put(text));
    }

    pub(crate) fn capture_line(&mut self, row: usize, changed_only: bool)
        requires
            old(self)@.wf(),
            row < old(self)@.rows,
        ensures
            final(self)@ == old(self)@.capture_line(row, changed_only),
            final(self)@.wf(),
    {
        if self.stowed.is_none() {
            assert(self@.lines[row as int] == self.lines@[row as int]@);
            match &mut self.capture {
                Some(capture) => capture.commit(row, changed_only, &self.lines[row]),
                None => {},
            }
            match &mut self.file_capture {
                Some(capture) => capture.commit(row, changed_only, &self.lines[row]),
                None => {},
            }
        }
        assert(self@ == old(self)@.capture_line(row, changed_only));
    }

    pub(crate) fn carriage_return(&mut self)
        requires
            old(self)@.wf(),
        ensures
            final(self)@ == old(self)@.carriage_return(),
            final(self)@.wf(),
    {
        self.cursor.column = 0;
        self.cursor.pending_wrap = false;
        self.touch();
        assert(self@ == old(self)@.carriage_return());
    }

    pub(crate) fn backspace(&mut self)
        requires
            old(self)@.wf(),
        ensures
            final(self)@ == old(self)@.backspace(),
            final(self)@.wf(),
    {
        if self.cursor.pending_wrap {
            self.cursor.pending_wrap = false;
        } else if self.cursor.column > 0 {
            self.cursor.column = self.cursor.column - 1;
        }
        self.touch();
        assert(self@ == old(self)@.backspace());
    }

    pub(crate) fn tab(&mut self)
        requires
            old(self)@.wf(),
        ensures
            final(self)@ == old(self)@.tab(),
            final(self)@.wf(),
    {
        let mut column: usize = self.cursor.column + 1;
        while column < self.columns && !self.tab_stops[column]
            invariant
                column <= self.columns,
                *self == *old(self),
                self.tab_stops@.len() == self.columns,
                model::next_stop(self.tab_stops@, column as int) == model::next_stop(
                    self.tab_stops@,
                    self.cursor.column + 1,
                ),
            decreases self.columns - column,
        {
            column += 1;
        }
        self.cursor.column = if column > self.columns - 1 {
            self.columns - 1
        } else {
            column
        };
        self.cursor.pending_wrap = false;
        self.touch();
        assert(self@ == old(self)@.tab());
    }

    pub(crate) fn scroll_up(&mut self, count: usize)
        requires
            old(self)@.wf(),
        ensures
            final(self)@ == old(self)@.scroll_up(count as int),
            final(self)@.wf(),
    {
        let ghost first = self@;
        let (top, bottom) = self.region;
        let by: usize = if count > bottom - top + 1 {
            bottom - top + 1
        } else {
            count
        };
        match &mut self.capture {
            Some(capture) => capture.scrolled(top, bottom, by),
            None => {},
        }
        match &mut self.file_capture {
            Some(capture) => capture.scrolled(top, bottom, by),
            None => {},
        }
        let attrs = self.erased();
        proof {
            halves::blanks_are_paired();
        }
        let mut leaving = grid::raise(&mut self.lines, top, bottom, by, self.columns, attrs);
        if top == 0 && self.stowed.is_none() {
            let ghost had = self.scrollback@;
            let ghost left = leaving@;
            self.scrollback.append(&mut leaving);
            assert(model::lines_of(self.scrollback@) =~= model::lines_of(had) + model::lines_of(
                left,
            ));
            assert(first.lines.subrange(0, by as int) =~= first.lines.take(by as int));
            self.trim_history();
        }
        self.touch();
        assert(self@ == first.scroll_up(count as int));
    }

    pub(crate) fn scroll_down(&mut self, count: usize)
        requires
            old(self)@.wf(),
        ensures
            final(self)@ == old(self)@.scroll_down(count as int),
            final(self)@.wf(),
    {
        let (top, bottom) = self.region;
        let by: usize = if count > bottom - top + 1 {
            bottom - top + 1
        } else {
            count
        };
        let attrs = self.erased();
        proof {
            halves::blanks_are_paired();
        }
        grid::lower(&mut self.lines, top, bottom, by, self.columns, attrs);
        self.touch();
        assert(self@ == old(self)@.scroll_down(count as int));
    }

    pub(crate) fn erase_in_display(&mut self, mode: u16)
        requires
            old(self)@.wf(),
        ensures
            final(self)@ == old(self)@.erase_in_display(mode),
            final(self)@.wf(),
    {
        let attrs = self.erased();
        let row: usize = self.cursor.row;
        proof {
            halves::blanks_are_paired();
        }
        if mode == 0 {
            self.erase_in_line(0);
            let ghost before = self@;
            grid::clear_rows(&mut self.lines, row + 1, self.rows, self.columns, attrs);
            assert(self@ == before.clear_rows(row + 1, before.rows as int));
        } else if mode == 1 {
            self.erase_in_line(1);
            let ghost before = self@;
            grid::clear_rows(&mut self.lines, 0, row, self.columns, attrs);
            assert(self@ == before.clear_rows(0, row as int));
        } else if mode == 2 {
            let ghost before = self@;
            grid::clear_rows(&mut self.lines, 0, self.rows, self.columns, attrs);
            assert(self@ == before.clear_rows(0, before.rows as int));
        } else if mode == 3 {
            self.clear_history();
        }
        self.touch();
    }

    fn clear_cells(&mut self, from: usize, to: usize)
        requires
            old(self)@.wf(),
            from <= to <= old(self)@.columns,
        ensures
            final(self)@ == old(self)@.clear_cells(from as int, to as int),
            final(self)@.wf(),
    {
        let attrs = self.erased();
        let row: usize = self.cursor.row;
        assert(self@.lines[row as int].cells.len() == self.columns);
        proof {
            halves::clearing_is_paired(self@.lines[row as int].cells, from as int, to as int, attrs);
        }
        clear_line(&mut self.lines[row], from, to, attrs);
        assert(self@.lines =~= old(self)@.clear_cells(from as int, to as int).lines);
        assert(self@ == old(self)@.clear_cells(from as int, to as int));
    }

    pub(crate) fn erase_in_line(&mut self, mode: u16)
        requires
            old(self)@.wf(),
        ensures
            final(self)@ == old(self)@.erase_in_line(mode),
            final(self)@.wf(),
    {
        let column: usize = self.cursor.column;
        if mode == 0 {
            self.clear_cells(column, self.columns);
        } else if mode == 1 {
            self.clear_cells(0, column + 1);
        } else if mode == 2 {
            self.clear_cells(0, self.columns);
        }
        self.touch();
    }

    pub(crate) fn erase_cells(&mut self, count: usize)
        requires
            old(self)@.wf(),
        ensures
            final(self)@ == old(self)@.erase_cells(count as int),
            final(self)@.wf(),
    {
        let column: usize = self.cursor.column;
        let count: usize = self.cells_here(count);
        self.clear_cells(column, column + count);
        self.touch();
    }

    fn cells_here(&self, count: usize) -> (out: usize)
        requires
            self@.wf(),
        ensures
            out == self@.cells_here(count as int),
    {
        let count: usize = if count < 1 {
            1
        } else {
            count
        };
        if count > self.columns - self.cursor.column {
            self.columns - self.cursor.column
        } else {
            count
        }
    }

    pub(crate) fn insert_cells(&mut self, count: usize)
        requires
            old(self)@.wf(),
        ensures
            final(self)@ == old(self)@.insert_cells(count as int),
            final(self)@.wf(),
    {
        let attrs = self.erased();
        let row: usize = self.cursor.row;
        let column: usize = self.cursor.column;
        let by: usize = self.cells_here(count);
        assert(self@.lines[row as int].cells.len() == self.columns);
        proof {
            halves::opening_is_paired(
                self@.lines[row as int].cells,
                column as int,
                by as int,
                attrs,
            );
        }
        open_line(&mut self.lines[row], column, by, attrs);
        self.touch();
        assert(self@.lines =~= old(self)@.insert_cells(count as int).lines);
        assert(self@ == old(self)@.insert_cells(count as int));
    }

    pub(crate) fn delete_cells(&mut self, count: usize)
        requires
            old(self)@.wf(),
        ensures
            final(self)@ == old(self)@.delete_cells(count as int),
            final(self)@.wf(),
    {
        let attrs = self.erased();
        let row: usize = self.cursor.row;
        let column: usize = self.cursor.column;
        let by: usize = self.cells_here(count);
        assert(self@.lines[row as int].cells.len() == self.columns);
        proof {
            halves::closing_is_paired(
                self@.lines[row as int].cells,
                column as int,
                by as int,
                attrs,
            );
        }
        close_line(&mut self.lines[row], column, by, attrs);
        self.touch();
        assert(self@.lines =~= old(self)@.delete_cells(count as int).lines);
        assert(self@ == old(self)@.delete_cells(count as int));
    }

    fn rows_here(&self, count: usize) -> (out: usize)
        requires
            self@.wf(),
            self@.in_region(),
        ensures
            out == self@.rows_here(count as int),
    {
        let count: usize = if count < 1 {
            1
        } else {
            count
        };
        let most: usize = self.region.1 - self.cursor.row + 1;
        if count > most {
            most
        } else {
            count
        }
    }

    pub(crate) fn insert_lines(&mut self, count: usize)
        requires
            old(self)@.wf(),
        ensures
            final(self)@ == old(self)@.insert_lines(count as int),
            final(self)@.wf(),
    {
        let (top, bottom) = self.region;
        let row: usize = self.cursor.row;
        if row < top || row > bottom {
            return;
        }
        let attrs = self.erased();
        let by: usize = self.rows_here(count);
        proof {
            halves::blanks_are_paired();
        }
        grid::lower(&mut self.lines, row, bottom, by, self.columns, attrs);
        self.touch();
        assert(self@ == old(self)@.insert_lines(count as int));
    }

    pub(crate) fn delete_lines(&mut self, count: usize)
        requires
            old(self)@.wf(),
        ensures
            final(self)@ == old(self)@.delete_lines(count as int),
            final(self)@.wf(),
    {
        let (top, bottom) = self.region;
        let row: usize = self.cursor.row;
        if row < top || row > bottom {
            return;
        }
        let attrs = self.erased();
        let by: usize = self.rows_here(count);
        proof {
            halves::blanks_are_paired();
        }
        let _ = grid::raise(&mut self.lines, row, bottom, by, self.columns, attrs);
        self.touch();
        assert(self@ == old(self)@.delete_lines(count as int));
    }

    pub(crate) fn save_cursor(&mut self)
        requires
            old(self)@.wf(),
        ensures
            final(self)@ == old(self)@.save_cursor(),
            final(self)@.wf(),
    {
        self.saved = Some(SavedCursor { cursor: self.cursor, pen: self.pen });
    }

    pub(crate) fn restore_cursor(&mut self)
        requires
            old(self)@.wf(),
        ensures
            final(self)@ == old(self)@.restore_cursor(),
            final(self)@.wf(),
    {
        if let Some(saved) = self.saved {
            self.cursor = saved.cursor;
            self.pen = saved.pen;
            if self.cursor.row > self.rows - 1 {
                self.cursor.row = self.rows - 1;
            }
            if self.cursor.column > self.columns - 1 {
                self.cursor.column = self.columns - 1;
            }
            self.touch();
        }
        assert(self@ == old(self)@.restore_cursor());
    }

    /// Swap in the alternate screen, or give the first one back.
    pub(crate) fn use_alternate_screen(&mut self, alternate: bool)
        requires
            old(self)@.wf(),
        ensures
            final(self)@ == old(self)@.use_alternate_screen(alternate),
            final(self)@.wf(),
    {
        let ghost first = self@;
        if alternate == self.stowed.is_some() {
            return;
        }
        proof {
            halves::blanks_are_paired();
            if alternate {
                assert(first.history() =~= first.scrollback);
                assert(first.stowed_history =~= Seq::empty());
            } else {
                assert(first.history() =~= first.stowed_history);
                assert(first.scrollback =~= Seq::empty());
            }
        }
        if alternate {
            self.save_cursor();
            let mut primary = grid::blank_rows(self.rows, self.columns, Attrs::default());
            std::mem::swap(&mut primary, &mut self.lines);
            self.stowed = Some(primary);
            std::mem::swap(&mut self.stowed_history, &mut self.scrollback);
            self.cursor = Cursor::default();
            self.modes.alternate_screen = true;
        } else {
            if let Some(primary) = self.stowed.take() {
                self.lines = primary;
            }
            std::mem::swap(&mut self.stowed_history, &mut self.scrollback);
            self.modes.alternate_screen = false;
            self.restore_cursor();
        }
        self.touch();
        assert(self@ == first.use_alternate_screen(alternate));
    }

    pub(crate) fn resize_lines(&mut self, columns: usize, rows: usize, top: usize)
        requires
            top <= old(self)@.lines.len(),
        ensures
            final(self)@ == (ScreenModel {
                lines: model::fitted(
                    model::refitted_all(old(self)@.lines, columns as int).skip(top as int),
                    rows as int,
                    columns as int,
                ),
                scrollback: if old(self)@.stowed is None {
                    old(self)@.scrollback + model::refitted_all(
                        old(self)@.lines,
                        columns as int,
                    ).take(top as int)
                } else {
                    old(self)@.scrollback
                },
                ..old(self)@
            }),
    {
        grid::refit_all(&mut self.lines, columns);
        let ghost wide = model::lines_of(self.lines@);
        let mut rest = self.lines.split_off(top);
        std::mem::swap(&mut rest, &mut self.lines);
        proof {
            assert(model::lines_of(rest@) =~= wide.take(top as int));
            assert(model::lines_of(self.lines@) =~= wide.skip(top as int));
        }
        if self.stowed.is_none() {
            grid::remember(&mut self.scrollback, rest);
        }
        grid::fit(&mut self.lines, rows, columns);
    }

    pub(crate) fn resize_stowed(&mut self, columns: usize, rows: usize)
        ensures
            final(self)@ == (ScreenModel {
                stowed: match old(self)@.stowed {
                    Some(lines) => Some(
                        model::fitted(
                            model::refitted_all(lines, columns as int).skip(
                                old(self)@.leaving_stowed(rows as int),
                            ),
                            rows as int,
                            columns as int,
                        ),
                    ),
                    None => None,
                },
                stowed_history: match old(self)@.stowed {
                    Some(lines) => old(self)@.stowed_history + model::refitted_all(
                        lines,
                        columns as int,
                    ).take(old(self)@.leaving_stowed(rows as int)),
                    None => old(self)@.stowed_history,
                },
                saved: model::lifted_cursor(
                    old(self)@.saved,
                    old(self)@.leaving_stowed(rows as int),
                ),
                ..old(self)@
            }),
    {
        let ghost first = self@;
        match self.stowed.take() {
            Some(held) => {
                let mut lines = held;
                let ghost all = model::lines_of(lines@);
                let last: usize = grid::last_written(&lines);
                let top: usize = if last > rows {
                    last - rows
                } else {
                    0
                };
                assert(first.stowed == Some(all));
                assert(top as int == first.leaving_stowed(rows as int));
                grid::refit_all(&mut lines, columns);
                let ghost wide = model::lines_of(lines@);
                let mut rest = lines.split_off(top);
                std::mem::swap(&mut rest, &mut lines);
                proof {
                    assert(model::lines_of(rest@) =~= wide.take(top as int));
                    assert(model::lines_of(lines@) =~= wide.skip(top as int));
                }
                grid::remember(&mut self.stowed_history, rest);
                grid::fit(&mut lines, rows, columns);
                self.stowed = Some(lines);
                if let Some(saved) = self.saved {
                    let row: usize = saved.cursor.row;
                    let lifted: usize = if row > top {
                        row - top
                    } else {
                        0
                    };
                    self.saved = Some(
                        SavedCursor { cursor: Cursor { row: lifted, ..saved.cursor }, ..saved },
                    );
                }
            },
            None => {},
        }
    }

    /// The lowest row that shows something, or the cursor's where that is lower.
    pub(crate) fn last_row(&self) -> (out: usize)
        requires
            self@.wf(),
        ensures
            out == self@.last_row(),
            out < self@.rows,
    {
        let last: usize = grid::last_written(&self.lines);
        if last > self.cursor.row + 1 {
            last - 1
        } else {
            self.cursor.row
        }
    }

    pub(crate) fn cut_captures(&mut self, top: usize)
        ensures
            final(self)@ == (ScreenModel {
                capture: if top > 0 {
                    model::cut(old(self)@.capture, top as int)
                } else {
                    old(self)@.capture
                },
                file_capture: if top > 0 {
                    model::cut(old(self)@.file_capture, top as int)
                } else {
                    old(self)@.file_capture
                },
                ..old(self)@
            }),
    {
        if top > 0 {
            match &mut self.capture {
                Some(capture) => capture.cut(top),
                None => {},
            }
            match &mut self.file_capture {
                Some(capture) => capture.cut(top),
                None => {},
            }
        }
    }

    pub(crate) fn reset(&mut self)
        requires
            old(self)@.wf(),
        ensures
            final(self)@ == old(self)@.reset(),
            final(self)@.wf(),
    {
        let ghost first = self@;
        let mut fresh = Screen::new(self.columns, self.rows);
        if self.stowed.is_some() {
            assert(first.history() =~= first.stowed_history);
            std::mem::swap(&mut fresh.scrollback, &mut self.stowed_history);
        } else {
            assert(first.history() =~= first.scrollback);
            std::mem::swap(&mut fresh.scrollback, &mut self.scrollback);
        }
        fresh.revision = self.revision;
        fresh.scrollback_limit = self.scrollback_limit;
        fresh.history_origin = self.history_origin;
        std::mem::swap(&mut fresh.capture, &mut self.capture);
        std::mem::swap(&mut fresh.file_capture, &mut self.file_capture);
        match &mut fresh.capture {
            Some(capture) => capture.restarted(),
            None => {},
        }
        match &mut fresh.file_capture {
            Some(capture) => capture.restarted(),
            None => {},
        }
        fresh.touch();
        *self = fresh;
        assert(self@.history() =~= first.history());
        assert(self@ == first.reset());
    }
}

/// Writing over half of a full-width character destroys the other half.
fn clear_pair(cells: &mut Vec<Cell>, column: usize, attrs: Attrs)
    requires
        column < old(cells)@.len(),
    ensures
        final(cells)@ == model::cleared_pair(old(cells)@, column as int, attrs),
{
    if cells[column].trailing && column > 0 {
        cells[column - 1] = Cell::blank(attrs);
    } else if cells.len() - column > 1 && cells[column + 1].trailing && character_width(
        cells[column].text,
    ) == 2 {
        cells[column + 1] = Cell::blank(attrs);
    }
}

fn write_cell(line: &mut Line, column: usize, text: char, width: usize, pen: Attrs, attrs: Attrs)
    requires
        1 <= width == cell::width_of(text),
        column + width <= old(line)@.cells.len(),
        attrs == model::erased(pen),
    ensures
        final(line)@.cells == model::written(old(line)@.cells, column as int, text, pen),
        final(line)@.wrapped == old(line)@.wrapped,
{
    assert(column + width <= line.cells.len());
    clear_pair(&mut line.cells, column, attrs);
    if width == 2 {
        clear_pair(&mut line.cells, column + 1, attrs);
    }
    line.cells[column] = Cell { text, attrs: pen, trailing: false };
    if width == 2 {
        line.cells[column + 1] = Cell { text: ' ', attrs: pen, trailing: true };
    }
}

fn mark_wrapped(line: &mut Line)
    ensures
        final(line)@ == model::wrapped_line(old(line)@),
{
    line.wrapped = true;
}

fn clear_line(line: &mut Line, from: usize, to: usize, attrs: Attrs)
    requires
        to <= old(line)@.cells.len(),
    ensures
        final(line)@.cells == model::cleared(old(line)@.cells, from as int, to as int, attrs),
        final(line)@.wrapped == old(line)@.wrapped,
{
    grid::clear_cells(&mut line.cells, from, to, attrs);
}

fn open_line(line: &mut Line, column: usize, count: usize, attrs: Attrs)
    requires
        column <= old(line)@.cells.len(),
        count <= old(line)@.cells.len() - column,
    ensures
        final(line)@.cells == model::opened(
            old(line)@.cells,
            column as int,
            count as int,
            attrs,
        ),
        final(line)@.wrapped == old(line)@.wrapped,
{
    grid::open_cells(&mut line.cells, column, count, attrs);
}

fn close_line(line: &mut Line, column: usize, count: usize, attrs: Attrs)
    requires
        column <= old(line)@.cells.len(),
        count <= old(line)@.cells.len() - column,
    ensures
        final(line)@.cells == model::closed_up(
            old(line)@.cells,
            column as int,
            count as int,
            attrs,
        ),
        final(line)@.wrapped == old(line)@.wrapped,
{
    grid::close_cells(&mut line.cells, column, count, attrs);
}

/// What is told about the screen, and small settings.
impl Screen {
    /// What arrived that is not acted on, most common first.
    pub fn unhandled(&self) -> (out: Vec<(String, u32)>)
        ensures
            model::names_of(out@) == model::by_count(self@.unhandled),
    {
        let mut out: Vec<(String, u32)> = Vec::new();
        let ghost all = self@.unhandled;
        let mut at: usize = 0;
        assert(all.take(0) =~= Seq::empty());
        assert(model::names_of(out@) =~= model::by_count(all.take(0)));
        while at < self.unhandled.len()
            invariant
                at <= self.unhandled@.len() == all.len(),
                all == self@.unhandled,
                model::names_of(out@) == model::by_count(all.take(at as int)),
            decreases self.unhandled@.len() - at,
        {
            let ghost ordered = model::names_of(out@);
            let count: u32 = self.unhandled[at].1;
            let mut place: usize = 0;
            while place < out.len() && out[place].1 >= count
                invariant
                    place <= out@.len(),
                    ordered == model::names_of(out@),
                    model::rank(ordered, count, 0) == model::rank(ordered, count, place as int),
                decreases out@.len() - place,
            {
                assert(ordered[place as int].1 == out@[place as int].1);
                place += 1;
            }
            proof {
                if place < out@.len() {
                    assert(ordered[place as int].1 == out@[place as int].1);
                }
                assert(place == model::rank(ordered, count, 0));
            }
            let name = self.unhandled[at].0.clone();
            let ghost had = out@;
            out.insert(place, (name, count));
            at += 1;
            proof {
                assert(all.take(at as int).drop_last() =~= all.take(at - 1));
                assert(all.take(at as int).last() == (name@, count));
                assert(model::names_of(out@) =~= ordered.insert(place as int, (name@, count)));
            }
        }
        assert(all.take(at as int) =~= all);
        out
    }

    /// Retained output, with automatic wrapping joined and real line breaks kept.
    pub fn retained_text(&self) -> (out: String)
        requires
            self@.wf(),
        ensures
            out@ == self@.retained_text(),
    {
        let end: usize = self.last_row() + 1;
        let mut chars: Vec<char> = Vec::new();
        let ghost history = self@.history();
        let ghost all = history + self@.lines.take(end as int);
        let mut row: usize = 0;
        let held: &VecDeque<Line> = if self.stowed.is_some() {
            &self.stowed_history
        } else {
            &self.scrollback
        };
        assert(model::lines_of(held@) =~= history);
        assert(all.take(0) =~= Seq::empty());
        while row < held.len()
            invariant
                row <= held@.len() == history.len(),
                history == model::lines_of(held@),
                all == history + self@.lines.take(end as int),
                chars@ == model::joined(all.take(row as int)),
            decreases held@.len() - row,
        {
            proof {
                assert(all.take(row + 1).drop_last() =~= all.take(row as int));
                assert(all.take(row + 1).last() == held@[row as int]@);
            }
            push_logical(&mut chars, &held[row]);
            row += 1;
        }
        let mut row: usize = 0;
        assert(all.take(history.len() as int + 0) =~= all.take(history.len() as int));
        while row < end
            invariant
                row <= end <= self.lines@.len(),
                self@.lines.len() == self.lines@.len(),
                history == self@.history(),
                all == history + self@.lines.take(end as int),
                chars@ == model::joined(all.take(history.len() as int + row)),
            decreases end - row,
        {
            let ghost now = history.len() as int + row;
            proof {
                assert(all.take(now + 1).drop_last() =~= all.take(now));
                assert(all.take(now + 1).last() == self.lines@[row as int]@);
            }
            push_logical(&mut chars, &self.lines[row]);
            row += 1;
        }
        assert(all.take(history.len() as int + end) =~= all);
        if chars.len() > 0 && chars[chars.len() - 1] == '\n' {
            let _ = chars.pop();
        }
        let out = string_of(&chars);
        assert(out@ =~= self@.retained_text());
        out
    }

    pub(crate) fn pen(&self) -> (out: Attrs)
        ensures
            out == self@.pen,
    {
        self.pen
    }

    pub(crate) fn set_pen(&mut self, pen: Attrs)
        ensures
            final(self)@ == (ScreenModel { pen, ..old(self)@ }),
    {
        self.pen = pen;
    }

    pub(crate) fn record_modes(&mut self, modes: Modes)
        ensures
            final(self)@ == (ScreenModel { modes, ..old(self)@ }),
    {
        self.modes = modes;
    }

    pub(crate) fn reply(&mut self, answer: &mut Vec<u8>)
        ensures
            final(self)@ == old(self)@.reply(old(answer)@),
    {
        self.replies.append(answer);
    }

    pub(crate) fn set_title(&mut self, title: String)
        requires
            old(self)@.wf(),
        ensures
            final(self)@ == old(self)@.set_title(title@),
            final(self)@.wf(),
    {
        self.title = title;
        self.touch();
    }

    pub(crate) fn clear_stop(&mut self, all: bool)
        requires
            old(self)@.wf(),
        ensures
            final(self)@ == old(self)@.clear_stop(all),
            final(self)@.wf(),
    {
        let column: usize = self.cursor.column;
        if all {
            let mut stops: Vec<bool> = Vec::new();
            let mut at: usize = 0;
            while at < self.tab_stops.len()
                invariant
                    at <= self.tab_stops@.len(),
                    stops@ == Seq::new(at as nat, |column: int| false),
                decreases self.tab_stops@.len() - at,
            {
                stops.push(false);
                at += 1;
                assert(stops@ =~= Seq::new(at as nat, |column: int| false));
            }
            self.tab_stops = stops;
        } else {
            self.tab_stops[column] = false;
        }
        assert(self@ == old(self)@.clear_stop(all));
    }
}

/// Appends a row's share of the line that it belongs to, and the line break
/// where the line ends with it.
fn push_logical(chars: &mut Vec<char>, line: &Line)
    ensures
        final(chars)@ == if line@.wrapped {
            old(chars)@ + line@.logical_text()
        } else {
            (old(chars)@ + line@.logical_text()).push('\n')
        },
{
    let text = line.logical_text();
    let mut more = chars_of(text.as_str());
    chars.append(&mut more);
    if !line.wrapped {
        chars.push('\n');
    }
}

} // verus!
