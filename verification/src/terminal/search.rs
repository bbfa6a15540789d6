//! Finding text and addresses on the screen and in its history.
use crate::matching::{self, find_all};
use crate::terminal::cell::{self, Cell, Line, LineModel};
use crate::terminal::model::{self, ScreenModel};
use crate::terminal::screen::Screen;
use crate::text::{self, char_index, string_of, string_range};
use vstd::prelude::*;

verus! {

/// A line as it was before it was wrapped into rows.
#[derive(Debug)]
pub struct LogicalLine {
    pub text: Vec<char>,
    /// The row and the column of each character.
    pub places: Vec<(usize, usize)>,
    /// The row, and the column behind the last character.
    pub end: (usize, usize),
}

/// What a [`LogicalLine`] holds.
#[verifier::ext_equal]
pub struct LogicalModel {
    pub text: Seq<char>,
    pub places: Seq<(usize, usize)>,
    pub end: (usize, usize),
}

impl View for LogicalLine {
    type V = LogicalModel;

    open spec fn view(&self) -> LogicalModel {
        LogicalModel { text: self.text@, places: self.places@, end: self.end }
    }
}

/// How many columns a character takes: two where a spacer follows.
pub open spec fn span(cells: Seq<Cell>, column: int) -> int {
    if column + 1 < cells.len() && cells[column + 1].trailing {
        2
    } else {
        1
    }
}

impl LogicalModel {
    pub open spec fn nothing(end: (usize, usize)) -> LogicalModel {
        LogicalModel { text: Seq::empty(), places: Seq::empty(), end }
    }

    /// With the first `count` cells of a row.
    pub open spec fn with_cells(self, row: int, cells: Seq<Cell>, count: int) -> LogicalModel
        decreases count,
    {
        if count <= 0 {
            self
        } else {
            let before = self.with_cells(row, cells, count - 1);
            let column = count - 1;
            if cells[column].trailing {
                before
            } else {
                LogicalModel {
                    text: before.text.push(cells[column].text),
                    places: before.places.push((row as usize, column as usize)),
                    end: (row as usize, (column + span(cells, column)) as usize),
                }
            }
        }
    }

    pub open spec fn with_row(self, row: int, line: LineModel) -> LogicalModel {
        self.with_cells(row, line.cells, line.cells.len() as int)
    }

    /// Where a match, given in bytes of the text, lies on the screen. A match
    /// that begins at no character is nowhere.
    pub open spec fn placed(self, found: (usize, usize)) -> Option<
        ((usize, usize), (usize, usize)),
    > {
        match text::chars_before(self.text, found.0 as int) {
            Some(from) if from < self.places.len() => Some(
                (
                    self.places[from],
                    match text::chars_before(self.text, found.1 as int) {
                        Some(to) if to < self.places.len() => self.places[to],
                        _ => self.end,
                    },
                ),
            ),
            _ => None,
        }
    }

    /// Where all these matches lie.
    pub open spec fn placed_all(self, found: Seq<(usize, usize)>) -> Seq<
        ((usize, usize), (usize, usize)),
    >
        decreases found.len(),
    {
        if found.len() == 0 {
            Seq::empty()
        } else {
            let before = self.placed_all(found.drop_last());
            match self.placed(found.last()) {
                Some(place) => before.push(place),
                None => before,
            }
        }
    }
}

/// The line that is unfinished after the first `count` rows.
pub open spec fn unfinished(rows: Seq<LineModel>, count: int) -> LogicalModel
    decreases count,
{
    if count <= 0 {
        LogicalModel::nothing((0, 0))
    } else {
        let line = unfinished(rows, count - 1).with_row(count - 1, rows[count - 1]);
        if rows[count - 1].wrapped {
            line
        } else {
            LogicalModel::nothing(line.end)
        }
    }
}

/// The lines that are finished within the first `count` rows.
pub open spec fn finished(rows: Seq<LineModel>, count: int) -> Seq<LogicalModel>
    decreases count,
{
    if count <= 0 {
        Seq::empty()
    } else if rows[count - 1].wrapped {
        finished(rows, count - 1)
    } else {
        finished(rows, count - 1).push(
            unfinished(rows, count - 1).with_row(count - 1, rows[count - 1]),
        )
    }
}

pub open spec fn logicals_of(lines: Seq<LogicalLine>) -> Seq<LogicalModel> {
    lines.map_values(|line: LogicalLine| line@)
}

/// The history and the screen, as one list of rows.
pub open spec fn all_rows(screen: ScreenModel) -> Seq<LineModel> {
    screen.scrollback + screen.lines
}

/// The matches in these lines, one line after the other.
pub open spec fn found_in(lines: Seq<LogicalModel>, query: Seq<char>, case_sensitive: bool) -> Seq<
    ((usize, usize), (usize, usize)),
>
    decreases lines.len(),
{
    if lines.len() == 0 {
        Seq::empty()
    } else {
        let before = found_in(lines.drop_last(), query, case_sensitive);
        match matching::regex_matches(
            matching::escaped(query),
            !case_sensitive,
            lines.last().text,
        ) {
            Some(found) => before + lines.last().placed_all(found),
            None => before,
        }
    }
}

impl LogicalLine {
    fn nothing(end: (usize, usize)) -> (out: Self)
        ensures
            out@ == LogicalModel::nothing(end),
    {
        let out = LogicalLine { text: Vec::new(), places: Vec::new(), end };
        assert(out@ =~= LogicalModel::nothing(end));
        out
    }

    fn add_row(&mut self, row: usize, line: &Line)
        ensures
            final(self)@ == old(self)@.with_row(row as int, line@),
    {
        let ghost first = self@;
        let mut column: usize = 0;
        while column < line.cells.len()
            invariant
                column <= line.cells@.len(),
                self@ == first.with_cells(row as int, line@.cells, column as int),
            decreases line.cells@.len() - column,
        {
            if !line.cells[column].trailing {
                self.text.push(line.cells[column].text);
                self.places.push((row, column));
                let wide = line.cells.len() - column > 1 && line.cells[column + 1].trailing;
                self.end = (
                    row,
                    if wide {
                        column + 2
                    } else {
                        column + 1
                    },
                );
            }
            column += 1;
            assert(self@ =~= first.with_cells(row as int, line@.cells, column as int));
        }
    }

    /// Where these matches, given in bytes of the line's text, lie on the
    /// screen: the cell that each begins in, and the one behind its last.
    pub fn place_matches(&self, found: &Vec<(usize, usize)>) -> (out: Vec<
        ((usize, usize), (usize, usize)),
    >)
        ensures
            out@ == self@.placed_all(found@),
    {
        let mut out: Vec<((usize, usize), (usize, usize))> = Vec::new();
        let mut at: usize = 0;
        assert(found@.take(0) =~= Seq::empty());
        while at < found.len()
            invariant
                at <= found@.len(),
                out@ == self@.placed_all(found@.take(at as int)),
            decreases found@.len() - at,
        {
            proof {
                assert(found@.take(at + 1).drop_last() =~= found@.take(at as int));
            }
            let (start, end) = found[at];
            if let Some(from) = char_index(&self.text, start) {
                if from < self.places.len() {
                    let to = match char_index(&self.text, end) {
                        Some(to) => if to < self.places.len() {
                            self.places[to]
                        } else {
                            self.end
                        },
                        None => self.end,
                    };
                    out.push((self.places[from], to));
                }
            }
            at += 1;
        }
        assert(found@.take(at as int) =~= found@);
        out
    }
}

impl Screen {
    /// Row `at` of the history and the screen together.
    fn row_at(&self, at: usize) -> (out: &Line)
        requires
            at < all_rows(self@).len(),
        ensures
            out@ == all_rows(self@)[at as int],
    {
        let history = self.scrollback();
        assert(model::lines_of(history@).len() == history@.len());
        if at < history.len() {
            assert(model::lines_of(history@)[at as int] == history@[at as int]@);
            &history[at]
        } else {
            let lines = self.lines();
            assert(model::lines_of(lines@).len() == lines@.len());
            assert(model::lines_of(lines@)[at - history@.len()] == lines@[at - history@.len()]@);
            &lines[at - history.len()]
        }
    }

    fn row_count(&self) -> (out: usize)
        requires
            all_rows(self@).len() <= usize::MAX,
        ensures
            out == all_rows(self@).len(),
    {
        let history = self.scrollback();
        let lines = self.lines();
        assert(model::lines_of(history@).len() == history@.len());
        assert(model::lines_of(lines@).len() == lines@.len());
        history.len() + lines.len()
    }

    /// The finished lines of the history and the screen, oldest first, with the
    /// rows that each was wrapped into joined again.
    pub fn logical_lines(&self) -> (out: Vec<LogicalLine>)
        requires
            all_rows(self@).len() <= usize::MAX,
        ensures
            logicals_of(out@) == finished(all_rows(self@), all_rows(self@).len() as int),
    {
        let ghost rows = all_rows(self@);
        let count: usize = self.row_count();
        let mut out: Vec<LogicalLine> = Vec::new();
        let mut line = LogicalLine::nothing((0, 0));
        let mut at: usize = 0;
        assert(logicals_of(out@) =~= Seq::empty());
        while at < count
            invariant
                at <= count == rows.len(),
                rows == all_rows(self@),
                line@ == unfinished(rows, at as int),
                logicals_of(out@) == finished(rows, at as int),
            decreases count - at,
        {
            let row = self.row_at(at);
            line.add_row(at, row);
            if !row.wrapped {
                let end = line.end;
                let ghost had = out@;
                let ghost done = line@;
                out.push(line);
                assert(logicals_of(out@) =~= logicals_of(had).push(done));
                line = LogicalLine::nothing(end);
            }
            at += 1;
        }
        out
    }

    /// Search logical lines and map UTF-8 matches back to terminal cells.
    pub fn search(&self, query: &str, case_sensitive: bool) -> (out: Vec<
        ((usize, usize), (usize, usize)),
    >)
        requires
            all_rows(self@).len() <= usize::MAX,
        ensures
            out@ == if query@.len() == 0 {
                Seq::empty()
            } else {
                found_in(
                    finished(all_rows(self@), all_rows(self@).len() as int),
                    query@,
                    case_sensitive,
                )
            },
    {
        let mut out: Vec<((usize, usize), (usize, usize))> = Vec::new();
        if query.is_empty() {
            return out;
        }
        let literal = regex::escape(query);
        let lines = self.logical_lines();
        let ghost models = logicals_of(lines@);
        let mut at: usize = 0;
        assert(models.take(0) =~= Seq::empty());
        while at < lines.len()
            invariant
                at <= lines@.len() == models.len(),
                models == logicals_of(lines@),
                literal@ == matching::escaped(query@),
                out@ == found_in(models.take(at as int), query@, case_sensitive),
            decreases lines@.len() - at,
        {
            proof {
                assert(models.take(at + 1).drop_last() =~= models.take(at as int));
                assert(models.take(at + 1).last() == lines@[at as int]@);
            }
            let text = string_of(&lines[at].text);
            match find_all(literal.as_str(), !case_sensitive, text.as_str()) {
                Some(found) => {
                    let mut places = lines[at].place_matches(&found);
                    out.append(&mut places);
                },
                None => {},
            }
            at += 1;
        }
        assert(models.take(at as int) =~= models);
        out
    }
}

// --- addresses ----------------------------------------------------------------

/// The row in which the line that row `row` belongs to begins.
pub open spec fn line_start(rows: Seq<LineModel>, row: int) -> int
    decreases row,
{
    if row <= 0 || !rows[row - 1].wrapped {
        row
    } else {
        line_start(rows, row - 1)
    }
}

/// The row in which the line that row `row` belongs to ends.
pub open spec fn line_end(rows: Seq<LineModel>, row: int) -> int
    decreases rows.len() - row,
{
    if row + 1 >= rows.len() || !rows[row].wrapped {
        row
    } else {
        line_end(rows, row + 1)
    }
}

/// The characters of the rows `from..to`.
pub open spec fn run_text(rows: Seq<LineModel>, from: int, to: int) -> Seq<char>
    decreases to - from,
{
    if from >= to {
        Seq::empty()
    } else {
        run_text(rows, from, to - 1) + cell::shown(rows[to - 1].cells)
    }
}

/// The line that a cell belongs to, and how many of its characters stand before
/// the cell.
pub open spec fn line_around(rows: Seq<LineModel>, row: int, column: int) -> Option<
    (Seq<char>, int),
> {
    if row < rows.len() && column < rows[row].cells.len() {
        let start = line_start(rows, row);
        Some(
            (
                run_text(rows, start, line_end(rows, row) + 1),
                (run_text(rows, start, row).len() + cell::shown(
                    rows[row].cells.take(column),
                ).len()) as int,
            ),
        )
    } else {
        None
    }
}

/// Punctuation that does not belong to the address it follows.
pub open spec fn is_closing(c: char) -> bool {
    c == '.' || c == ',' || c == ';' || c == ')' || c == ']' || c == '}'
}

pub open spec fn without_closing(text: Seq<char>) -> Seq<char>
    decreases text.len(),
{
    if text.len() > 0 && is_closing(text.last()) {
        without_closing(text.drop_last())
    } else {
        text
    }
}

/// Whether a match, given in bytes, covers character `at`.
pub open spec fn covers(text: Seq<char>, found: (usize, usize), at: int) -> bool {
    match (
        text::chars_before(text, found.0 as int),
        text::chars_before(text, found.1 as int),
    ) {
        (Some(from), Some(to)) => from <= at < to,
        _ => false,
    }
}

/// The text of a match, given in bytes.
pub open spec fn matched(text: Seq<char>, found: (usize, usize)) -> Seq<char> {
    text.subrange(
        text::chars_before(text, found.0 as int)->Some_0,
        text::chars_before(text, found.1 as int)->Some_0,
    )
}

/// The first of these matches that covers character `at`, or their number.
pub open spec fn first_cover(
    text: Seq<char>,
    found: Seq<(usize, usize)>,
    at: int,
    from: int,
) -> int
    decreases found.len() - from,
{
    if from >= found.len() || covers(text, found[from], at) {
        from
    } else {
        first_cover(text, found, at, from + 1)
    }
}

/// The address among these matches that covers character `at`.
pub open spec fn address(text: Seq<char>, found: Seq<(usize, usize)>, at: int) -> Option<
    Seq<char>,
> {
    let which = first_cover(text, found, at, 0);
    if which < found.len() {
        Some(without_closing(matched(text, found[which])))
    } else {
        None
    }
}

/// The address among these matches, given in bytes, that covers character `at`,
/// without the punctuation behind it.
pub fn address_at(text: &Vec<char>, found: &Vec<(usize, usize)>, at: usize) -> (out: Option<String>)
    ensures
        match out {
            Some(it) => address(text@, found@, at as int) == Some(it@),
            None => address(text@, found@, at as int) is None,
        },
{
    let mut which: usize = 0;
    while which < found.len()
        invariant
            which <= found@.len(),
            first_cover(text@, found@, at as int, 0) == first_cover(
                text@,
                found@,
                at as int,
                which as int,
            ),
        decreases found@.len() - which,
    {
        let from = char_index(text, found[which].0);
        let to = char_index(text, found[which].1);
        if let Some(from) = from {
            if let Some(to) = to {
                if from <= at && at < to {
                    let ghost whole = text@.subrange(from as int, to as int);
                    let mut end: usize = to;
                    assert(text@.subrange(from as int, end as int) =~= whole);
                    while end > from && (text[end - 1] == '.' || text[end - 1] == ',' || text[end
                        - 1] == ';' || text[end - 1] == ')' || text[end - 1] == ']' || text[end - 1]
                        == '}')
                        invariant
                            from <= end <= to <= text@.len(),
                            without_closing(whole) == without_closing(
                                text@.subrange(from as int, end as int),
                            ),
                        decreases end,
                    {
                        assert(text@.subrange(from as int, end as int).drop_last()
                            =~= text@.subrange(from as int, end - 1));
                        end -= 1;
                    }
                    let out = string_range(text, from, end);
                    return Some(out);
                }
            }
        }
        which += 1;
    }
    None
}

/// `https?://[^\s<>\"']+`
pub open spec fn address_pattern() -> Seq<char> {
    "https?://[^\\s<>\\\"']+"@
}

impl Screen {
    /// The line that a cell belongs to, and how many of its characters stand
    /// before the cell.
    pub fn line_around(&self, row: usize, column: usize) -> (out: Option<(Vec<char>, usize)>)
        requires
            all_rows(self@).len() <= usize::MAX,
        ensures
            match out {
                Some((text, at)) => line_around(all_rows(self@), row as int, column as int) == Some(
                    (text@, at as int),
                ),
                None => line_around(all_rows(self@), row as int, column as int) is None,
            },
    {
        let ghost rows = all_rows(self@);
        let count: usize = self.row_count();
        if row >= count {
            return None;
        }
        if column >= self.row_at(row).cells.len() {
            return None;
        }
        let mut first: usize = row;
        while first > 0 && self.row_at(first - 1).wrapped
            invariant
                first <= row < rows.len(),
                rows == all_rows(self@),
                line_start(rows, row as int) == line_start(rows, first as int),
                forall|k: int| first <= k < row ==> (#[trigger] rows[k]).wrapped,
            decreases first,
        {
            first -= 1;
        }
        let mut text: Vec<char> = Vec::new();
        let mut at: usize = 0;
        let mut here: usize = first;
        let mut done = false;
        while !done
            invariant
                first <= here < rows.len() == count,
                first <= row < rows.len(),
                rows == all_rows(self@),
                column < rows[row as int].cells.len(),
                first == line_start(rows, row as int),
                forall|k: int| first <= k < row ==> (#[trigger] rows[k]).wrapped,
                done ==> here >= row && here == line_end(rows, row as int) && text@ == run_text(
                    rows,
                    first as int,
                    here + 1,
                ),
                !done ==> text@ == run_text(rows, first as int, here as int),
                !done && here >= row ==> line_end(rows, row as int) == line_end(
                    rows,
                    here as int,
                ),
                here > row || (done && here == row) ==> at == run_text(
                    rows,
                    first as int,
                    row as int,
                ).len() + cell::shown(rows[row as int].cells.take(column as int)).len(),
            decreases count - here,
                if done {
                    0int
                } else {
                    1int
                },
        {
            let line = self.row_at(here);
            if here == row {
                let before = shown_before(line, column);
                assert(before <= cell::shown(line@.cells).len()) by {
                    shown_grows(line@.cells, column as int);
                }
                let ghost so_far = text@;
                let mut more = line.shown_chars();
                at = text.len();
                text.append(&mut more);
                assert(text.len() == so_far.len() + cell::shown(line@.cells).len());
                at = at + before;
            } else {
                let mut more = line.shown_chars();
                text.append(&mut more);
            }
            if line.wrapped && here + 1 < count {
                here += 1;
            } else {
                done = true;
            }
        }
        Some((text, at))
    }

    /// The address under a cell, without the punctuation behind it.
    pub fn url_at(&self, row: usize, column: usize) -> (out: Option<String>)
        requires
            all_rows(self@).len() <= usize::MAX,
        ensures
            match line_around(all_rows(self@), row as int, column as int) {
                Some((text, at)) => match matching::regex_matches(address_pattern(), false, text) {
                    Some(found) => match out {
                        Some(it) => address(text, found, at) == Some(it@),
                        None => address(text, found, at) is None,
                    },
                    None => out is None,
                },
                None => out is None,
            },
    {
        match self.line_around(row, column) {
            Some((text, at)) => {
                let whole = string_of(&text);
                match find_all("https?://[^\\s<>\\\"']+", false, whole.as_str()) {
                    Some(found) => address_at(&text, &found, at),
                    None => None,
                }
            },
            None => None,
        }
    }
}

/// More cells show at least as many characters.
proof fn shown_grows(cells: Seq<Cell>, count: int)
    requires
        0 <= count <= cells.len(),
    ensures
        cell::shown(cells.take(count)).len() <= cell::shown(cells).len(),
    decreases cells.len() - count,
{
    if count < cells.len() {
        shown_grows(cells, count + 1);
        assert(cells.take(count + 1).drop_last() =~= cells.take(count));
    } else {
        assert(cells.take(count) =~= cells);
    }
}

/// How many characters the first `count` cells of a row show.
fn shown_before(line: &Line, count: usize) -> (out: usize)
    requires
        count <= line@.cells.len(),
    ensures
        out == cell::shown(line@.cells.take(count as int)).len(),
{
    let mut out: usize = 0;
    let mut at: usize = 0;
    assert(line@.cells.take(0) =~= Seq::empty());
    while at < count
        invariant
            at <= count <= line.cells@.len(),
            out <= at,
            out == cell::shown(line@.cells.take(at as int)).len(),
        decreases count - at,
    {
        assert(line@.cells.take(at + 1).drop_last() =~= line@.cells.take(at as int));
        if !line.cells[at].trailing {
            out += 1;
        }
        at += 1;
    }
    out
}

} // verus!
