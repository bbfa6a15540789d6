//! What is read off the screen: the text of a row, the lines that run over several rows,
//! where a match lies, and the output that is collected.
use crate::terminal::cell::{self, Cell, LineModel};
use crate::terminal::model::{self, CaptureModel};
use crate::terminal::search::{self, LogicalModel};
use crate::text;
use vstd::prelude::*;

verus! {

// --- the text of a row ------------------------------------------------------------------

/// How many of the first `n` cells hold a character, and not the second half of one.
pub open spec fn holders(cells: Seq<Cell>, n: int) -> int
    decreases n,
{
    if n <= 0 {
        0
    } else {
        holders(cells, n - 1) + if cells[n - 1].trailing {
            0int
        } else {
            1int
        }
    }
}

/// The text of a row has the character of every cell, in order, but of the second halves.
pub proof fn a_row_is_read_cell_by_cell(cells: Seq<Cell>, i: int)
    requires
        0 <= i < cells.len(),
    ensures
        cell::shown(cells).len() == holders(cells, cells.len() as int),
        0 <= holders(cells, i) <= i,
        !cells[i].trailing ==> holders(cells, i) < cell::shown(cells).len()
            && cell::shown(cells)[holders(cells, i)] == cells[i].text,
    decreases cells.len(),
{
    let before = cells.drop_last();
    let n = cells.len() as int;
    counts_agree(before, cells, n - 1);
    counts_agree(before, cells, i);
    if before.len() == 0 {
        assert(cell::shown(before) =~= Seq::empty());
    } else if i < n - 1 {
        a_row_is_read_cell_by_cell(before, i);
    } else {
        a_row_is_read_cell_by_cell(before, 0);
        counts_are_within(cells, i);
    }
}

proof fn counts_agree(one: Seq<Cell>, two: Seq<Cell>, n: int)
    requires
        n <= one.len(),
        n <= two.len(),
        forall|k: int| 0 <= k < n && k < one.len() ==> #[trigger] one[k] == two[k],
    ensures
        holders(one, n) == holders(two, n),
    decreases n,
{
    if n > 0 {
        counts_agree(one, two, n - 1);
        assert(one[n - 1] == two[n - 1]);
    }
}

proof fn counts_are_within(cells: Seq<Cell>, n: int)
    requires
        0 <= n,
    ensures
        0 <= holders(cells, n) <= n,
    decreases n,
{
    if n > 0 {
        counts_are_within(cells, n - 1);
    }
}

/// The text of a row is what stands in it without the blanks at its end; a row that runs
/// on keeps them.
pub proof fn a_row_ends_with_no_blank(line: LineModel)
    ensures
        ({
            let whole = cell::shown(line.cells);
            let text = line.text();
            &&& text.len() <= whole.len()
            &&& text == whole.take(text.len() as int)
            &&& forall|k: int| text.len() <= k < whole.len() ==> #[trigger] whole[k] == ' '
            &&& text.len() > 0 ==> text.last() != ' '
            &&& line.wrapped ==> line.logical_text() == whole
            &&& !line.wrapped ==> line.logical_text() == text
        }),
{
    blanks_are_cut(cell::shown(line.cells));
}

proof fn blanks_are_cut(text: Seq<char>)
    ensures
        cell::trimmed(text).len() <= text.len(),
        cell::trimmed(text) == text.take(cell::trimmed(text).len() as int),
        forall|k: int| cell::trimmed(text).len() <= k < text.len() ==> #[trigger] text[k] == ' ',
        cell::trimmed(text).len() > 0 ==> cell::trimmed(text).last() != ' ',
    decreases text.len(),
{
    if text.len() > 0 && text.last() == ' ' {
        let before = text.drop_last();
        blanks_are_cut(before);
        let n = cell::trimmed(text).len() as int;
        assert(text.take(n) =~= before.take(n));
        assert forall|k: int| n <= k < text.len() implies #[trigger] text[k] == ' ' by {
            if k < before.len() {
                assert(before[k] == ' ');
            }
        }
    } else {
        assert(text.take(text.len() as int) =~= text);
    }
}

// --- lines over several rows ------------------------------------------------------------

/// Every character of a line is that of the cell at its place, among the first `count`
/// rows.
pub open spec fn is_placed(line: LogicalModel, rows: Seq<LineModel>, count: int) -> bool {
    &&& line.text.len() == line.places.len()
    &&& forall|i: int|
        0 <= i < line.places.len() ==> ({
            let (row, column) = #[trigger] line.places[i];
            &&& row < count
            &&& column < rows[row as int].cells.len()
            &&& !rows[row as int].cells[column as int].trailing
            &&& rows[row as int].cells[column as int].text == line.text[i]
        })
}

/// The rows and their cells can be counted.
pub open spec fn are_counted(rows: Seq<LineModel>) -> bool {
    &&& rows.len() <= usize::MAX
    &&& forall|k: int| 0 <= k < rows.len() ==> (#[trigger] rows[k]).cells.len() < usize::MAX
}

proof fn cells_are_placed(line: LogicalModel, rows: Seq<LineModel>, row: int, n: int)
    requires
        are_counted(rows),
        0 <= row < rows.len(),
        0 <= n <= rows[row].cells.len(),
        is_placed(line, rows, row),
    ensures
        is_placed(line.with_cells(row, rows[row].cells, n), rows, row + 1),
        line.with_cells(row, rows[row].cells, n).text == line.text + cell::shown(
            rows[row].cells.take(n),
        ),
        forall|c: int|
            0 <= c < n && !(#[trigger] rows[row].cells[c]).trailing ==> line.with_cells(
                row,
                rows[row].cells,
                n,
            ).places.contains((row as usize, c as usize)),
        forall|i: int|
            0 <= i < line.places.len() ==> line.with_cells(
                row,
                rows[row].cells,
                n,
            ).places.contains(#[trigger] line.places[i]),
    decreases n,
{
    let cells = rows[row].cells;
    if n > 0 {
        cells_are_placed(line, rows, row, n - 1);
        let before = line.with_cells(row, cells, n - 1);
        let after = line.with_cells(row, cells, n);
        assert(cells.take(n).drop_last() =~= cells.take(n - 1));
        if !cells[n - 1].trailing {
            assert(after.text =~= line.text + cell::shown(cells.take(n)));
            assert forall|i: int| 0 <= i < after.places.len() implies ({
                let (r, column) = #[trigger] after.places[i];
                &&& r < row + 1
                &&& column < rows[r as int].cells.len()
                &&& !rows[r as int].cells[column as int].trailing
                &&& rows[r as int].cells[column as int].text == after.text[i]
            }) by {
                if i < before.places.len() {
                    assert(after.places[i] == before.places[i]);
                    assert(after.text[i] == before.text[i]);
                }
            }
            let last = before.places.len() as int;
            assert(after.places[last] == (row as usize, (n - 1) as usize));
            assert forall|p: (usize, usize)| before.places.contains(p) implies
                #[trigger] after.places.contains(p) by {
                let j = choose|j: int| 0 <= j < before.places.len() && before.places[j] == p;
                assert(after.places[j] == p);
            }
            assert forall|c: int| 0 <= c < n && !(#[trigger] cells[c]).trailing implies
                after.places.contains((row as usize, c as usize)) by {
                if c < n - 1 {
                    assert(before.places.contains((row as usize, c as usize)));
                }
            }
            assert forall|i: int| 0 <= i < line.places.len() implies after.places.contains(
                #[trigger] line.places[i],
            ) by {
                assert(before.places.contains(line.places[i]));
            }
        }
    } else {
        assert(cells.take(0) =~= Seq::empty());
        assert(line.text + cell::shown(cells.take(0)) =~= line.text);
        assert forall|i: int| 0 <= i < line.places.len() implies line.places.contains(
            #[trigger] line.places[i],
        ) by {}
    }
}

/// Every character of a line that can be searched is that of the cell at its place.
pub proof fn every_character_has_its_place(rows: Seq<LineModel>, count: int)
    requires
        are_counted(rows),
        0 <= count <= rows.len(),
    ensures
        forall|m: int|
            0 <= m < search::finished(rows, count).len() ==> is_placed(
                #[trigger] search::finished(rows, count)[m],
                rows,
                count,
            ),
        is_placed(search::unfinished(rows, count), rows, count),
    decreases count,
{
    if count > 0 {
        every_character_has_its_place(rows, count - 1);
        let n = rows[count - 1].cells.len() as int;
        cells_are_placed(search::unfinished(rows, count - 1), rows, count - 1, n);
        let old = search::finished(rows, count - 1);
        let new = search::finished(rows, count);
        assert forall|m: int| 0 <= m < new.len() implies is_placed(
            #[trigger] new[m],
            rows,
            count,
        ) by {
            if m < old.len() {
                assert(new[m] == old[m]);
                assert(is_placed(old[m], rows, count - 1));
            }
        }
    }
}

/// A cell is at some place of one of these lines.
pub open spec fn is_in_a_line(lines: Seq<LogicalModel>, row: int, column: int) -> bool {
    exists|m: int|
        0 <= m < lines.len() && (#[trigger] lines[m]).places.contains(
            (row as usize, column as usize),
        )
}

/// Every character on the screen is in a line that can be searched, where the last row
/// does not run on.
pub proof fn every_character_is_in_a_line(
    rows: Seq<LineModel>,
    count: int,
    row: int,
    column: int,
)
    requires
        are_counted(rows),
        0 <= row < count <= rows.len(),
        0 <= column < rows[row].cells.len(),
        !rows[row].cells[column].trailing,
    ensures
        is_in_a_line(search::finished(rows, count), row, column)
            || search::unfinished(rows, count).places.contains((row as usize, column as usize)),
        !rows[count - 1].wrapped ==> is_in_a_line(search::finished(rows, count), row, column),
    decreases count,
{
    let here = (row as usize, column as usize);
    let cells = rows[count - 1].cells;
    let before = search::unfinished(rows, count - 1);
    let line = before.with_row(count - 1, rows[count - 1]);
    let old = search::finished(rows, count - 1);
    let new = search::finished(rows, count);
    every_character_has_its_place(rows, count - 1);
    cells_are_placed(before, rows, count - 1, cells.len() as int);
    if row < count - 1 {
        every_character_is_in_a_line(rows, count - 1, row, column);
        if is_in_a_line(old, row, column) {
            let m = choose|m: int|
                0 <= m < old.len() && (#[trigger] old[m]).places.contains(here);
            assert(new[m].places.contains(here));
        } else {
            let i = choose|i: int| 0 <= i < before.places.len() && before.places[i] == here;
            assert(line.places.contains(before.places[i]));
        }
    } else {
        assert(!cells[column].trailing);
        assert(line.places.contains(here));
    }
    if !rows[count - 1].wrapped {
        assert(new.last() == line);
        assert(new[new.len() - 1] == line);
    }
}

/// Rows that run on are one line, from the row behind one that does not to the next that
/// does not.
pub open spec fn is_run(rows: Seq<LineModel>, first: int, last: int) -> bool {
    &&& 0 <= first <= last < rows.len()
    &&& first == 0 || !rows[first - 1].wrapped
    &&& !rows[last].wrapped
    &&& forall|k: int| first <= k < last ==> (#[trigger] rows[k]).wrapped
}

/// Rows that run on are searched as one line, and are one line where an address is
/// looked for.
pub proof fn rows_that_run_on_are_one_line(
    rows: Seq<LineModel>,
    first: int,
    last: int,
    k: int,
)
    requires
        are_counted(rows),
        is_run(rows, first, last),
        first <= k <= last,
    ensures
        search::finished(rows, last + 1).len() == search::finished(rows, first).len() + 1,
        search::finished(rows, last + 1).last().text == search::run_text(rows, first, last + 1),
        search::line_start(rows, k) == first,
        search::line_end(rows, k) == last,
{
    the_line_goes_on(rows, first, last, last);
    every_character_has_its_place(rows, last);
    cells_are_placed(
        search::unfinished(rows, last),
        rows,
        last,
        rows[last].cells.len() as int,
    );
    assert(rows[last].cells.take(rows[last].cells.len() as int) =~= rows[last].cells);
    the_start_is_found(rows, first, last, k);
    the_end_is_found(rows, first, last, k);
}

proof fn the_line_goes_on(rows: Seq<LineModel>, first: int, last: int, n: int)
    requires
        are_counted(rows),
        is_run(rows, first, last),
        first <= n <= last,
    ensures
        search::finished(rows, n) == search::finished(rows, first),
        search::unfinished(rows, n).text == search::run_text(rows, first, n),
    decreases n - first,
{
    if n > first {
        the_line_goes_on(rows, first, last, n - 1);
        every_character_has_its_place(rows, n - 1);
        let cells = rows[n - 1].cells;
        cells_are_placed(search::unfinished(rows, n - 1), rows, n - 1, cells.len() as int);
        assert(cells.take(cells.len() as int) =~= cells);
    }
}

proof fn the_start_is_found(rows: Seq<LineModel>, first: int, last: int, k: int)
    requires
        is_run(rows, first, last),
        first <= k <= last,
    ensures
        search::line_start(rows, k) == first,
    decreases k - first,
{
    if k > first {
        assert(rows[k - 1].wrapped);
        the_start_is_found(rows, first, last, k - 1);
    }
}

proof fn the_end_is_found(rows: Seq<LineModel>, first: int, last: int, k: int)
    requires
        is_run(rows, first, last),
        first <= k <= last,
    ensures
        search::line_end(rows, k) == last,
    decreases last - k,
{
    if k < last {
        assert(rows[k].wrapped);
        the_end_is_found(rows, first, last, k + 1);
    }
}

proof fn rows_are_read_in_turn(rows: Seq<LineModel>, from: int, k: int, to: int)
    requires
        0 <= from <= k < to <= rows.len(),
    ensures
        ({
            let before = search::run_text(rows, from, k).len() as int;
            let here = cell::shown(rows[k].cells);
            let all = search::run_text(rows, from, to);
            &&& before + here.len() <= all.len()
            &&& all.subrange(before, before + here.len()) == here
        }),
    decreases to - from,
{
    let before = search::run_text(rows, from, k).len() as int;
    let here = cell::shown(rows[k].cells);
    let all = search::run_text(rows, from, to);
    if k == to - 1 {
        assert(all.subrange(before, before + here.len()) =~= here);
    } else {
        rows_are_read_in_turn(rows, from, k, to - 1);
        let less = search::run_text(rows, from, to - 1);
        assert(all.subrange(before, before + here.len()) =~= less.subrange(
            before,
            before + here.len(),
        ));
    }
}

/// Where an address is looked for, the cell is found in its line: the character there is
/// the cell's own.
pub proof fn a_cell_is_found_in_its_line(
    rows: Seq<LineModel>,
    first: int,
    last: int,
    row: int,
    column: int,
)
    requires
        are_counted(rows),
        is_run(rows, first, last),
        first <= row <= last,
        0 <= column < rows[row].cells.len(),
        !rows[row].cells[column].trailing,
    ensures
        search::line_around(rows, row, column) is Some,
        ({
            let (line, at) = search::line_around(rows, row, column)->Some_0;
            &&& line == search::run_text(rows, first, last + 1)
            &&& 0 <= at < line.len()
            &&& line[at] == rows[row].cells[column].text
        }),
{
    rows_that_run_on_are_one_line(rows, first, last, row);
    rows_are_read_in_turn(rows, first, row, last + 1);
    let cells = rows[row].cells;
    a_row_is_read_cell_by_cell(cells, column);
    let front = cells.take(column);
    counts_agree(front, cells, column);
    if column > 0 {
        a_row_is_read_cell_by_cell(front, 0);
    } else {
        assert(cell::shown(front) =~= Seq::empty());
    }
    let before = search::run_text(rows, first, row).len() as int;
    let here = cell::shown(cells);
    let all = search::run_text(rows, first, last + 1);
    assert(all.subrange(before, before + here.len())[holders(cells, column)]
        == here[holders(cells, column)]);
}

/// The address at a character is the first match that covers it.
pub proof fn the_first_match_that_covers_is_the_address(
    line: Seq<char>,
    found: Seq<(usize, usize)>,
    at: int,
    which: int,
)
    requires
        0 <= which < found.len(),
        search::covers(line, found[which], at),
        forall|k: int| 0 <= k < which ==> !search::covers(line, #[trigger] found[k], at),
    ensures
        search::address(line, found, at) == Some(
            search::without_closing(search::matched(line, found[which])),
        ),
{
    the_first_cover_is_found(line, found, at, which, 0);
}

proof fn the_first_cover_is_found(
    line: Seq<char>,
    found: Seq<(usize, usize)>,
    at: int,
    which: int,
    from: int,
)
    requires
        0 <= from <= which < found.len(),
        search::covers(line, found[which], at),
        forall|k: int| 0 <= k < which ==> !search::covers(line, #[trigger] found[k], at),
    ensures
        search::first_cover(line, found, at, from) == which,
    decreases which - from,
{
    if from < which {
        assert(!search::covers(line, found[from], at));
        the_first_cover_is_found(line, found, at, which, from + 1);
    }
}

/// A match from one character to another covers those between, and is their text.
pub proof fn a_match_covers_its_characters(line: Seq<char>, from: int, to: int, at: int)
    requires
        0 <= from <= to <= line.len(),
        text::size(line) <= usize::MAX,
    ensures
        ({
            let found = (
                text::size(line.take(from)) as usize,
                text::size(line.take(to)) as usize,
            );
            &&& search::covers(line, found, at) <==> from <= at < to
            &&& search::matched(line, found) == line.subrange(from, to)
        }),
{
    text::size_leads_back(line, from);
    text::size_leads_back(line, to);
}

/// A match from one character to another lies from the cell of the one to that of the
/// other, or to the end of the line.
pub proof fn a_match_lies_where_it_stands(line: LogicalModel, from: int, to: int)
    requires
        line.text.len() == line.places.len(),
        0 <= from <= to <= line.text.len(),
        from < line.text.len(),
        text::size(line.text) <= usize::MAX,
    ensures
        ({
            let found = (
                text::size(line.text.take(from)) as usize,
                text::size(line.text.take(to)) as usize,
            );
            line.placed(found) == Some(
                (
                    line.places[from],
                    if to < line.places.len() {
                        line.places[to]
                    } else {
                        line.end
                    },
                ),
            )
        }),
{
    text::size_leads_back(line.text, from);
    text::size_leads_back(line.text, to);
}

/// Every match that begins at a character is listed where it lies, in order.
pub proof fn every_match_is_listed(line: LogicalModel, found: Seq<(usize, usize)>)
    requires
        forall|k: int| 0 <= k < found.len() ==> line.placed(#[trigger] found[k]) is Some,
    ensures
        line.placed_all(found).len() == found.len(),
        forall|k: int|
            0 <= k < found.len() ==> Some(#[trigger] line.placed_all(found)[k]) == line.placed(
                found[k],
            ),
    decreases found.len(),
{
    if found.len() > 0 {
        let rest = found.drop_last();
        assert forall|k: int| 0 <= k < rest.len() implies line.placed(#[trigger] rest[k])
            is Some by {
            assert(line.placed(found[k]) is Some);
        }
        every_match_is_listed(line, rest);
        assert(line.placed(found[found.len() - 1]) is Some);
        assert forall|k: int| 0 <= k < found.len() implies Some(
            #[trigger] line.placed_all(found)[k],
        ) == line.placed(found[k]) by {
            if k < rest.len() {
                assert(line.placed_all(found)[k] == line.placed_all(rest)[k]);
                assert(rest[k] == found[k]);
            }
        }
    }
}

/// An address ends with no punctuation that closes something; all else of it stays.
pub proof fn an_address_ends_before_punctuation(text: Seq<char>)
    ensures
        ({
            let kept = search::without_closing(text);
            &&& kept.len() <= text.len()
            &&& kept == text.take(kept.len() as int)
            &&& kept.len() > 0 ==> !seq!['.', ',', ';', ')', ']', '}'].contains(kept.last())
            &&& forall|k: int|
                kept.len() <= k < text.len() ==> seq!['.', ',', ';', ')', ']', '}'].contains(
                    #[trigger] text[k],
                )
        }),
    decreases text.len(),
{
    let all = seq!['.', ',', ';', ')', ']', '}'];
    assert(all[0] == '.' && all[1] == ',' && all[2] == ';' && all[3] == ')' && all[4] == ']'
        && all[5] == '}');
    let kept = search::without_closing(text);
    if text.len() > 0 && search::is_closing(text.last()) {
        let before = text.drop_last();
        an_address_ends_before_punctuation(before);
        assert(text.take(kept.len() as int) =~= before.take(kept.len() as int));
        assert forall|k: int| kept.len() <= k < text.len() implies all.contains(
            #[trigger] text[k],
        ) by {
            if k < before.len() {
                assert(all.contains(before[k]));
            }
        }
    } else {
        assert(text.take(text.len() as int) =~= text);
    }
}

// --- output that is collected -----------------------------------------------------------

/// A line that is left is told with a break behind it. A row that runs on is told with
/// the rows that it runs on into.
pub proof fn a_line_that_is_left_is_told(
    capture: CaptureModel,
    row: usize,
    changed_only: bool,
    line: LineModel,
)
    requires
        row >= capture.first_row,
        !changed_only || capture.touched.contains(row),
        capture.initial.len() == 0,
    ensures
        ({
            let after = capture.commit(row, changed_only, line);
            &&& !line.wrapped ==> after.completed == capture.completed + capture.wrapped
                + line.text() + seq!['\n']
            &&& !line.wrapped ==> after.wrapped.len() == 0
            &&& line.wrapped ==> after.completed == capture.completed
            &&& line.wrapped ==> after.wrapped == capture.wrapped + cell::shown(line.cells)
        }),
{
    let whole = capture.wrapped + line.logical_text();
    assert(capture.initial =~= Seq::empty());
    assert(whole.skip(0) =~= whole);
    assert(capture.completed + whole + seq!['\n'] =~= capture.completed + capture.wrapped
        + line.logical_text() + seq!['\n']);
}

/// What stood on the row before the collecting began is not told again.
pub proof fn what_stood_before_is_not_told(
    capture: CaptureModel,
    row: usize,
    line: LineModel,
    fresh: Seq<char>,
)
    requires
        row >= capture.first_row,
        capture.wrapped.len() == 0,
        capture.initial.len() > 0,
        !line.wrapped,
        line.text() == capture.initial + fresh,
    ensures
        capture.commit(row, false, line).completed == capture.completed + if fresh.len() > 0 {
            fresh + seq!['\n']
        } else {
            Seq::empty()
        },
        capture.commit(row, false, line).initial.len() == 0,
{
    let whole = capture.wrapped + line.logical_text();
    assert(whole =~= capture.initial + fresh);
    assert(capture.initial.is_prefix_of(whole));
    assert(whole.skip(capture.initial.len() as int) =~= fresh);
    assert(capture.completed + fresh + seq!['\n'] =~= capture.completed + (fresh + seq!['\n']));
    assert(capture.completed + Seq::<char>::empty() =~= capture.completed);
}

/// A row above those that are collected, or one that did not change where only changes
/// count, is not told.
pub proof fn other_rows_are_not_told(
    capture: CaptureModel,
    row: usize,
    changed_only: bool,
    line: LineModel,
)
    requires
        row < capture.first_row || (changed_only && !capture.touched.contains(row)),
    ensures
        capture.commit(row, changed_only, line) == capture,
{
}

/// As collecting begins there is nothing to tell. What was told is not told again, and
/// the line that is still being written stays to be told.
pub proof fn nothing_is_told_twice(
    capture: CaptureModel,
    row: usize,
    text: Seq<char>,
)
    ensures
        model::update_of(Some(CaptureModel::from(row, text)), row, text) == Some(
            (Seq::<char>::empty(), Seq::<char>::empty()),
        ),
        (model::update_of(Some(capture), row, text)->Some_0).0 == capture.completed,
        model::update_of(model::handed_over(Some(capture)), row, text) == Some(
            (Seq::<char>::empty(), (model::update_of(Some(capture), row, text)->Some_0).1),
        ),
        row >= capture.first_row && capture.touched.contains(row) && capture.initial.len() == 0
            ==> (model::update_of(Some(capture), row, text)->Some_0).1 == capture.wrapped + text,
{
    if capture.initial.len() == 0 {
        assert(capture.initial =~= Seq::empty());
        assert((capture.wrapped + text).skip(0) =~= capture.wrapped + text);
    }
}

} // verus!
