//! Moving rows and cells about.
use crate::terminal::cell::{self, Attrs, Cell, Line};
use crate::terminal::model;
use std::collections::VecDeque;
use vstd::prelude::*;

verus! {

/// `rows` cleared rows.
pub(crate) fn blank_rows(rows: usize, columns: usize, attrs: Attrs) -> (out: Vec<Line>)
    ensures
        model::lines_of(out@) == model::blank_lines(rows as int, columns as int, attrs),
{
    let mut out: Vec<Line> = Vec::new();
    let mut row: usize = 0;
    while row < rows
        invariant
            row <= rows,
            model::lines_of(out@) == model::blank_lines(row as int, columns as int, attrs),
        decreases rows - row,
    {
        let ghost before = out@;
        out.push(Line::blank(columns, attrs));
        row += 1;
        assert(model::lines_of(out@) =~= model::lines_of(before).push(
            cell::blank_line(columns as int, attrs),
        ));
        assert(model::lines_of(out@) =~= model::blank_lines(row as int, columns as int, attrs));
    }
    assert(model::lines_of(out@) =~= model::blank_lines(rows as int, columns as int, attrs));
    out
}

/// A stop at every eighth column.
pub(crate) fn default_stops(columns: usize) -> (out: Vec<bool>)
    ensures
        out@ == model::default_stops(columns as int),
{
    let mut out: Vec<bool> = Vec::new();
    let mut column: usize = 0;
    while column < columns
        invariant
            column <= columns,
            out@ == model::default_stops(column as int),
        decreases columns - column,
    {
        out.push(column % 8 == 0);
        column += 1;
        assert(out@ =~= model::default_stops(column as int));
    }
    out
}

/// Moves the rows `top..=bottom` up by `by`, and gives back those that left.
pub(crate) fn raise(
    lines: &mut Vec<Line>,
    top: usize,
    bottom: usize,
    by: usize,
    columns: usize,
    attrs: Attrs,
) -> (out: VecDeque<Line>)
    requires
        top <= bottom < old(lines)@.len(),
        by <= bottom - top + 1,
    ensures
        model::lines_of(final(lines)@) == model::raised(
            model::lines_of(old(lines)@),
            top as int,
            bottom as int,
            by as int,
            columns as int,
            attrs,
        ),
        model::lines_of(out@) == model::lines_of(old(lines)@).subrange(
            top as int,
            top as int + by,
        ),
{
    let ghost first = model::lines_of(lines@);
    let mut out: VecDeque<Line> = VecDeque::new();
    let mut done: usize = 0;
    assert(model::lines_of(lines@) =~= model::raised(
        first,
        top as int,
        bottom as int,
        0,
        columns as int,
        attrs,
    ));
    while done < by
        invariant
            done <= by,
            top <= bottom < first.len(),
            by <= bottom - top + 1,
            lines@.len() == first.len(),
            model::lines_of(lines@) == model::raised(
                first,
                top as int,
                bottom as int,
                done as int,
                columns as int,
                attrs,
            ),
            model::lines_of(out@) =~= first.subrange(top as int, top as int + done),
        decreases by - done,
    {
        let ghost before = lines@;
        let ghost had = out@;
        let leaving = lines.remove(top);
        proof {
            assert(leaving@ == model::lines_of(before)[top as int]);
            assert(leaving@ == first[top + done]);
        }
        out.push_back(leaving);
        let ghost taken = lines@;
        lines.insert(bottom, Line::blank(columns, attrs));
        done += 1;
        proof {
            assert(model::lines_of(out@) =~= model::lines_of(had).push(leaving@));
            assert(model::lines_of(lines@) =~= model::lines_of(before).remove(top as int).insert(
                bottom as int,
                cell::blank_line(columns as int, attrs),
            ));
            assert(model::lines_of(lines@) =~= model::raised(
                first,
                top as int,
                bottom as int,
                done as int,
                columns as int,
                attrs,
            ));
        }
    }
    out
}

/// Moves the rows `top..=bottom` down by `by`; those below the bottom are lost.
pub(crate) fn lower(
    lines: &mut Vec<Line>,
    top: usize,
    bottom: usize,
    by: usize,
    columns: usize,
    attrs: Attrs,
)
    requires
        top <= bottom < old(lines)@.len(),
        by <= bottom - top + 1,
    ensures
        model::lines_of(final(lines)@) == model::lowered(
            model::lines_of(old(lines)@),
            top as int,
            bottom as int,
            by as int,
            columns as int,
            attrs,
        ),
{
    let ghost first = model::lines_of(lines@);
    let mut done: usize = 0;
    assert(model::lines_of(lines@) =~= model::lowered(
        first,
        top as int,
        bottom as int,
        0,
        columns as int,
        attrs,
    ));
    while done < by
        invariant
            done <= by,
            top <= bottom < first.len(),
            by <= bottom - top + 1,
            lines@.len() == first.len(),
            model::lines_of(lines@) == model::lowered(
                first,
                top as int,
                bottom as int,
                done as int,
                columns as int,
                attrs,
            ),
        decreases by - done,
    {
        let ghost before = lines@;
        let _ = lines.remove(bottom);
        lines.insert(top, Line::blank(columns, attrs));
        done += 1;
        proof {
            assert(model::lines_of(lines@) =~= model::lines_of(before).remove(bottom as int).insert(
                top as int,
                cell::blank_line(columns as int, attrs),
            ));
            assert(model::lines_of(lines@) =~= model::lowered(
                first,
                top as int,
                bottom as int,
                done as int,
                columns as int,
                attrs,
            ));
        }
    }
}

/// Clears the rows `from..to`.
pub(crate) fn clear_rows(
    lines: &mut Vec<Line>,
    from: usize,
    to: usize,
    columns: usize,
    attrs: Attrs,
)
    requires
        from <= to <= old(lines)@.len(),
    ensures
        model::lines_of(final(lines)@) == Seq::new(
            old(lines)@.len(),
            |row: int|
                if from <= row < to {
                    cell::blank_line(columns as int, attrs)
                } else {
                    model::lines_of(old(lines)@)[row]
                },
        ),
{
    let ghost first = model::lines_of(lines@);
    let mut row: usize = from;
    while row < to
        invariant
            from <= row <= to <= first.len(),
            lines@.len() == first.len(),
            forall|k: int|
                #![trigger model::lines_of(lines@)[k]]
                0 <= k < first.len() ==> model::lines_of(lines@)[k] == if from <= k < row {
                    cell::blank_line(columns as int, attrs)
                } else {
                    first[k]
                },
        decreases to - row,
    {
        let ghost before = model::lines_of(lines@);
        lines[row] = Line::blank(columns, attrs);
        assert(model::lines_of(lines@) =~= before.update(
            row as int,
            cell::blank_line(columns as int, attrs),
        ));
        row += 1;
    }
    assert(model::lines_of(lines@) =~= Seq::new(
        first.len(),
        |row: int|
            if from <= row < to {
                cell::blank_line(columns as int, attrs)
            } else {
                first[row]
            },
    ));
}

/// Clears both halves of a character that lies across the edge before `at`.
fn part(cells: &mut Vec<Cell>, at: usize, attrs: Attrs)
    ensures
        final(cells)@ == model::parted(old(cells)@, at as int, attrs),
{
    if 0 < at && at < cells.len() && cells[at].trailing {
        cells[at - 1] = Cell::blank(attrs);
        cells[at] = Cell::blank(attrs);
    }
}

/// Clears the cells `from..to`.
pub(crate) fn clear_cells(cells: &mut Vec<Cell>, from: usize, to: usize, attrs: Attrs)
    requires
        to <= old(cells)@.len(),
    ensures
        final(cells)@ == model::cleared(old(cells)@, from as int, to as int, attrs),
{
    part(cells, from, attrs);
    part(cells, to, attrs);
    let ghost first = cells@;
    let mut at: usize = from;
    while at < to
        invariant
            from <= at,
            to <= first.len(),
            cells@.len() == first.len(),
            forall|k: int|
                0 <= k < first.len() ==> #[trigger] cells@[k] == if from <= k < at {
                    cell::blank_cell(attrs)
                } else {
                    first[k]
                },
            from <= to ==> at <= to,
            from > to ==> at == from,
        decreases to - at,
    {
        cells[at] = Cell::blank(attrs);
        at += 1;
    }
    assert(cells@ =~= model::blanked(first, from as int, to as int, attrs));
}

/// Opens `count` cells at `column`.
pub(crate) fn open_cells(cells: &mut Vec<Cell>, column: usize, count: usize, attrs: Attrs)
    requires
        column <= old(cells)@.len(),
        count <= old(cells)@.len() - column,
    ensures
        final(cells)@ == model::opened(old(cells)@, column as int, count as int, attrs),
{
    let columns: usize = cells.len();
    part(cells, column, attrs);
    part(cells, columns - count, attrs);
    let ghost first = cells@;
    let mut done: usize = 0;
    assert(cells@ =~= model::pushed(first, column as int, 0, attrs));
    while done < count
        invariant
            done <= count,
            columns == first.len(),
            column <= columns,
            count <= columns - column,
            cells@ == model::pushed(first, column as int, done as int, attrs),
        decreases count - done,
    {
        let _ = cells.pop();
        cells.insert(column, Cell::blank(attrs));
        done += 1;
        assert(cells@ =~= model::pushed(first, column as int, done as int, attrs));
    }
}

/// Takes `count` cells out at `column`.
pub(crate) fn close_cells(cells: &mut Vec<Cell>, column: usize, count: usize, attrs: Attrs)
    requires
        column <= old(cells)@.len(),
        count <= old(cells)@.len() - column,
    ensures
        final(cells)@ == model::closed_up(old(cells)@, column as int, count as int, attrs),
{
    let columns: usize = cells.len();
    part(cells, column, attrs);
    part(cells, column + count, attrs);
    let ghost first = cells@;
    let mut done: usize = 0;
    assert(cells@ =~= model::pulled(first, column as int, 0, attrs));
    while done < count
        invariant
            done <= count,
            columns == first.len(),
            column <= columns,
            count <= columns - column,
            cells@ == model::pulled(first, column as int, done as int, attrs),
        decreases count - done,
    {
        let _ = cells.remove(column);
        cells.push(Cell::blank(attrs));
        done += 1;
        assert(cells@ =~= model::pulled(first, column as int, done as int, attrs));
    }
}

/// Makes a row `columns` wide.
pub(crate) fn refit(line: &mut Line, columns: usize)
    ensures
        final(line)@ == model::refitted(old(line)@, columns as int),
{
    part(&mut line.cells, columns, Attrs::default());
    let ghost first = line.cells@;
    line.cells.truncate(columns);
    assert(line.cells@ =~= model::widened(first, line.cells@.len() as int));
    while line.cells.len() < columns
        invariant
            line.wrapped == old(line).wrapped,
            first.len() <= line.cells@.len() <= columns || line.cells@.len() == columns,
            line.cells@ == model::widened(first, line.cells@.len() as int),
        decreases columns - line.cells.len(),
    {
        let ghost len = line.cells@.len() as int;
        line.cells.push(Cell::default());
        assert(line.cells@ =~= model::widened(first, len + 1));
    }
}

/// Makes every row `columns` wide.
pub(crate) fn refit_all(lines: &mut Vec<Line>, columns: usize)
    ensures
        model::lines_of(final(lines)@) == model::refitted_all(
            model::lines_of(old(lines)@),
            columns as int,
        ),
{
    let ghost first = model::lines_of(lines@);
    let mut row: usize = 0;
    while row < lines.len()
        invariant
            row <= lines@.len() == first.len(),
            forall|k: int|
                #![trigger model::lines_of(lines@)[k]]
                0 <= k < first.len() ==> model::lines_of(lines@)[k] == if k < row {
                    model::refitted(first[k], columns as int)
                } else {
                    first[k]
                },
        decreases lines.len() - row,
    {
        let ghost before = model::lines_of(lines@);
        assert(before[row as int] == first[row as int]);
        refit(&mut lines[row], columns);
        assert(model::lines_of(lines@) =~= before.update(
            row as int,
            model::refitted(first[row as int], columns as int),
        ));
        row += 1;
    }
    assert(model::lines_of(lines@) =~= model::refitted_all(first, columns as int));
}

/// Keeps the first `rows` rows, and adds blanks where there are fewer.
pub(crate) fn fit(lines: &mut Vec<Line>, rows: usize, columns: usize)
    ensures
        model::lines_of(final(lines)@) == model::fitted(
            model::lines_of(old(lines)@),
            rows as int,
            columns as int,
        ),
{
    let ghost first = model::lines_of(lines@);
    if lines.len() >= rows {
        lines.truncate(rows);
        assert(model::lines_of(lines@) =~= first.take(rows as int));
    } else {
        let mut more = blank_rows(rows - lines.len(), columns, Attrs::default());
        let ghost added = more@;
        lines.append(&mut more);
        assert(model::lines_of(lines@) =~= first + model::lines_of(added));
    }
}

/// How many rows there are down to the last that holds text.
pub(crate) fn last_written(lines: &Vec<Line>) -> (out: usize)
    ensures
        out == model::last_written(model::lines_of(lines@), lines@.len() as int) + 1,
        out <= lines@.len(),
{
    let mut last: usize = lines.len();
    let ghost all = model::lines_of(lines@);
    while last > 0 && lines[last - 1].text().as_str().is_empty()
        invariant
            last <= lines@.len() == all.len(),
            all == model::lines_of(lines@),
            model::last_written(all, all.len() as int) == model::last_written(all, last as int),
        decreases last,
    {
        assert(all[last - 1] == lines@[last - 1]@);
        last -= 1;
    }
    proof {
        if last > 0 {
            assert(all[last - 1] == lines@[last - 1]@);
        }
    }
    last
}

/// Takes the oldest rows out of a history until the limit is met, and says how
/// many those were.
pub(crate) fn forget(history: &mut VecDeque<Line>, limit: usize) -> (out: u64)
    ensures
        out == model::excess(old(history)@.len() as int, limit as int),
        model::lines_of(final(history)@) == model::lines_of(old(history)@).skip(out as int),
{
    let ghost first = model::lines_of(history@);
    let had: usize = history.len();
    let mut out: u64 = 0;
    assert(first.skip(0) =~= first);
    while history.len() > limit
        invariant
            out + history@.len() == first.len() == had,
            out > 0 ==> history@.len() >= limit,
            model::lines_of(history@) == first.skip(out as int),
        decreases history@.len(),
    {
        let ghost before = model::lines_of(history@);
        let _ = history.pop_front();
        assert(model::lines_of(history@) =~= before.skip(1));
        assert(before.skip(1) =~= first.skip(out + 1));
        out += 1;
    }
    out
}

/// Puts rows behind the history.
pub(crate) fn remember(history: &mut VecDeque<Line>, lines: Vec<Line>)
    ensures
        model::lines_of(final(history)@) == model::lines_of(old(history)@) + model::lines_of(
            lines@,
        ),
{
    let ghost first = model::lines_of(history@);
    let ghost all = model::lines_of(lines@);
    let ghost mut seen: Seq<Line> = Seq::empty();
    assert(model::lines_of(history@) =~= first + model::lines_of(seen));
    for line in rest: lines
        invariant
            seen == rest.seq().take(rest.index()),
            rest.index() == rest.seq().len() ==> seen == rest.seq(),
            model::lines_of(rest.seq()) == all,
            model::lines_of(history@) == first + model::lines_of(seen),
    {
        let ghost before = history@;
        history.push_back(line);
        proof {
            assert(rest.seq().take(rest.index() + 1) =~= seen.push(line));
            assert(model::lines_of(seen.push(line)) =~= model::lines_of(seen).push(line@));
            seen = seen.push(line);
            assert(rest.index() + 1 == rest.seq().len() ==> seen =~= rest.seq());
            assert(model::lines_of(history@) =~= model::lines_of(before).push(line@));
            assert(model::lines_of(history@) =~= first + model::lines_of(seen));
        }
    }
}

} // verus!
