//! A table in a text, and what the table menu does to it.
use crate::table_edit::cells::{self, bars_of, rule_cells, RuleCell};
use crate::table_edit::edits::{
    edit_of, empty_row, is_edit, offset, part, push_all, rule_text, Edit,
};
use crate::table_edit::model::{self, ColumnEdit, EditModel, TableEdit, TableModel};
use crate::table_edit::widths::{self, dashes, inserted_widths, removed_widths, MIN_WIDTH};
use crate::text::{self, after_space, char_index, chars_of, size_of, string_of};
use crate::text_blocks::{self, line_bounds, line_number, LineStyle};
use std::ops::Range;
use vstd::prelude::*;

verus! {

/// A table: the lines of the text, which of them are the table's, and on which
/// the caret is.
struct Table {
    chars: Vec<char>,
    bounds: Vec<(usize, usize)>,
    first: usize,
    count: usize,
    here: usize,
    at: usize,
}

impl Table {
    spec fn model(self) -> TableModel {
        TableModel { first: self.first as int, count: self.count as int, here: self.here as int }
    }

    spec fn wf(self) -> bool {
        &&& text::size(self.chars@) <= usize::MAX
        &&& self.bounds@.len() == text_blocks::lines(self.chars@).len()
        &&& forall|line: int|
            0 <= line < self.bounds@.len() ==> text_blocks::lines(self.chars@)[line] == (
                (#[trigger] self.bounds@[line]).0 as int,
                self.bounds@[line].1 as int,
            )
        &&& self.first + self.count <= self.bounds.len()
        &&& self.here < self.count
        &&& self.count >= 2
        &&& self.at <= self.chars@.len()
        &&& text_blocks::lines(self.chars@)[self.first + self.here].0 <= self.at
        &&& self.at <= text_blocks::lines(self.chars@)[self.first + self.here].1
    }

    /// Where a line of the table begins and ends.
    fn bounds_of(&self, line: usize) -> (out: (usize, usize))
        requires
            self.wf(),
            line < self.count,
        ensures
            (out.0 as int, out.1 as int) == self.model().bounds(self.chars@, line as int),
            out.0 <= out.1 <= self.chars@.len(),
    {
        proof {
            text_blocks::lines_follow(self.chars@);
            assert(text_blocks::lines(self.chars@)[self.first + line].0 <= text_blocks::lines(
                self.chars@,
            )[self.first + line].1);
        }
        self.bounds[self.first + line]
    }

    fn line(&self, line: usize) -> (out: Vec<char>)
        requires
            self.wf(),
            line < self.count,
        ensures
            out@ == self.model().line(self.chars@, line as int),
    {
        let (start, end) = self.bounds_of(line);
        part(&self.chars, start, end)
    }

    fn offset_of(&self, at: usize) -> (out: usize)
        requires
            self.wf(),
            at <= self.chars@.len(),
        ensures
            out == model::offset(self.chars@, at as int),
            out <= text::size(self.chars@),
    {
        offset(&self.chars, at)
    }
}

fn is_table_line(styles: &[LineStyle], line: usize) -> (out: bool)
    ensures
        out == model::is_table_line(styles@, line as int),
{
    line < styles.len() && styles[line].kind.is_table()
}

fn find_first(styles: &[LineStyle], line: usize) -> (out: usize)
    ensures
        out == model::table_first(styles@, line as int),
        out <= line,
{
    let mut first: usize = line;
    while first > 0 && is_table_line(styles, first - 1)
        invariant
            first <= line,
            model::table_first(styles@, line as int) == model::table_first(
                styles@,
                first as int,
            ),
        decreases first,
    {
        first -= 1;
    }
    first
}

fn find_last(styles: &[LineStyle], line: usize, count: usize) -> (out: usize)
    requires
        line < count,
    ensures
        out == model::table_last(styles@, line as int, count as int),
        line <= out < count,
{
    let mut last: usize = line;
    while count - last > 1 && is_table_line(styles, last + 1)
        invariant
            line <= last < count,
            model::table_last(styles@, line as int, count as int) == model::table_last(
                styles@,
                last as int,
                count as int,
            ),
        decreases count - last,
    {
        last += 1;
    }
    last
}

/// The table around a byte of the text.
fn find_table(source: &str, styles: &[LineStyle], byte: usize) -> (out: Option<Table>)
    requires
        text::size(source@) <= usize::MAX,
    ensures
        match out {
            Some(table) => {
                &&& table.wf()
                &&& table.chars@ == source@
                &&& model::place(source@, byte as int) == Some(table.at as int)
                &&& model::table_at(source@, styles@, table.at as int) == Some(table.model())
            },
            None => match model::place(source@, byte as int) {
                Some(at) => model::table_at(source@, styles@, at) is None,
                None => true,
            },
        },
{
    let chars = chars_of(source);
    let whole: usize = offset(&chars, chars.len());
    assert(chars@.take(chars@.len() as int) =~= chars@);
    let at: usize = if byte > whole {
        chars.len()
    } else {
        match char_index(&chars, byte) {
            Some(at) => at,
            None => {
                return None;
            },
        }
    };
    let bounds = line_bounds(&chars);
    let line: usize = line_number(&chars, at);
    if !is_table_line(styles, line) {
        return None;
    }
    proof {
        text_blocks::line_of_holds(chars@, at as int);
    }
    let first: usize = find_first(styles, line);
    let last: usize = find_last(styles, line, bounds.len());
    if last <= first {
        return None;
    }
    Some(Table { chars, bounds, first, count: last - first + 1, here: line - first, at })
}

/// The column that a place in a line is in.
fn column_at(line: &Vec<char>, place: usize, columns: usize) -> (out: usize)
    requires
        columns >= 1,
    ensures
        out == model::column_at(line@, place as int, columns as int),
        out < columns,
{
    let bars = bars_of(line);
    let mut before: usize = 0;
    let mut at: usize = 0;
    while at < bars.len()
        invariant
            at <= bars@.len() == cells::bars(line@).len(),
            forall|i: int| 0 <= i < bars@.len() ==> #[trigger] bars@[i] as int == cells::bars(
                line@,
            )[i],
            before <= at,
            before == model::bars_before(cells::bars(line@), place as int, at as int),
        decreases bars@.len() - at,
    {
        if bars[at] < place {
            before += 1;
        }
        at += 1;
    }
    if before <= 1 {
        0
    } else if before - 1 > columns - 1 {
        columns - 1
    } else {
        before - 1
    }
}

/// The caret stays within the line.
proof fn cell_caret_within(line: Seq<char>, column: int)
    requires
        0 <= column,
    ensures
        0 <= model::cell_caret(line, column) <= text::size(line),
{
    text::size_counts(line);
    if column < cells::bars(line).len() {
        cells::cells_lie_within(line);
        let (from, to) = cells::cell(line, column);
        cells::skips_within(line, from, to);
        let first = text::skip_space(line, from, to);
        text::size_of_part(line, first, first);
        text::size_of_part(line, from, from);
        text::size_counts(line.take(first));
        text::size_counts(line.take(from));
        if from < to {
            text::size_of_part(line, from, from + 1);
            text::size_counts(line.subrange(from, from + 1));
            text::size_of_part(line, from + 1, from + 1);
        }
    }
}

/// Where the caret goes in a cell, in bytes of the line.
fn cell_caret(line: &Vec<char>, column: usize) -> (out: usize)
    requires
        text::size(line@) <= usize::MAX,
    ensures
        out == model::cell_caret(line@, column as int),
{
    let bars = bars_of(line);
    proof {
        cell_caret_within(line@, column as int);
        cells::cells_lie_within(line@);
    }
    if column >= bars.len() {
        assert(line@.take(line@.len() as int) =~= line@);
        return offset(line, line.len());
    }
    let ghost it = cells::cell(line@, column as int);
    assert(0 < it.0 <= it.1 <= line.len());
    assert(bars@[column as int] + 1 == it.0);
    let from: usize = bars[column] + 1;
    let to: usize = if bars.len() - column > 1 {
        bars[column + 1]
    } else {
        line.len()
    };
    let first: usize = after_space(line, from, to);
    if first < to {
        offset(line, first)
    } else if from < to {
        offset(line, from) + 1
    } else {
        offset(line, from)
    }
}

/// The caret of an edited row is within it.
proof fn row_caret_within(line: Seq<char>, edit: ColumnEdit)
    ensures
        match model::edited_row(line, edit).1 {
            Some(at) => 0 <= at <= text::size(model::edited_row(line, edit).0),
            None => true,
        },
{
    cells::cells_lie_within(line);
    match edit {
        ColumnEdit::Insert(at) => {
            let bars = cells::bars(line);
            if at < bars.len() {
                let point = bars[at as int];
                let piece = seq!['|', ' ', ' '];
                text::size_adds(line.take(point), piece);
                text::size_adds(line.take(point) + piece, line.skip(point));
                text::size_counts(piece);
                text::size_counts(line.skip(point));
                text::size_counts(line.take(point));
            } else if at == bars.len() {
                let piece = seq![' ', ' ', '|'];
                text::size_adds(line, piece);
                text::size_counts(piece);
                text::size_counts(line);
            }
        },
        ColumnEdit::Delete(at, stay) => {
            if at < cells::bars(line).len() {
                cell_caret_within(model::edited_row(line, edit).0, stay as int);
            }
        },
    }
}

/// A row after a column came or went, and where the caret stands in it.
fn edited_row(line: &Vec<char>, edit: &ColumnEdit) -> (out: (Vec<char>, Option<usize>))
    requires
        text::size(line@) <= usize::MAX,
        text::size(model::edited_row(line@, *edit).0) <= usize::MAX,
    ensures
        out.0@ == model::edited_row(line@, *edit).0,
        match out.1 {
            Some(at) => model::edited_row(line@, *edit).1 == Some(at as int),
            None => model::edited_row(line@, *edit).1 is None,
        },
{
    let bars = bars_of(line);
    proof {
        row_caret_within(line@, *edit);
        cells::cells_lie_within(line@);
    }
    match *edit {
        ColumnEdit::Insert(at) => {
            if at < bars.len() {
                let point: usize = bars[at];
                assert(point == cells::bars(line@)[at as int]);
                let mut out = part(line, 0, point);
                out.push('|');
                out.push(' ');
                out.push(' ');
                push_all(&mut out, &part(line, point, line.len()));
                assert(out@ =~= line@.take(point as int) + seq!['|', ' ', ' '] + line@.skip(
                    point as int,
                ));
                (out, Some(offset(line, point) + 2))
            } else if at == bars.len() {
                let mut out = part(line, 0, line.len());
                out.push(' ');
                out.push(' ');
                out.push('|');
                assert(out@ =~= line@ + seq![' ', ' ', '|']);
                assert(line@.take(line@.len() as int) =~= line@);
                (out, Some(offset(line, line.len()) + 2))
            } else {
                (part_all(line), None)
            }
        },
        ColumnEdit::Delete(at, stay) => {
            if at < bars.len() {
                let end: usize = if bars.len() - at > 1 {
                    bars[at + 1]
                } else {
                    line.len()
                };
                assert(bars@[at as int] == cells::bars(line@)[at as int]);
                let mut out = part(line, 0, bars[at]);
                push_all(&mut out, &part(line, end, line.len()));
                assert(out@ =~= line@.take(bars@[at as int] as int) + line@.skip(end as int));
                let caret: usize = cell_caret(&out, stay);
                (out, Some(caret))
            } else {
                (part_all(line), None)
            }
        },
    }
}

fn part_all(line: &Vec<char>) -> (out: Vec<char>)
    ensures
        out@ == line@,
{
    let out = part(line, 0, line.len());
    assert(out@ =~= line@);
    out
}

/// Fewer lines of a rewritten table are the beginning of more of them.
proof fn rebuilt_grows(
    table: TableModel,
    source: Seq<char>,
    rule: Seq<char>,
    edit: ColumnEdit,
    count: int,
    more: int,
)
    requires
        0 <= count <= more,
    ensures
        model::rebuilt(table, source, rule, edit, count).is_prefix_of(
            model::rebuilt(table, source, rule, edit, more),
        ),
        text::size(model::rebuilt(table, source, rule, edit, count)) <= text::size(
            model::rebuilt(table, source, rule, edit, more),
        ),
    decreases more - count,
{
    if count < more {
        rebuilt_grows(table, source, rule, edit, count, more - 1);
        let before = model::rebuilt(table, source, rule, edit, more - 1);
        let line = if more == 2 {
            rule
        } else {
            model::edited_row(table.line(source, more - 1), edit).0
        };
        text::size_adds(before, model::break_if(more > 1));
        text::size_adds(before + model::break_if(more > 1), line);
        text::size_counts(model::break_if(more > 1));
        text::size_counts(line);
    } else {
        assert(model::rebuilt(table, source, rule, edit, count) =~= model::rebuilt(
            table,
            source,
            rule,
            edit,
            more,
        ));
    }
}

/// A rewritten line takes no more than the rewritten table.
proof fn rebuilt_line_fits(
    table: TableModel,
    source: Seq<char>,
    rule: Seq<char>,
    edit: ColumnEdit,
    line: int,
)
    requires
        0 <= line < table.count,
        line != 1,
    ensures
        text::size(
            model::rebuilt(table, source, rule, edit, line) + model::break_if(line > 0),
        ) + text::size(model::edited_row(table.line(source, line), edit).0) <= text::size(
            model::rebuilt(table, source, rule, edit, table.count),
        ),
        text::size(model::edited_row(table.line(source, line), edit).0) <= text::size(
            model::rebuilt(table, source, rule, edit, table.count),
        ),
{
    let before = model::rebuilt(table, source, rule, edit, line) + model::break_if(line > 0);
    let row = model::edited_row(table.line(source, line), edit).0;
    text::size_adds(before, row);
    text::size_counts(before);
    rebuilt_grows(table, source, rule, edit, line + 1, table.count);
}

/// Rewrites all lines of the table.
fn rebuild(table: &Table, rule: &Vec<char>, edit: ColumnEdit) -> (out: Edit)
    requires
        table.wf(),
        rule@.len() >= 1,
        model::fits(Some(model::rebuild_model(table.model(), table.chars@, rule@, edit))),
    ensures
        is_edit(
            Some(out),
            Some(model::rebuild_model(table.model(), table.chars@, rule@, edit)),
        ),
{
    let ghost it = table.model();
    let ghost source = table.chars@;
    let ghost all = model::rebuilt(it, source, rule@, edit, it.count);
    let (first, _) = table.bounds_of(0);
    let (_, last) = table.bounds_of(table.count - 1);
    let start: usize = table.offset_of(first);
    let end: usize = table.offset_of(last);
    let mut out: Vec<char> = Vec::new();
    let mut mark: usize = 0;
    let mut caret: Option<usize> = None;
    let row: usize = if table.here == 1 {
        0
    } else {
        table.here
    };
    let mut line: usize = 0;
    while line < table.count
        invariant
            line <= table.count,
            table.wf(),
            it == table.model(),
            row == model::caret_line(it),
            source == table.chars@,
            all == model::rebuilt(it, source, rule@, edit, it.count),
            text::size(all) <= usize::MAX,
            out@ == model::rebuilt(it, source, rule@, edit, line as int),
            line <= row ==> caret is None,
            line > row ==> {
                &&& match caret {
                    Some(at) => model::edited_row(it.line(source, row as int), edit).1 == Some(
                        at as int,
                    ),
                    None => model::edited_row(it.line(source, row as int), edit).1 is None,
                }
                &&& mark <= out@.len()
                &&& out@.take(mark as int) == model::rebuilt(it, source, rule@, edit, row as int)
                    + model::break_if(row > 0)
            },
        decreases table.count - line,
    {
        let ghost before = out@;
        if line > 0 {
            out.push('\n');
        }
        assert(out@ =~= before + model::break_if(line > 0));
        let ghost begun = out@;
        if line == 1 {
            push_all(&mut out, rule);
        } else {
            let text = table.line(line);
            proof {
                rebuilt_line_fits(it, source, rule@, edit, line as int);
                line_size_fits(*table, line as int);
            }
            let (written, at) = edited_row(&text, &edit);
            if line == row {
                caret = at;
                mark = out.len();
            }
            push_all(&mut out, &written);
        }
        line += 1;
        proof {
            if line > row {
                assert(mark <= begun.len());
                assert(out@.take(mark as int) =~= begun.take(mark as int));
                if line - 1 == row {
                    assert(begun.take(mark as int) =~= begun);
                } else {
                    assert(begun.take(mark as int) =~= before.take(mark as int));
                }
            }
        }
    }
    let whole: usize = {
        assert(out@.subrange(0, out@.len() as int) =~= out@);
        size_of(&out, 0, out.len())
    };
    proof {
        two_lines_at_least(it, source, rule@, edit);
        rebuilt_line_fits(it, source, rule@, edit, row as int);
        row_caret_within(it.line(source, row as int), edit);
        text::size_counts(
            model::rebuilt(it, source, rule@, edit, row as int) + model::break_if(row > 0),
        );
    }
    let caret: usize = match caret {
        Some(at) => {
            assert(out@.subrange(0, mark as int) =~= out@.take(mark as int));
            start + size_of(&out, 0, mark) + at
        },
        None => start + 2,
    };
    let caret: usize = if caret > start + whole {
        start + whole
    } else {
        caret
    };
    (Range { start, end }, string_of(&out), (caret, caret))
}

proof fn line_size_fits(table: Table, line: int)
    requires
        table.wf(),
        0 <= line < table.count,
    ensures
        text::size(table.model().line(table.chars@, line)) <= usize::MAX,
{
    text_blocks::lines_follow(table.chars@);
    let (start, end) = text_blocks::lines(table.chars@)[table.first + line];
    text::size_of_part(table.chars@, start, end);
}

/// A rewritten table has a line break and a rule.
proof fn two_lines_at_least(
    table: TableModel,
    source: Seq<char>,
    rule: Seq<char>,
    edit: ColumnEdit,
)
    requires
        table.count >= 2,
        rule.len() >= 1,
    ensures
        text::size(model::rebuilt(table, source, rule, edit, table.count)) >= 2,
{
    rebuilt_grows(table, source, rule, edit, 2, table.count);
    let one = model::rebuilt(table, source, rule, edit, 1);
    text::size_adds(one, model::break_if(true));
    text::size_adds(one + model::break_if(true), rule);
    text::size_counts(one);
    text::size_counts(rule);
    text::size_counts(model::break_if(true));
}

/// Rewrites the rule only. The caret stays on the same character.
fn rule_edit(table: &Table, rule: &Vec<char>, byte: usize) -> (out: Option<Edit>)
    requires
        table.wf(),
        model::fits(model::rule_model(table.model(), table.chars@, rule@, byte as int)),
    ensures
        is_edit(out, model::rule_model(table.model(), table.chars@, rule@, byte as int)),
{
    let (first, last) = table.bounds_of(1);
    let line = table.line(1);
    if line.len() == rule.len() && text::stands_at(&line, 0, rule) {
        assert(line@.subrange(0, rule@.len() as int) =~= line@);
        return None;
    }
    proof {
        if line@ == rule@ {
            assert(line@.subrange(0, rule@.len() as int) =~= rule@);
        }
        text::size_of_part(table.chars@, first as int, last as int);
        text::size_counts(rule@);
        assert(rule@.subrange(0, rule@.len() as int) =~= rule@);
    }
    let start: usize = table.offset_of(first);
    let end: usize = table.offset_of(last);
    let length: usize = size_of(rule, 0, rule.len());
    let caret: usize = if byte >= end {
        byte - (end - start) + length
    } else if byte > start + length {
        start + length
    } else {
        byte
    };
    Some((Range { start, end }, string_of(rule), (caret, caret)))
}

/// The widths that a rule line states, in hundredths of the line. As many dashes
/// in every column are no statement, and neither is a single column.
pub fn table_widths(line: &str) -> (out: Option<Vec<u32>>)
    ensures
        match out {
            Some(it) => model::stated(line@) == Some(it@),
            None => model::stated(line@) is None,
        },
{
    let chars = chars_of(line);
    stated_in(&chars)
}

fn stated_in(line: &Vec<char>) -> (out: Option<Vec<u32>>)
    ensures
        match out {
            Some(it) => model::stated(line@) == Some(it@),
            None => model::stated(line@) is None,
        },
{
    match rule_cells(line) {
        Some(rule) => {
            let counts = dashes(&rule);
            if widths::is_all_same(&counts) {
                None
            } else {
                Some(counts)
            }
        },
        None => None,
    }
}

/// The rule with these numbers of dashes.
fn with_dashes(rule: &Vec<RuleCell>, counts: &Vec<u32>) -> (out: Vec<RuleCell>)
    ensures
        out@ == model::with_dashes(rule@, counts@),
{
    let mut out: Vec<RuleCell> = Vec::new();
    let ghost all = model::with_dashes(rule@, counts@);
    let mut at: usize = 0;
    while at < rule.len()
        invariant
            at <= rule@.len(),
            all == model::with_dashes(rule@, counts@),
            out@ == all.take(at as int),
        decreases rule@.len() - at,
    {
        if at < counts.len() {
            out.push(RuleCell { dashes: counts[at], ..rule[at] });
        } else {
            out.push(rule[at]);
        }
        at += 1;
        assert(out@ =~= all.take(at as int));
    }
    assert(out@ =~= all);
    out
}

/// The dashes of a rule are numbers of the machine.
proof fn dashes_are_few(table: Table)
    requires
        table.wf(),
        table.chars@.len() <= u32::MAX,
        table.model().rule(table.chars@) is Some,
    ensures
        ({
            let rule = table.model().rule(table.chars@)->Some_0;
            &&& 1 <= rule.len() <= u32::MAX - 1
            &&& 0 <= cells::total(cells::dashes_of(rule)) <= u32::MAX
        }),
{
    text_blocks::lines_follow(table.chars@);
    let (start, end) = text_blocks::lines(table.chars@)[table.first + 1];
    let line = table.model().line(table.chars@, 1);
    assert(text_blocks::lines(table.chars@)[table.first as int].1 + 1 == start);
    cells::cells_lie_within(line);
    cells::bars_are_few(line);
    cells::dashes_fit(line, cells::columns_of(line));
    assert(cells::cell(line, cells::columns_of(line) - 1).1 <= line.len());
}

/// Which entries of the table menu can be chosen; nothing where the caret is in
/// no table.
pub fn table_edit_state(source: &str, styles: &[LineStyle], byte: usize) -> (out: Option<[bool; 7]>)
    requires
        text::size(source@) <= usize::MAX,
    ensures
        match out {
            Some(state) => model::state_model(source@, styles@, byte as int) == Some(state@),
            None => model::state_model(source@, styles@, byte as int) is None,
        },
{
    match find_table(source, styles, byte) {
        Some(table) => {
            let line = table.line(1);
            match rule_cells(&line) {
                Some(rule) => {
                    let body = table.here >= 2;
                    let specified = stated_in(&line).is_some();
                    let out: [bool; 7] = [
                        body,
                        true,
                        true,
                        true,
                        body,
                        rule.len() >= 2,
                        specified,
                    ];
                    assert(out@ =~= seq![
                        body,
                        true,
                        true,
                        true,
                        body,
                        rule@.len() >= 2,
                        specified,
                    ]);
                    Some(out)
                },
                None => None,
            }
        },
        None => None,
    }
}

/// What an entry of the table menu does to the table around the caret.
///
/// Nothing goes before the header, and the header does not go: the table would
/// be one no more. On the rule the caret counts as on the header.
pub fn table_edit(source: &str, styles: &[LineStyle], byte: usize, what: TableEdit) -> (out: Option<
    Edit,
>)
    requires
        text::size(source@) <= usize::MAX,
        source@.len() <= u32::MAX,
        model::fits(model::edit_model(source@, styles@, byte as int, what)),
    ensures
        is_edit(out, model::edit_model(source@, styles@, byte as int, what)),
{
    let table = match find_table(source, styles, byte) {
        Some(table) => table,
        None => {
            return None;
        },
    };
    let rule_line = table.line(1);
    let rule = match rule_cells(&rule_line) {
        Some(rule) => rule,
        None => {
            return None;
        },
    };
    proof {
        dashes_are_few(table);
    }
    let columns: usize = rule.len();
    let (start, end) = table.bounds_of(table.here);
    let here = table.line(table.here);
    let column: usize = column_at(&here, table.at - start, columns);
    match what {
        TableEdit::RowAfter => {
            let below: usize = if table.here < 1 {
                1
            } else {
                table.here
            };
            let (_, last) = table.bounds_of(below);
            let point: usize = table.offset_of(last);
            let mut text: Vec<char> = vec!['\n'];
            push_all(&mut text, &empty_row(columns));
            assert(text@ =~= seq!['\n'] + model::empty_row(columns as int));
            let caret: usize = point + 1 + (2 + 3 * column);
            Some((Range { start: point, end: point }, string_of(&text), (caret, caret)))
        },
        TableEdit::RowBefore => {
            if table.here < 2 {
                return None;
            }
            let point: usize = table.offset_of(start);
            let mut text = empty_row(columns);
            text.push('\n');
            assert(text@ =~= model::empty_row(columns as int) + seq!['\n']);
            let caret: usize = point + (2 + 3 * column);
            Some((Range { start: point, end: point }, string_of(&text), (caret, caret)))
        },
        TableEdit::DeleteRow => delete_row(&table, column),
        TableEdit::ColumnBefore => Some(insert_column(&table, &rule, column)),
        TableEdit::ColumnAfter => Some(insert_column(&table, &rule, column + 1)),
        TableEdit::DeleteColumn => {
            if columns < 2 {
                return None;
            }
            let stay: usize = if column > columns - 2 {
                columns - 2
            } else {
                column
            };
            let counts = removed_widths(&rule, column);
            let mut rest = rule;
            let _ = rest.remove(column);
            let written = rule_text(&with_dashes(&rest, &counts));
            proof {
                rule_text_is_something(model::with_dashes(rest@, counts@));
            }
            Some(rebuild(&table, &written, ColumnEdit::Delete(column, stay)))
        },
        TableEdit::ResetWidths => {
            if stated_in(&rule_line).is_none() {
                return None;
            }
            let mut even: Vec<RuleCell> = Vec::new();
            let ghost all = rule@.map_values(
                |one: RuleCell| RuleCell { dashes: widths::MIN_WIDTH, ..one },
            );
            let mut at: usize = 0;
            while at < rule.len()
                invariant
                    at <= rule@.len(),
                    all == rule@.map_values(
                        |one: RuleCell| RuleCell { dashes: widths::MIN_WIDTH, ..one },
                    ),
                    even@ == all.take(at as int),
                decreases rule@.len() - at,
            {
                even.push(RuleCell { dashes: MIN_WIDTH, ..rule[at] });
                at += 1;
                assert(even@ =~= all.take(at as int));
            }
            assert(even@ =~= all);
            rule_edit(&table, &rule_text(&even), byte)
        },
    }
}

proof fn rule_text_is_something(rule: Seq<RuleCell>)
    ensures
        model::rule_text(rule).len() >= 1,
    decreases rule.len(),
{
    if rule.len() > 0 {
        rule_text_is_something(rule.drop_last());
    }
}

fn delete_row(table: &Table, column: usize) -> (out: Option<Edit>)
    requires
        table.wf(),
        model::fits(model::deleted_row(table.model(), table.chars@, column as int)),
    ensures
        is_edit(out, model::deleted_row(table.model(), table.chars@, column as int)),
{
    if table.here < 2 {
        return None;
    }
    let (start, end) = table.bounds_of(table.here);
    proof {
        text_blocks::lines_follow(table.chars@);
        assert(text_blocks::lines(table.chars@)[table.first + table.here - 1].1 + 1 == start);
        text::size_of_part(table.chars@, start as int, start as int);
        text::size_counts(table.chars@.take(start as int));
        text::size_of_part(table.chars@, 0, end as int);
        assert(table.chars@.subrange(0, end as int) =~= table.chars@.take(end as int));
        if end < table.chars@.len() {
            text::size_of_part(table.chars@, end as int, end + 1);
            text::size_counts(table.chars@.subrange(end as int, end + 1));
            text::size_of_part(table.chars@, end + 1, end + 1);
        }
    }
    let from: usize = table.offset_of(start);
    let to: usize = table.offset_of(end);
    let (base, line) = if table.here + 1 < table.count {
        proof {
            line_size_fits(*table, table.here + 1);
        }
        (from, table.line(table.here + 1))
    } else {
        // Before the first row of the body comes the header.
        let target: usize = if table.here == 2 {
            0
        } else {
            table.here - 1
        };
        proof {
            line_size_fits(*table, target as int);
        }
        let (first, _) = table.bounds_of(target);
        (table.offset_of(first), table.line(target))
    };
    proof {
        cell_caret_within(line@, column as int);
    }
    let caret: usize = base + cell_caret(&line, column);
    // The row goes with the line break behind it, or with the one before it
    // where it is the last of the text.
    let range = if end < table.chars.len() {
        Range { start: from, end: to + 1 }
    } else {
        Range { start: from - 1, end: to }
    };
    Some((range, String::new(), (caret, caret)))
}

fn insert_column(table: &Table, rule: &Vec<RuleCell>, at: usize) -> (out: Edit)
    requires
        table.wf(),
        1 <= rule@.len() < u32::MAX,
        at <= rule@.len(),
        cells::total(cells::dashes_of(rule@)) <= u32::MAX,
        model::fits(
            Some(model::column_model(table.model(), rule@, table.chars@, at as int)),
        ),
    ensures
        is_edit(
            Some(out),
            Some(model::column_model(table.model(), rule@, table.chars@, at as int)),
        ),
{
    let counts = inserted_widths(rule, at);
    let mut wider: Vec<RuleCell> = Vec::new();
    let mut k: usize = 0;
    while k < rule.len()
        invariant
            k <= rule@.len(),
            wider@ == rule@.take(k as int),
        decreases rule@.len() - k,
    {
        wider.push(rule[k]);
        k += 1;
        assert(wider@ =~= rule@.take(k as int));
    }
    assert(wider@ =~= rule@);
    wider.insert(at, RuleCell { left: false, right: false, dashes: MIN_WIDTH });
    let written = rule_text(&with_dashes(&wider, &counts));
    proof {
        rule_text_is_something(model::with_dashes(wider@, counts@));
    }
    rebuild(table, &written, ColumnEdit::Insert(at))
}

/// Rewrites the rule of the table around a byte with these widths. The colons
/// stay.
pub fn widths_edit(
    source: &str,
    styles: &[LineStyle],
    table_line: usize,
    wanted: &[u32],
    caret: usize,
) -> (out: Option<Edit>)
    requires
        text::size(source@) <= usize::MAX,
        model::fits(
            model::widths_model(source@, styles@, table_line as int, wanted@, caret as int),
        ),
    ensures
        is_edit(
            out,
            model::widths_model(source@, styles@, table_line as int, wanted@, caret as int),
        ),
{
    let table = match find_table(source, styles, table_line) {
        Some(table) => table,
        None => {
            return None;
        },
    };
    let rule = match rule_cells(&table.line(1)) {
        Some(rule) => rule,
        None => {
            return None;
        },
    };
    if rule.len() != wanted.len() {
        return None;
    }
    let mut counts: Vec<u32> = Vec::new();
    let ghost all = wanted@.map_values(|one: u32| widths::at_least_min(one as int));
    let mut at: usize = 0;
    while at < wanted.len()
        invariant
            at <= wanted@.len(),
            all == wanted@.map_values(|one: u32| widths::at_least_min(one as int)),
            counts@ == all.take(at as int),
        decreases wanted@.len() - at,
    {
        counts.push(
            if wanted[at] < MIN_WIDTH {
                MIN_WIDTH
            } else {
                wanted[at]
            },
        );
        at += 1;
        assert(counts@ =~= all.take(at as int));
    }
    assert(counts@ =~= all);
    rule_edit(&table, &rule_text(&with_dashes(&rule, &counts)), caret)
}

/// The widths that the table around a byte states.
pub fn stated_widths(source: &str, styles: &[LineStyle], byte: usize) -> (out: Option<Vec<u32>>)
    requires
        text::size(source@) <= usize::MAX,
    ensures
        match out {
            Some(it) => model::stated_model(source@, styles@, byte as int) == Some(it@),
            None => model::stated_model(source@, styles@, byte as int) is None,
        },
{
    match find_table(source, styles, byte) {
        Some(table) => stated_in(&table.line(1)),
        None => None,
    }
}

} // verus!
