//! What each edit of a table makes of the text.
//!
//! Places in the text are counted in characters here; an [`EditModel`] counts in
//! bytes, as the edits that are handed out do.
use crate::table_edit::cells::{self, RuleCell};
use crate::table_edit::widths;
use crate::text;
use crate::text_blocks::{self, LineKind, LineStyle};
use vstd::prelude::*;

verus! {

/// The entries of the table menu.
#[derive(Clone, Copy, Debug, PartialEq, Eq, Structural)]
pub enum TableEdit {
    RowBefore,
    RowAfter,
    ColumnBefore,
    ColumnAfter,
    DeleteRow,
    DeleteColumn,
    ResetWidths,
}

/// A rewriting: the bytes to replace, the text to put there, and where the
/// caret stands afterwards, in bytes of the new text.
#[verifier::ext_equal]
pub struct EditModel {
    pub from: int,
    pub to: int,
    pub text: Seq<char>,
    pub caret: int,
}

/// `count` times the same text.
pub open spec fn repeated(part: Seq<char>, count: int) -> Seq<char>
    decreases count,
{
    if count <= 0 {
        Seq::empty()
    } else {
        repeated(part, count - 1) + part
    }
}

pub open spec fn colon_if(there: bool) -> Seq<char> {
    if there {
        seq![':']
    } else {
        Seq::empty()
    }
}

/// One column of a rule line: `" :---: |"`.
pub open spec fn rule_piece(one: RuleCell) -> Seq<char> {
    seq![' '] + colon_if(one.left) + repeated(
        seq!['-'],
        if one.dashes < 1 {
            1
        } else {
            one.dashes as int
        },
    ) + colon_if(one.right) + seq![' ', '|']
}

/// A rule line.
pub open spec fn rule_text(rule: Seq<RuleCell>) -> Seq<char>
    decreases rule.len(),
{
    if rule.len() == 0 {
        seq!['|']
    } else {
        rule_text(rule.drop_last()) + rule_piece(rule.last())
    }
}

/// A row of empty cells: `|  |  |`.
pub open spec fn empty_row(columns: int) -> Seq<char> {
    seq!['|'] + repeated(seq![' ', ' ', '|'], columns)
}

/// Where the caret stands in a cell of an empty row, in bytes: behind the first
/// blank, so that what is typed stands in the middle.
pub open spec fn empty_row_caret(column: int) -> int {
    2 + 3 * column
}

/// A column of the least width, without colons.
pub open spec fn new_column() -> RuleCell {
    RuleCell { left: false, right: false, dashes: widths::MIN_WIDTH }
}

/// A table of `rows` rows, the header with them, and a rule below the header.
pub open spec fn new_table(rows: int, columns: int) -> Seq<char> {
    empty_row(columns) + seq!['\n'] + rule_text(
        Seq::new(columns as nat, |k: int| new_column()),
    ) + repeated(seq!['\n'] + empty_row(columns), rows - 1)
}

/// A line on which a table may be placed.
pub open spec fn takes_a_table(style: LineStyle) -> bool {
    &&& style.quote_depth == 0
    &&& style.list_indent == 0
    &&& !style.kind.code()
    &&& !style.kind.table()
    &&& !style.kind.list()
    &&& style.kind != LineKind::FrontMatter
}

/// Whether a table may be placed at the caret: nothing is selected, and the line
/// is no quote, list, code, table or front matter.
pub open spec fn can_place(
    source: Seq<char>,
    styles: Seq<LineStyle>,
    from: int,
    to: int,
) -> bool {
    match text::chars_before(source, from) {
        Some(at) => {
            let line = text_blocks::line_of(source, at);
            from == to && (line < styles.len() ==> takes_a_table(styles[line]))
        },
        None => false,
    }
}

/// Whether a range holds anything but white space.
pub open spec fn has_text(source: Seq<char>, from: int, to: int) -> bool {
    exists|at: int| from <= at < to && !text::is_space(#[trigger] source[at])
}

pub open spec fn break_if(there: bool) -> Seq<char> {
    if there {
        seq!['\n']
    } else {
        Seq::empty()
    }
}

/// `count` line breaks.
pub open spec fn breaks(count: int) -> Seq<char> {
    Seq::new(count as nat, |k: int| '\n')
}

/// The byte offset of a character.
pub open spec fn offset(source: Seq<char>, at: int) -> int {
    text::size(source.take(at))
}

/// A new table, on the caret's line where that is empty and else below it. Blank
/// lines keep it apart from the paragraphs around it.
pub open spec fn insert_model(
    source: Seq<char>,
    styles: Seq<LineStyle>,
    from: int,
    to: int,
    rows: int,
    columns: int,
) -> Option<EditModel> {
    if rows == 0 || columns == 0 || !can_place(source, styles, from, to) {
        None
    } else {
        let lines = text_blocks::lines(source);
        let line = text_blocks::line_of(source, text::chars_before(source, from)->Some_0);
        let (start, end) = lines[line];
        let next = line + 1 < lines.len() && has_text(
            source,
            lines[line + 1].0,
            lines[line + 1].1,
        );
        if has_text(source, start, end) {
            Some(
                EditModel {
                    from: offset(source, end),
                    to: offset(source, end),
                    text: breaks(2) + new_table(rows, columns) + break_if(next),
                    caret: offset(source, end) + 2 + empty_row_caret(0),
                },
            )
        } else {
            let lead: int = if line > 0 && has_text(
                source,
                lines[line - 1].0,
                lines[line - 1].1,
            ) {
                1
            } else {
                0
            };
            Some(
                EditModel {
                    from: offset(source, start),
                    to: offset(source, end),
                    text: breaks(lead) + new_table(rows, columns) + break_if(next),
                    caret: offset(source, start) + lead + empty_row_caret(0),
                },
            )
        }
    }
}

pub open spec fn is_table_line(styles: Seq<LineStyle>, line: int) -> bool {
    0 <= line < styles.len() && styles[line].kind.table()
}

/// The first line of the table that a line belongs to.
pub open spec fn table_first(styles: Seq<LineStyle>, line: int) -> int
    decreases line,
{
    if line <= 0 || !is_table_line(styles, line - 1) {
        line
    } else {
        table_first(styles, line - 1)
    }
}

/// The last line of the table that a line belongs to.
pub open spec fn table_last(styles: Seq<LineStyle>, line: int, count: int) -> int
    decreases count - line,
{
    if line + 1 >= count || !is_table_line(styles, line + 1) {
        line
    } else {
        table_last(styles, line + 1, count)
    }
}

/// A table: the number of its first line, how many lines it has, and on which of
/// them the caret is. Line 0 is the header and line 1 the rule.
pub struct TableModel {
    pub first: int,
    pub count: int,
    pub here: int,
}

/// The character at a byte offset; one behind the end counts as the end.
pub open spec fn place(source: Seq<char>, byte: int) -> Option<int> {
    if byte > text::size(source) {
        Some(source.len() as int)
    } else {
        text::chars_before(source, byte)
    }
}

/// The table around a character. A header and a rule make a table.
pub open spec fn table_at(source: Seq<char>, styles: Seq<LineStyle>, at: int) -> Option<
    TableModel,
> {
    let line = text_blocks::line_of(source, at);
    if is_table_line(styles, line) {
        let first = table_first(styles, line);
        let last = table_last(styles, line, text_blocks::lines(source).len() as int);
        if last > first {
            Some(TableModel { first, count: last - first + 1, here: line - first })
        } else {
            None
        }
    } else {
        None
    }
}

impl TableModel {
    /// Where a line of the table begins and ends.
    pub open spec fn bounds(self, source: Seq<char>, line: int) -> (int, int) {
        text_blocks::lines(source)[self.first + line]
    }

    pub open spec fn line(self, source: Seq<char>, line: int) -> Seq<char> {
        let (start, end) = self.bounds(source, line);
        source.subrange(start, end)
    }

    pub open spec fn rule(self, source: Seq<char>) -> Option<Seq<RuleCell>> {
        cells::rule_of(self.line(source, 1))
    }
}

/// How many of these bars, from the first, are before a place.
pub open spec fn bars_before(bars: Seq<int>, offset: int, count: int) -> int
    decreases count,
{
    if count <= 0 {
        0
    } else {
        bars_before(bars, offset, count - 1) + if bars[count - 1] < offset {
            1int
        } else {
            0
        }
    }
}

/// The column that a place in a line is in. The blank behind a bar belongs to
/// the next cell.
pub open spec fn column_at(line: Seq<char>, offset: int, columns: int) -> int {
    let bars = cells::bars(line);
    let before = bars_before(bars, offset, bars.len() as int) - 1;
    if before < 0 {
        0
    } else if before > columns - 1 {
        columns - 1
    } else {
        before
    }
}

/// Where the caret goes in a cell, in bytes of the line: before its text, or
/// behind its first blank where it has none.
pub open spec fn cell_caret(line: Seq<char>, column: int) -> int {
    if column < cells::bars(line).len() {
        let (from, to) = cells::cell(line, column);
        let first = text::skip_space(line, from, to);
        if first < to {
            offset(line, first)
        } else if from < to {
            offset(line, from) + 1
        } else {
            offset(line, from)
        }
    } else {
        text::size(line)
    }
}

/// What happens to the cells of each row.
pub enum ColumnEdit {
    /// A column comes in at this place.
    Insert(usize),
    /// The first is gone; the caret stays in the second.
    Delete(usize, usize),
}

/// A row after a column came or went, and where the caret stands in it.
pub open spec fn edited_row(line: Seq<char>, edit: ColumnEdit) -> (Seq<char>, Option<int>) {
    let bars = cells::bars(line);
    match edit {
        ColumnEdit::Insert(at) => if at < bars.len() {
            let point = bars[at as int];
            (
                line.take(point) + seq!['|', ' ', ' '] + line.skip(point),
                Some(offset(line, point) + 2),
            )
        } else if at == bars.len() {
            (line + seq![' ', ' ', '|'], Some(text::size(line) + 2))
        } else {
            (line, None)
        },
        ColumnEdit::Delete(at, stay) => if at < bars.len() {
            let end = if at + 1 < bars.len() {
                bars[at + 1]
            } else {
                line.len() as int
            };
            let out = line.take(bars[at as int]) + line.skip(end);
            (out, Some(cell_caret(out, stay as int)))
        } else {
            (line, None)
        },
    }
}

/// The first `count` lines of the table, rewritten.
pub open spec fn rebuilt(
    table: TableModel,
    source: Seq<char>,
    rule: Seq<char>,
    edit: ColumnEdit,
    count: int,
) -> Seq<char>
    decreases count,
{
    if count <= 0 {
        Seq::empty()
    } else {
        rebuilt(table, source, rule, edit, count - 1) + break_if(count > 1) + if count == 2 {
            rule
        } else {
            edited_row(table.line(source, count - 1), edit).0
        }
    }
}

/// The line on which the caret stands after the columns changed: on the rule it
/// counts as on the header.
pub open spec fn caret_line(table: TableModel) -> int {
    if table.here == 1 {
        0
    } else {
        table.here
    }
}

/// All lines of the table rewritten. From the rule the caret goes to the same
/// column of the header.
pub open spec fn rebuild_model(
    table: TableModel,
    source: Seq<char>,
    rule: Seq<char>,
    edit: ColumnEdit,
) -> EditModel {
    let start = offset(source, table.bounds(source, 0).0);
    let end = offset(source, table.bounds(source, table.count - 1).1);
    let out = rebuilt(table, source, rule, edit, table.count);
    let row = caret_line(table);
    let before = rebuilt(table, source, rule, edit, row) + break_if(row > 0);
    let caret = match edited_row(table.line(source, row), edit).1 {
        Some(at) => start + text::size(before) + at,
        None => start + 2,
    };
    EditModel {
        from: start,
        to: end,
        text: out,
        caret: if caret > start + text::size(out) {
            start + text::size(out)
        } else {
            caret
        },
    }
}

/// The rule with these numbers of dashes, as far as there are.
pub open spec fn with_dashes(rule: Seq<RuleCell>, dashes: Seq<u32>) -> Seq<RuleCell> {
    Seq::new(
        rule.len(),
        |k: int|
            if k < dashes.len() {
                RuleCell { dashes: dashes[k], ..rule[k] }
            } else {
                rule[k]
            },
    )
}

/// Only the rule is rewritten; the caret stays on the same character.
pub open spec fn rule_model(
    table: TableModel,
    source: Seq<char>,
    rule: Seq<char>,
    byte: int,
) -> Option<EditModel> {
    let (first, last) = table.bounds(source, 1);
    let (start, end) = (offset(source, first), offset(source, last));
    if table.line(source, 1) == rule {
        None
    } else {
        Some(
            EditModel {
                from: start,
                to: end,
                text: rule,
                caret: if byte >= end {
                    byte - (end - start) + text::size(rule)
                } else if byte > start + text::size(rule) {
                    start + text::size(rule)
                } else {
                    byte
                },
            },
        )
    }
}

/// The widths that a rule states.
pub open spec fn stated(line: Seq<char>) -> Option<Seq<u32>> {
    match cells::rule_of(line) {
        Some(rule) => if widths::all_same(cells::dashes_of(rule)) {
            None
        } else {
            Some(cells::dashes_of(rule))
        },
        None => None,
    }
}

/// What an entry of the table menu does. Nothing goes before the header, and the
/// header does not go.
pub open spec fn edit_in(
    table: TableModel,
    rule: Seq<RuleCell>,
    source: Seq<char>,
    at: int,
    byte: int,
    what: TableEdit,
) -> Option<EditModel> {
    let columns = rule.len() as int;
    let (start, end) = table.bounds(source, table.here);
    let column = column_at(table.line(source, table.here), at - start, columns);
    match what {
        TableEdit::RowAfter => {
            let below = table.bounds(
                source,
                if table.here < 1 {
                    1
                } else {
                    table.here
                },
            ).1;
            Some(
                EditModel {
                    from: offset(source, below),
                    to: offset(source, below),
                    text: seq!['\n'] + empty_row(columns),
                    caret: offset(source, below) + 1 + empty_row_caret(column),
                },
            )
        },
        TableEdit::RowBefore => if table.here < 2 {
            None
        } else {
            Some(
                EditModel {
                    from: offset(source, start),
                    to: offset(source, start),
                    text: empty_row(columns) + seq!['\n'],
                    caret: offset(source, start) + empty_row_caret(column),
                },
            )
        },
        TableEdit::DeleteRow => deleted_row(table, source, column),
        TableEdit::ColumnBefore => Some(column_model(table, rule, source, column)),
        TableEdit::ColumnAfter => Some(column_model(table, rule, source, column + 1)),
        TableEdit::DeleteColumn => if columns < 2 {
            None
        } else {
            let stay = if column > columns - 2 {
                columns - 2
            } else {
                column
            };
            Some(
                rebuild_model(
                    table,
                    source,
                    rule_text(
                        with_dashes(
                            rule.remove(column),
                            widths::removed(cells::dashes_of(rule), column),
                        ),
                    ),
                    ColumnEdit::Delete(column as usize, stay as usize),
                ),
            )
        },
        TableEdit::ResetWidths => if stated(table.line(source, 1)) is None {
            None
        } else {
            rule_model(
                table,
                source,
                rule_text(
                    rule.map_values(
                        |one: RuleCell| RuleCell { dashes: widths::MIN_WIDTH, ..one },
                    ),
                ),
                byte,
            )
        },
    }
}

/// A row of the body goes. The caret goes to the same column of the next row, or
/// of the row before where there is none.
pub open spec fn deleted_row(table: TableModel, source: Seq<char>, column: int) -> Option<
    EditModel,
> {
    let (start, end) = table.bounds(source, table.here);
    if table.here < 2 {
        None
    } else {
        let target = if table.here == 2 {
            0
        } else {
            table.here - 1
        };
        Some(
            EditModel {
                from: if end < source.len() {
                    offset(source, start)
                } else {
                    offset(source, start) - 1
                },
                to: if end < source.len() {
                    offset(source, end) + 1
                } else {
                    offset(source, end)
                },
                text: Seq::empty(),
                caret: if table.here + 1 < table.count {
                    offset(source, start) + cell_caret(
                        table.line(source, table.here + 1),
                        column,
                    )
                } else {
                    offset(source, table.bounds(source, target).0) + cell_caret(
                        table.line(source, target),
                        column,
                    )
                },
            },
        )
    }
}

/// A column comes in at `at`.
pub open spec fn column_model(
    table: TableModel,
    rule: Seq<RuleCell>,
    source: Seq<char>,
    at: int,
) -> EditModel {
    rebuild_model(
        table,
        source,
        rule_text(
            with_dashes(
                rule.insert(at, new_column()),
                widths::inserted(cells::dashes_of(rule), at),
            ),
        ),
        ColumnEdit::Insert(at as usize),
    )
}

/// What an entry of the table menu does at a byte of the text.
pub open spec fn edit_model(
    source: Seq<char>,
    styles: Seq<LineStyle>,
    byte: int,
    what: TableEdit,
) -> Option<EditModel> {
    match place(source, byte) {
        Some(at) => match table_at(source, styles, at) {
            Some(table) => match table.rule(source) {
                Some(rule) => edit_in(table, rule, source, at, byte, what),
                None => None,
            },
            None => None,
        },
        None => None,
    }
}

/// Which entries of the menu can be chosen.
pub open spec fn state_model(source: Seq<char>, styles: Seq<LineStyle>, byte: int) -> Option<
    Seq<bool>,
> {
    match place(source, byte) {
        Some(at) => match table_at(source, styles, at) {
            Some(table) => match table.rule(source) {
                Some(rule) => {
                    let body = table.here >= 2;
                    Some(
                        seq![
                            body,
                            true,
                            true,
                            true,
                            body,
                            rule.len() >= 2,
                            stated(table.line(source, 1)) is Some,
                        ],
                    )
                },
                None => None,
            },
            None => None,
        },
        None => None,
    }
}

/// The rule rewritten with these widths; the colons stay.
pub open spec fn widths_model(
    source: Seq<char>,
    styles: Seq<LineStyle>,
    byte: int,
    wanted: Seq<u32>,
    caret: int,
) -> Option<EditModel> {
    match place(source, byte) {
        Some(at) => match table_at(source, styles, at) {
            Some(table) => match table.rule(source) {
                Some(rule) => if rule.len() == wanted.len() {
                    rule_model(
                        table,
                        source,
                        rule_text(
                            with_dashes(
                                rule,
                                wanted.map_values(
                                    |one: u32| widths::at_least_min(one as int),
                                ),
                            ),
                        ),
                        caret,
                    )
                } else {
                    None
                },
                None => None,
            },
            None => None,
        },
        None => None,
    }
}

/// The widths that the table around a byte states.
pub open spec fn stated_model(source: Seq<char>, styles: Seq<LineStyle>, byte: int) -> Option<
    Seq<u32>,
> {
    match place(source, byte) {
        Some(at) => match table_at(source, styles, at) {
            Some(table) => stated(table.line(source, 1)),
            None => None,
        },
        None => None,
    }
}

/// The offsets that an edit hands out are numbers of the machine.
pub open spec fn fits(edit: Option<EditModel>) -> bool {
    match edit {
        Some(it) => it.to <= usize::MAX && it.caret <= usize::MAX && it.from + text::size(it.text)
            <= usize::MAX,
        None => true,
    }
}

} // verus!
