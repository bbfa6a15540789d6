//! What becomes of every row of a table as a column comes or goes.
use crate::table_edit::cells::{self, RuleCell};
use crate::table_edit::laws;
use crate::table_edit::model::{self, ColumnEdit, TableEdit, TableModel};
use crate::table_edit::rewriting;
use crate::table_edit::shapes;
use crate::table_edit::widths::{self, MIN_WIDTH};
use crate::text_blocks::{self, LineKind, LineStyle};
use vstd::prelude::*;

verus! {

/// A place in a row is in this cell: behind the bar that opens it, and no further than
/// the next.
pub open spec fn is_in_cell(row: Seq<char>, at: int, column: int) -> bool {
    let bars = cells::bars(row);
    &&& 0 <= column < bars.len()
    &&& bars[column] < at
    &&& column + 1 < bars.len() ==> at <= bars[column + 1]
}

/// A row in which a blank cell comes in as the cell number `at`: in front of the one that
/// was there, or behind the last. A row that is shorter stays.
pub open spec fn has_cell_more(before: Seq<char>, after: Seq<char>, at: int) -> bool {
    let bars = cells::bars(before);
    &&& at < bars.len() ==> after == before.take(bars[at]) + seq!['|', ' ', ' '] + before.skip(
        bars[at],
    )
    &&& at == bars.len() ==> after == before + seq![' ', ' ', '|']
    &&& at > bars.len() ==> after == before
}

/// A row in which the cell number `at` is gone with the bar that opened it. A row that is
/// shorter stays.
pub open spec fn has_cell_less(before: Seq<char>, after: Seq<char>, at: int) -> bool {
    let bars = cells::bars(before);
    &&& at + 1 < bars.len() ==> after == before.take(bars[at]) + before.skip(bars[at + 1])
    &&& at + 1 == bars.len() ==> after == before.take(bars[at])
    &&& at >= bars.len() ==> after == before
}

/// The caret is in this column of its table, by the bars of its line.
pub open spec fn caret_is_in(
    source: Seq<char>,
    styles: Seq<LineStyle>,
    byte: int,
    column: int,
) -> bool {
    let table = shapes::table_around(source, styles, byte);
    let at = model::place(source, byte)->0;
    &&& column < table.rule(source)->0.len()
    &&& is_in_cell(
        table.line(source, table.here),
        at - table.bounds(source, table.here).0,
        column,
    )
}

proof fn an_edited_row_is_unbroken(line: Seq<char>, edit: ColumnEdit)
    requires
        rewriting::unbroken(line),
    ensures
        rewriting::unbroken(model::edited_row(line, edit).0),
{
    cells::cells_lie_within(line);
    let bars = cells::bars(line);
    match edit {
        ColumnEdit::Insert(at) => {
            if at < bars.len() {
                let point = bars[at as int];
                let cell = seq!['|', ' ', ' '];
                assert(rewriting::unbroken(line.take(point)));
                assert(rewriting::unbroken(line.skip(point)));
                assert(rewriting::unbroken(cell));
                rewriting::sums_are_unbroken(line.take(point), cell);
                rewriting::sums_are_unbroken(line.take(point) + cell, line.skip(point));
            } else {
                let cell = seq![' ', ' ', '|'];
                assert(rewriting::unbroken(cell));
                rewriting::sums_are_unbroken(line, cell);
            }
        },
        ColumnEdit::Delete(at, stay) => {
            if at < bars.len() {
                let end = if at + 1 < bars.len() {
                    bars[at + 1]
                } else {
                    line.len() as int
                };
                assert(rewriting::unbroken(line.take(bars[at as int])));
                assert(rewriting::unbroken(line.skip(end)));
                rewriting::sums_are_unbroken(line.take(bars[at as int]), line.skip(end));
            }
        },
    }
}

proof fn the_table_is_rebuilt(
    source: Seq<char>,
    table: TableModel,
    rule: Seq<char>,
    edit: ColumnEdit,
)
    requires
        0 <= table.first,
        table.count >= 2,
        table.first + table.count <= text_blocks::lines(source).len(),
        rewriting::unbroken(rule),
    ensures
        rewriting::rows(
            rewriting::rewritten(source, model::rebuild_model(table, source, rule, edit)),
        ) == rewriting::with_rows(
            source,
            table.first,
            rewriting::table_rows(table, source, rule, edit),
        ),
        rewriting::rows(source).len() == text_blocks::lines(source).len(),
{
    let new = rewriting::table_rows(table, source, rule, edit);
    assert forall|k: int| 0 <= k < new.len() implies rewriting::unbroken(#[trigger] new[k]) by {
        if k != 1 {
            rewriting::a_line_is_short(table, source, k);
            an_edited_row_is_unbroken(table.line(source, k), edit);
        }
    }
    rewriting::a_rebuilt_table_is_its_rows(table, source, rule, edit, table.count);
    assert(new.take(table.count) =~= new);
    rewriting::rows_are_replaced(
        source,
        table.first,
        new,
        model::rebuild_model(table, source, rule, edit),
    );
}

proof fn the_caret_gives_the_column(
    source: Seq<char>,
    styles: Seq<LineStyle>,
    byte: int,
    column: int,
)
    requires
        model::place(source, byte) is Some,
        model::table_at(source, styles, model::place(source, byte)->0) is Some,
        shapes::table_around(source, styles, byte).rule(source) is Some,
        caret_is_in(source, styles, byte, column),
    ensures
        ({
            let table = shapes::table_around(source, styles, byte);
            let at = model::place(source, byte)->0;
            model::column_at(
                table.line(source, table.here),
                at - table.bounds(source, table.here).0,
                table.rule(source)->0.len() as int,
            ) == column
        }),
{
    let table = shapes::table_around(source, styles, byte);
    let at = model::place(source, byte)->0 - table.bounds(source, table.here).0;
    let line = table.line(source, table.here);
    let bars = cells::bars(line);
    cells::cells_lie_within(line);
    rewriting::places_before(bars, column + 1, at, bars.len() as int);
}

proof fn dashes_of_a_rule(line: Seq<char>)
    requires
        line.len() <= u32::MAX,
        cells::rule_of(line) is Some,
    ensures
        cells::rule_of(line)->0.len() >= 1,
        cells::rule_of(line)->0.len() <= cells::bars(line).len(),
        forall|k: int|
            0 <= k < cells::rule_of(line)->0.len() ==> (#[trigger] cells::rule_of(line)->0[k]).dashes
                >= 1,
{
    laws::a_rule_has_columns(line);
    rewriting::rules_have_dashes(line, cells::columns_of(line));
}

/// The rule with a column more: the new one has no colons, and every other keeps its own.
pub open spec fn has_column_more(before: Seq<RuleCell>, after: Seq<RuleCell>, at: int) -> bool {
    &&& after.len() == before.len() + 1
    &&& !after[at].left && !after[at].right
    &&& forall|k: int|
        0 <= k < before.len() ==> ({
            let there = if k < at {
                k
            } else {
                k + 1
            };
            after[there].left == (#[trigger] before[k]).left && after[there].right
                == before[k].right
        })
}

/// The rule with a column less: every other keeps its colons.
pub open spec fn has_column_less(before: Seq<RuleCell>, after: Seq<RuleCell>, at: int) -> bool {
    &&& after.len() == before.len() - 1
    &&& forall|k: int|
        0 <= k < before.len() && k != at ==> ({
            let there = if k < at {
                k
            } else {
                k - 1
            };
            after[there].left == (#[trigger] before[k]).left && after[there].right
                == before[k].right
        })
}

proof fn a_longer_rule_reads_back(rule: Seq<RuleCell>, at: int)
    requires
        rule.len() >= 1,
        0 <= at <= rule.len(),
        forall|k: int| 0 <= k < rule.len() ==> (#[trigger] rule[k]).dashes >= 1,
    ensures
        ({
            let more = model::with_dashes(
                rule.insert(at, model::new_column()),
                widths::inserted(cells::dashes_of(rule), at),
            );
            &&& cells::rule_of(model::rule_text(more)) == Some(more)
            &&& has_column_more(rule, more, at)
        }),
{
    let dashes = cells::dashes_of(rule);
    let longer = rule.insert(at, model::new_column());
    let counts = widths::inserted(dashes, at);
    let more = model::with_dashes(longer, counts);
    if widths::all_same(dashes) {
        assert(dashes[0] == rule[0].dashes);
    } else {
        laws::settled_widths_hold(
            dashes.map_values(
                |one: u32| widths::scaled(one, widths::shrinking(dashes)),
            ).insert(at, crate::table_edit::single::to_count(widths::average(dashes))),
            cells::total(dashes),
        );
    }
    assert forall|k: int| 0 <= k < more.len() implies (#[trigger] more[k]).dashes >= 1 by {
        assert(more[k].dashes == counts[k]);
    }
    laws::a_written_rule_reads_back(more);
    assert forall|k: int| 0 <= k < rule.len() implies ({
        let there = if k < at {
            k
        } else {
            k + 1
        };
        more[there].left == (#[trigger] rule[k]).left && more[there].right == rule[k].right
    }) by {
        let there = if k < at {
            k
        } else {
            k + 1
        };
        assert(longer[there] == rule[k]);
    }
}

proof fn a_shorter_rule_reads_back(rule: Seq<RuleCell>, at: int)
    requires
        rule.len() >= 2,
        0 <= at < rule.len(),
        forall|k: int| 0 <= k < rule.len() ==> (#[trigger] rule[k]).dashes >= 1,
    ensures
        ({
            let less = model::with_dashes(
                rule.remove(at),
                widths::removed(cells::dashes_of(rule), at),
            );
            &&& cells::rule_of(model::rule_text(less)) == Some(less)
            &&& has_column_less(rule, less, at)
        }),
{
    let dashes = cells::dashes_of(rule);
    let shorter = rule.remove(at);
    let counts = widths::removed(dashes, at);
    let less = model::with_dashes(shorter, counts);
    let rest = dashes.remove(at);
    if !widths::all_same(dashes) {
        let scale = widths::growing(cells::total(dashes), cells::total(rest));
        laws::settled_widths_hold(
            rest.map_values(|one: u32| widths::scaled(one, scale)),
            cells::total(dashes),
        );
    }
    assert forall|k: int| 0 <= k < less.len() implies (#[trigger] less[k]).dashes >= 1 by {
        assert(less[k].dashes == counts[k]);
        if widths::all_same(dashes) {
            let there = if k < at {
                k
            } else {
                k + 1
            };
            assert(counts[k] == dashes[there]);
            assert(dashes[there] == rule[there].dashes);
        }
    }
    laws::a_written_rule_reads_back(less);
    assert forall|k: int| 0 <= k < rule.len() && k != at implies ({
        let there = if k < at {
            k
        } else {
            k - 1
        };
        less[there].left == (#[trigger] rule[k]).left && less[there].right == rule[k].right
    }) by {
        let there = if k < at {
            k
        } else {
            k - 1
        };
        assert(shorter[there] == rule[k]);
    }
}

/// A column that is added stands in every row right in front of the caret's, or right
/// behind it. Outside the table, and in a row that has no such place, nothing changes.
#[verifier::rlimit(30)]
pub proof fn a_column_comes_in(
    source: Seq<char>,
    styles: Seq<LineStyle>,
    byte: int,
    column: int,
    what: TableEdit,
)
    requires
        what == TableEdit::ColumnBefore || what == TableEdit::ColumnAfter,
        source.len() <= u32::MAX,
        model::edit_model(source, styles, byte, what) is Some,
        caret_is_in(source, styles, byte, column),
    ensures
        ({
            let edit = model::edit_model(source, styles, byte, what)->0;
            let before = rewriting::rows(source);
            let after = rewriting::rows(rewriting::rewritten(source, edit));
            let table = shapes::table_around(source, styles, byte);
            let at = if what == TableEdit::ColumnBefore {
                column
            } else {
                column + 1
            };
            let rule = cells::rule_of(before[table.first + 1]);
            let more = cells::rule_of(after[table.first + 1]);
            &&& after.len() == before.len()
            &&& forall|k: int|
                0 <= k < before.len() && !(table.first <= k < table.first + table.count)
                    ==> #[trigger] after[k] == before[k]
            &&& forall|k: int|
                table.first <= k < table.first + table.count && k != table.first + 1
                    ==> has_cell_more(before[k], #[trigger] after[k], at)
            &&& rule is Some && more is Some
            &&& has_column_more(rule->0, more->0, at)
        }),
{
    let place = model::place(source, byte)->0;
    rewriting::places_are_within(source, byte);
    rewriting::a_table_is_within(source, styles, place);
    let table = shapes::table_around(source, styles, byte);
    let rule = table.rule(source)->0;
    let at = if what == TableEdit::ColumnBefore {
        column
    } else {
        column + 1
    };
    the_caret_gives_the_column(source, styles, byte, column);
    rewriting::a_line_is_short(table, source, 1);
    rewriting::a_line_is_short(table, source, table.here);
    cells::bars_are_few(table.line(source, table.here));
    dashes_of_a_rule(table.line(source, 1));
    a_longer_rule_reads_back(rule, at);
    let more = model::with_dashes(
        rule.insert(at, model::new_column()),
        widths::inserted(cells::dashes_of(rule), at),
    );
    rewriting::a_rule_is_unbroken(more);
    let edit = ColumnEdit::Insert(at as usize);
    the_table_is_rebuilt(source, table, model::rule_text(more), edit);
    let before = rewriting::rows(source);
    let new = rewriting::table_rows(table, source, model::rule_text(more), edit);
    let after = rewriting::with_rows(source, table.first, new);
    assert(model::edit_model(source, styles, byte, what) == Some(
        model::rebuild_model(table, source, model::rule_text(more), edit),
    ));
    assert(after[table.first + 1] == new[1]);
    assert forall|k: int|
        table.first <= k < table.first + table.count && k != table.first + 1 implies has_cell_more(
        before[k],
        #[trigger] after[k],
        at,
    ) by {
        assert(after[k] == new[k - table.first]);
        rewriting::a_line_is_short(table, source, k - table.first);
    }
}

/// The column that goes is the caret's, in every row. Outside the table, and in a row
/// that is shorter, nothing changes. The only column does not go.
#[verifier::rlimit(30)]
pub proof fn the_column_of_the_caret_goes(
    source: Seq<char>,
    styles: Seq<LineStyle>,
    byte: int,
    column: int,
)
    requires
        source.len() <= u32::MAX,
        model::place(source, byte) is Some,
        model::table_at(source, styles, model::place(source, byte)->0) is Some,
        shapes::table_around(source, styles, byte).rule(source) is Some,
        caret_is_in(source, styles, byte, column),
    ensures
        ({
            let edit = model::edit_model(source, styles, byte, TableEdit::DeleteColumn);
            let before = rewriting::rows(source);
            let after = rewriting::rows(rewriting::rewritten(source, edit->0));
            let table = shapes::table_around(source, styles, byte);
            let rule = cells::rule_of(before[table.first + 1]);
            let less = cells::rule_of(after[table.first + 1]);
            &&& rule is Some
            &&& edit is Some <==> rule->0.len() >= 2
            &&& edit is Some ==> {
                &&& after.len() == before.len()
                &&& forall|k: int|
                    0 <= k < before.len() && !(table.first <= k < table.first + table.count)
                        ==> #[trigger] after[k] == before[k]
                &&& forall|k: int|
                    table.first <= k < table.first + table.count && k != table.first + 1
                        ==> has_cell_less(before[k], #[trigger] after[k], column)
                &&& less is Some
                &&& has_column_less(rule->0, less->0, column)
            }
        }),
{
    let place = model::place(source, byte)->0;
    rewriting::places_are_within(source, byte);
    rewriting::a_table_is_within(source, styles, place);
    let table = shapes::table_around(source, styles, byte);
    let rule = table.rule(source)->0;
    the_caret_gives_the_column(source, styles, byte, column);
    rewriting::a_line_is_short(table, source, 1);
    rewriting::a_line_is_short(table, source, table.here);
    cells::bars_are_few(table.line(source, table.here));
    dashes_of_a_rule(table.line(source, 1));
    if rule.len() >= 2 {
        a_shorter_rule_reads_back(rule, column);
        let less = model::with_dashes(
            rule.remove(column),
            widths::removed(cells::dashes_of(rule), column),
        );
        rewriting::a_rule_is_unbroken(less);
        let stay = if column > rule.len() - 2 {
            rule.len() - 2
        } else {
            column
        };
        let edit = ColumnEdit::Delete(column as usize, stay as usize);
        the_table_is_rebuilt(source, table, model::rule_text(less), edit);
        let before = rewriting::rows(source);
        let new = rewriting::table_rows(table, source, model::rule_text(less), edit);
        let after = rewriting::with_rows(source, table.first, new);
        assert(model::edit_model(source, styles, byte, TableEdit::DeleteColumn) == Some(
            model::rebuild_model(table, source, model::rule_text(less), edit),
        ));
        assert(after[table.first + 1] == new[1]);
        assert forall|k: int|
            table.first <= k < table.first + table.count && k != table.first
                + 1 implies has_cell_less(before[k], #[trigger] after[k], column) by {
            assert(after[k] == new[k - table.first]);
            rewriting::a_line_is_short(table, source, k - table.first);
            let line = before[k];
            let bars = cells::bars(line);
            if column + 1 == bars.len() {
                assert(line.take(bars[column]) + line.skip(line.len() as int)
                    =~= line.take(bars[column]));
            }
        }
    }
}

// --- what makes a table --------------------------------------------------------------------

/// A line of the text that is part of a table.
pub open spec fn is_of_a_table(styles: Seq<LineStyle>, line: int) -> bool {
    0 <= line < styles.len() && (styles[line].kind == LineKind::TableRow || styles[line].kind
        == LineKind::TableRule)
}

proof fn the_first_begins_the_run(styles: Seq<LineStyle>, line: int)
    requires
        is_of_a_table(styles, line),
    ensures
        ({
            let first = model::table_first(styles, line);
            &&& 0 <= first <= line
            &&& forall|k: int| first <= k <= line ==> #[trigger] is_of_a_table(styles, k)
            &&& first > 0 ==> !is_of_a_table(styles, first - 1)
        }),
    decreases line,
{
    if line > 0 && model::is_table_line(styles, line - 1) {
        the_first_begins_the_run(styles, line - 1);
    }
}

proof fn the_last_ends_the_run(styles: Seq<LineStyle>, line: int, count: int)
    requires
        is_of_a_table(styles, line),
        0 <= line < count,
    ensures
        ({
            let last = model::table_last(styles, line, count);
            &&& line <= last < count
            &&& forall|k: int| line <= k <= last ==> #[trigger] is_of_a_table(styles, k)
            &&& last + 1 < count ==> !is_of_a_table(styles, last + 1)
        }),
    decreases count - line,
{
    if line + 1 < count && model::is_table_line(styles, line + 1) {
        the_last_ends_the_run(styles, line + 1, count);
    }
}

/// The table around a place is all the lines of a table without a gap, two at least, and
/// the place is on one of them. Elsewhere there is none.
pub proof fn a_table_is_all_its_lines(source: Seq<char>, styles: Seq<LineStyle>, at: int)
    requires
        0 <= at <= source.len(),
    ensures
        ({
            let line = text_blocks::line_of(source, at);
            let count = text_blocks::lines(source).len() as int;
            let table = model::table_at(source, styles, at);
            let beside = (line > 0 && is_of_a_table(styles, line - 1)) || (line + 1 < count
                && is_of_a_table(styles, line + 1));
            &&& table is Some <==> is_of_a_table(styles, line) && beside
            &&& table is Some ==> ({
                let first = table->0.first;
                let end = first + table->0.count;
                &&& 0 <= first <= line < end <= count
                &&& table->0.here == line - first
                &&& forall|k: int| first <= k < end ==> #[trigger] is_of_a_table(styles, k)
                &&& first > 0 ==> !is_of_a_table(styles, first - 1)
                &&& end < count ==> !is_of_a_table(styles, end)
            })
        }),
{
    let line = text_blocks::line_of(source, at);
    let count = text_blocks::lines(source).len() as int;
    text_blocks::line_of_holds(source, at);
    if is_of_a_table(styles, line) {
        the_first_begins_the_run(styles, line);
        the_last_ends_the_run(styles, line, count);
    }
}

proof fn colons_are_skipped(line: Seq<char>, from: int, first: int, to: int)
    requires
        0 <= from <= first <= to <= line.len(),
        first < to ==> line[first] != ':',
        forall|k: int| from <= k < first ==> #[trigger] line[k] == ':',
    ensures
        cells::skip_colons(line, from, to) == first,
    decreases first - from,
{
    if from < first {
        assert(line[from] == ':');
        colons_are_skipped(line, from + 1, first, to);
    }
}

proof fn colons_are_skipped_back(line: Seq<char>, first: int, last: int, to: int)
    requires
        0 <= first < last <= to <= line.len(),
        line[last - 1] != ':',
        forall|k: int| last <= k < to ==> #[trigger] line[k] == ':',
    ensures
        cells::back_colons(line, first, to) == last,
    decreases to - last,
{
    if last < to {
        assert(line[to - 1] == ':');
        colons_are_skipped_back(line, first, last, to - 1);
    }
}

/// A cell of a rule is dashes, with colons or without at either end: it has as many dashes,
/// and is set by its colons.
pub proof fn a_rule_cell_is_its_dashes(
    line: Seq<char>,
    from: int,
    first: int,
    last: int,
    to: int,
)
    requires
        0 <= from <= first < last <= to <= line.len() <= u32::MAX,
        forall|k: int| from <= k < first ==> #[trigger] line[k] == ':',
        forall|k: int| first <= k < last ==> #[trigger] line[k] == '-',
        forall|k: int| last <= k < to ==> #[trigger] line[k] == ':',
    ensures
        cells::rule_cell(line, from, to) is Some,
        cells::rule_cell(line, from, to)->0.dashes == last - first,
        cells::rule_cell(line, from, to)->0.left <==> from < first,
        cells::rule_cell(line, from, to)->0.right <==> last < to,
{
    assert(line[first] == '-' && line[last - 1] == '-');
    colons_are_skipped(line, from, first, to);
    colons_are_skipped_back(line, first, last, to);
    if from < first {
        assert(line[from] == ':');
    }
    if last < to {
        assert(line[to - 1] == ':');
    }
}

/// A cell that holds anything but dashes and colons, or no dash, is none of a rule.
pub proof fn other_cells_are_no_rule(line: Seq<char>, from: int, to: int)
    requires
        0 <= from <= to <= line.len(),
        (exists|k: int| from <= k < to && #[trigger] line[k] != '-' && line[k] != ':') || (forall|
            k: int,
        |
            from <= k < to ==> #[trigger] line[k] != '-'),
    ensures
        cells::rule_cell(line, from, to) is None,
{
    if exists|k: int| from <= k < to && #[trigger] line[k] != '-' && line[k] != ':' {
        let k = choose|k: int| from <= k < to && #[trigger] line[k] != '-' && line[k] != ':';
        skipping_stops(line, from, k, to);
        let first = cells::skip_colons(line, from, to);
        skipping_back_stops(line, first, k, to);
    } else {
        let first = cells::skip_colons(line, from, to);
        let last = cells::back_colons(line, first, to);
        skips_are_within(line, from, to);
        backs_are_within(line, first, to);
        if first < last {
            assert(line[first] != '-');
        }
    }
}

proof fn skipping_stops(line: Seq<char>, from: int, k: int, to: int)
    requires
        0 <= from <= k < to <= line.len(),
        line[k] != ':',
    ensures
        from <= cells::skip_colons(line, from, to) <= k,
    decreases k - from,
{
    if from < k && line[from] == ':' {
        skipping_stops(line, from + 1, k, to);
    }
}

proof fn skipping_back_stops(line: Seq<char>, first: int, k: int, to: int)
    requires
        0 <= first <= k < to <= line.len(),
        line[k] != ':',
    ensures
        k < cells::back_colons(line, first, to) <= to,
    decreases to - k,
{
    if k < to - 1 && line[to - 1] == ':' {
        skipping_back_stops(line, first, k, to - 1);
    }
}

proof fn skips_are_within(line: Seq<char>, from: int, to: int)
    requires
        0 <= from <= to <= line.len(),
    ensures
        from <= cells::skip_colons(line, from, to) <= to,
    decreases to - from,
{
    if from < to && line[from] == ':' {
        skips_are_within(line, from + 1, to);
    }
}

proof fn backs_are_within(line: Seq<char>, from: int, to: int)
    requires
        0 <= from <= to <= line.len(),
    ensures
        from <= cells::back_colons(line, from, to) <= to,
    decreases to - from,
{
    if from < to && line[to - 1] == ':' {
        backs_are_within(line, from, to - 1);
    }
}

// --- widths -------------------------------------------------------------------------------

/// Where columns give dashes, the widest give: one that gave is as wide as any other, but
/// for a dash. None gives that needs what it has, and none takes.
pub proof fn the_widest_give(counts: Seq<u32>, limit: int)
    ensures
        ({
            let left = widths::shrunk(counts, limit);
            &&& left.len() == counts.len()
            &&& forall|k: int| 0 <= k < counts.len() ==> #[trigger] left[k] <= counts[k]
            &&& forall|k: int|
                0 <= k < counts.len() && #[trigger] left[k] < counts[k] ==> left[k] >= MIN_WIDTH
            &&& forall|k: int, j: int|
                0 <= k < counts.len() && 0 <= j < counts.len() && #[trigger] left[k] < counts[k]
                    ==> #[trigger] left[j] <= left[k] + 1
            &&& cells::total(counts) <= limit ==> left == counts
        }),
    decreases cells::total(counts),
{
    widths::total_counts(counts);
    let at = widths::widest(counts, counts.len() as int);
    if !(cells::total(counts) <= limit || at < 0 || at >= counts.len() || counts[at] == 0) {
        let less = counts.update(at, (counts[at] - 1) as u32);
        widths::total_of_update(counts, at, (counts[at] - 1) as u32);
        widths::total_counts(less);
        the_widest_give(less, limit);
        none_is_wider(counts, counts.len() as int);
        let left = widths::shrunk(counts, limit);
        assert(left == widths::shrunk(less, limit));
        assert forall|k: int| 0 <= k < counts.len() implies #[trigger] left[k] <= counts[k] by {
            assert(left[k] <= less[k]);
        }
        assert forall|k: int|
            0 <= k < counts.len() && #[trigger] left[k] < counts[k] implies left[k]
            >= MIN_WIDTH by {
            assert(left[k] <= less[k]);
            if left[k] == less[k] {
                assert(k == at);
            }
        }
        assert forall|k: int, j: int|
            0 <= k < counts.len() && 0 <= j < counts.len() && #[trigger] left[k] < counts[k] implies
            #[trigger] left[j] <= left[k] + 1 by {
            if left[k] == less[k] {
                assert(k == at);
                assert(left[j] <= less[j]);
            }
        }
    }
}

proof fn none_is_wider(counts: Seq<u32>, n: int)
    requires
        0 <= n <= counts.len(),
    ensures
        ({
            let at = widths::widest(counts, n);
            &&& -1 <= at < n
            &&& at >= 0 ==> counts[at] > MIN_WIDTH
            &&& at >= 0 ==> forall|k: int| 0 <= k < n ==> #[trigger] counts[k] <= counts[at]
            &&& at < 0 ==> forall|k: int| 0 <= k < n ==> #[trigger] counts[k] <= MIN_WIDTH
        }),
    decreases n,
{
    if n > 0 {
        none_is_wider(counts, n - 1);
    }
}

/// Widths that hold already stay: none below the least, no more than was asked for, and
/// not all the same.
pub proof fn widths_that_hold_stay(counts: Seq<u32>, total: int)
    requires
        forall|k: int| 0 <= k < counts.len() ==> #[trigger] counts[k] >= MIN_WIDTH,
        cells::total(counts) <= total,
        !widths::all_same(counts),
    ensures
        widths::settled(counts, total) == counts,
{
    let raised = counts.map_values(|count: u32| widths::at_least_min(count as int));
    assert(raised =~= counts);
    widths::total_counts(counts);
    the_widest_give(counts, widths::greater(total, MIN_WIDTH * counts.len()));
}

/// Where all columns are as wide, so are they with one more, and with one less.
pub proof fn even_columns_stay_even(counts: Seq<u32>, at: int)
    requires
        counts.len() >= 1,
        widths::all_same(counts),
        0 <= at < counts.len(),
    ensures
        widths::inserted(counts, at).len() == counts.len() + 1,
        forall|k: int|
            0 <= k <= counts.len() ==> #[trigger] widths::inserted(counts, at)[k] == counts[0],
        widths::removed(counts, at).len() == counts.len() - 1,
        forall|k: int|
            0 <= k < counts.len() - 1 ==> #[trigger] widths::removed(counts, at)[k] == counts[0],
{
    let rest = counts.remove(at);
    assert forall|k: int| 0 <= k < counts.len() - 1 implies #[trigger] rest[k] == counts[0] by {
        if k < at {
            assert(rest[k] == counts[k]);
        } else {
            assert(rest[k] == counts[k + 1]);
        }
    }
}

} // verus!
