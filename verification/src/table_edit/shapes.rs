//! What the tables look like that the edits leave, row by row and bar by bar.
use crate::table_edit::cells;
use crate::table_edit::laws;
use crate::table_edit::model::{self, TableEdit, TableModel};
use crate::table_edit::rewriting;
use crate::text;
use crate::text_blocks::{self, LineKind, LineStyle};
use vstd::prelude::*;

verus! {

// --- bars -------------------------------------------------------------------------------

/// How many backslashes stand in a row before a place.
pub open spec fn slashes_before(line: Seq<char>, at: int) -> int
    decreases at,
{
    if at <= 0 || at > line.len() || line[at - 1] != '\\' {
        0
    } else {
        1 + slashes_before(line, at - 1)
    }
}

proof fn scanning_counts_slashes(line: Seq<char>, count: int)
    requires
        0 <= count <= line.len(),
    ensures
        cells::scan(line, count).1 == (slashes_before(line, count) % 2 == 1),
        slashes_before(line, count) >= 0,
        forall|i: int|
            0 <= i < count ==> (cells::scan(line, count).0.contains(i) <==> #[trigger] line[i] == '|'
                && slashes_before(line, i) % 2 == 0),
    decreases count,
{
    if count > 0 {
        scanning_counts_slashes(line, count - 1);
        let (before, escaped) = cells::scan(line, count - 1);
        let after = cells::scan(line, count).0;
        cells::scan_rises(line, count - 1);
        assert forall|i: int| 0 <= i < count implies (after.contains(i) <==> #[trigger] line[i]
            == '|' && slashes_before(line, i) % 2 == 0) by {
            if before.contains(i) {
                let k = choose|k: int| 0 <= k < before.len() && before[k] == i;
                assert(after[k] == i);
            }
            if after.contains(i) {
                let k = choose|k: int| 0 <= k < after.len() && after[k] == i;
                if k < before.len() {
                    assert(before[k] == i);
                    assert(before.contains(i));
                    assert(before[k] < count - 1);
                    assert(line[i] == '|');
                } else {
                    assert(i == count - 1);
                    assert(line[i] == '|');
                }
            }
            if i == count - 1 && after.len() > before.len() {
                assert(after[before.len() as int] == i);
            }
        }
    }
}

/// The bars of a line are its `|` that are not escaped: an even number of backslashes
/// stands before each.
pub proof fn bars_are_the_plain_ones(line: Seq<char>, i: int)
    requires
        0 <= i < line.len(),
    ensures
        cells::bars(line).contains(i) <==> line[i] == '|' && slashes_before(line, i) % 2 == 0,
{
    scanning_counts_slashes(line, line.len() as int);
}

// --- rows -------------------------------------------------------------------------------

/// A row of this many cells with nothing but blanks in them, and a bar at both ends.
pub open spec fn is_blank_row(row: Seq<char>, columns: int) -> bool {
    &&& cells::bars(row).len() == columns + 1
    &&& row[0] == '|'
    &&& row.last() == '|'
    &&& forall|i: int| 0 <= i < row.len() ==> #[trigger] row[i] == '|' || row[i] == ' '
}

/// A rule of this many columns, all of the least width and without colons.
pub open spec fn is_plain_rule(row: Seq<char>, columns: int) -> bool {
    &&& cells::rule_of(row) is Some
    &&& cells::rule_of(row)->0.len() == columns
    &&& forall|k: int|
        0 <= k < columns ==> (#[trigger] cells::rule_of(row)->0[k]).dashes == 3
            && !cells::rule_of(row)->0[k].left && !cells::rule_of(row)->0[k].right
}

proof fn scan_goes_on(head: Seq<char>, tail: Seq<char>, count: int)
    requires
        0 <= count <= head.len(),
    ensures
        cells::scan(head + tail, count) == cells::scan(head, count),
    decreases count,
{
    if count > 0 {
        scan_goes_on(head, tail, count - 1);
        assert((head + tail)[count - 1] == head[count - 1]);
    }
}

proof fn an_empty_row_is_blank(columns: int)
    requires
        columns >= 0,
    ensures
        is_blank_row(model::empty_row(columns), columns),
        rewriting::unbroken(model::empty_row(columns)),
        model::empty_row(columns).len() == 1 + 3 * columns,
        !cells::scan(model::empty_row(columns), model::empty_row(columns).len() as int).1,
    decreases columns,
{
    let row = model::empty_row(columns);
    if columns == 0 {
        assert(row =~= seq!['|']);
        reveal_with_fuel(cells::scan, 2);
        assert(cells::scan(row, 1).0 =~= seq![0int]);
    } else {
        an_empty_row_is_blank(columns - 1);
        let before = model::empty_row(columns - 1);
        let piece = seq![' ', ' ', '|'];
        assert(row =~= before + piece);
        scan_goes_on(before, piece, before.len() as int);
        let n = before.len() as int;
        assert(row[n] == ' ' && row[n + 1] == ' ' && row[n + 2] == '|');
        reveal_with_fuel(cells::scan, 4);
        assert(cells::scan(row, n + 1) == (cells::bars(before), false));
        assert(cells::scan(row, n + 2) == (cells::bars(before), false));
        assert(cells::scan(row, n + 3) == (cells::bars(before).push(n + 2), false));
        assert forall|i: int| 0 <= i < row.len() implies #[trigger] row[i] == '|' || row[i]
            == ' ' by {
            if i < n {
                assert(row[i] == before[i]);
            }
        }
        assert(row[0] == before[0]);
    }
}

/// The lines of a new table.
spec fn new_lines(rows: int, columns: int) -> Seq<Seq<char>> {
    Seq::new(
        (rows + 1) as nat,
        |k: int|
            if k == 1 {
                model::rule_text(Seq::new(columns as nat, |j: int| model::new_column()))
            } else {
                model::empty_row(columns)
            },
    )
}

proof fn a_new_table_is_its_lines(rows: int, columns: int)
    requires
        rows >= 1,
        columns >= 1,
    ensures
        model::new_table(rows, columns) == rewriting::stacked(new_lines(rows, columns)),
        rewriting::all_unbroken(new_lines(rows, columns)),
        is_plain_rule(new_lines(rows, columns)[1], columns),
        forall|k: int|
            0 <= k <= rows && k != 1 ==> is_blank_row(#[trigger] new_lines(rows, columns)[k], columns),
    decreases rows,
{
    let all = new_lines(rows, columns);
    let rule = Seq::new(columns as nat, |j: int| model::new_column());
    let row = model::empty_row(columns);
    an_empty_row_is_blank(columns);
    laws::a_written_rule_reads_back(rule);
    rewriting::a_rule_is_unbroken(rule);
    if rows == 1 {
        assert(all.drop_last() =~= seq![row]);
        assert(all.drop_last().drop_last() =~= Seq::empty());
        reveal_with_fuel(rewriting::stacked, 3);
        assert(rewriting::stacked(all) =~= row + seq!['\n'] + model::rule_text(rule));
        assert(model::repeated(seq!['\n'] + row, 0) =~= Seq::empty());
        assert(model::new_table(rows, columns) =~= rewriting::stacked(all));
    } else {
        a_new_table_is_its_lines(rows - 1, columns);
        assert(all.drop_last() =~= new_lines(rows - 1, columns));
        assert(all.last() == row);
        assert(model::new_table(rows, columns) =~= model::new_table(rows - 1, columns) + seq!['\n']
            + row);
        assert(rewriting::stacked(all) =~= rewriting::stacked(all.drop_last()) + seq!['\n'] + row);
    }
}

proof fn a_stack_of_one(row: Seq<char>)
    ensures
        rewriting::stacked(seq![row]) == row,
{
    assert(seq![row].drop_last() =~= Seq::empty());
    reveal_with_fuel(rewriting::stacked, 2);
    assert(rewriting::stacked(seq![row]) =~= row);
}

/// Line breaks before a stack are empty rows, and so is one behind it.
proof fn breaks_are_empty_rows(rows: Seq<Seq<char>>, lead: int, tail: bool)
    requires
        rows.len() > 0,
        rewriting::all_unbroken(rows),
        0 <= lead,
    ensures
        ({
            let all = Seq::new(lead as nat, |k: int| Seq::<char>::empty()) + rows + if tail {
                seq![Seq::<char>::empty()]
            } else {
                Seq::empty()
            };
            &&& model::breaks(lead) + rewriting::stacked(rows) + model::break_if(tail)
                == rewriting::stacked(all)
            &&& rewriting::all_unbroken(all)
        }),
    decreases lead,
{
    let none = Seq::<char>::empty();
    let front = Seq::new(lead as nat, |k: int| none);
    let back = if tail {
        seq![none]
    } else {
        Seq::empty()
    };
    let all = front + rows + back;
    if lead == 0 {
        assert(front + rows =~= rows);
        if tail {
            rewriting::stacks_add(rows, seq![none]);
            a_stack_of_one(none);
            assert(rewriting::stacked(all) =~= rewriting::stacked(rows) + seq!['\n']);
        } else {
            assert(all =~= rows);
        }
        assert(model::breaks(0) =~= Seq::empty());
        assert(model::breaks(lead) + rewriting::stacked(rows) + model::break_if(tail)
            =~= rewriting::stacked(all));
    } else {
        breaks_are_empty_rows(rows, lead - 1, tail);
        let fewer = Seq::new((lead - 1) as nat, |k: int| none) + rows + back;
        assert(all =~= seq![none] + fewer);
        rewriting::stacks_add(seq![none], fewer);
        a_stack_of_one(none);
        assert(model::breaks(lead) =~= seq!['\n'] + model::breaks(lead - 1));
        assert(model::breaks(lead) + rewriting::stacked(rows) + model::break_if(tail)
            =~= seq!['\n'] + (model::breaks(lead - 1) + rewriting::stacked(rows) + model::break_if(
            tail,
        )));
        assert(rewriting::stacked(all) =~= seq!['\n'] + rewriting::stacked(fewer));
    }
    assert forall|k: int| 0 <= k < all.len() implies rewriting::unbroken(#[trigger] all[k]) by {
        if lead <= k < lead + rows.len() {
            assert(all[k] == rows[k - lead]);
        }
    }
}

/// Something other than white space stands in a row.
pub open spec fn shows(row: Seq<char>) -> bool {
    exists|i: int| 0 <= i < row.len() && !text::is_space(#[trigger] row[i])
}

proof fn text_is_shown(source: Seq<char>, line: int)
    requires
        0 <= line < text_blocks::lines(source).len(),
    ensures
        model::has_text(
            source,
            text_blocks::lines(source)[line].0,
            text_blocks::lines(source)[line].1,
        ) == shows(rewriting::rows(source)[line]),
{
    text_blocks::lines_follow(source);
    let (from, to) = text_blocks::lines(source)[line];
    let row = rewriting::rows(source)[line];
    if model::has_text(source, from, to) {
        let at = choose|at: int| from <= at < to && !text::is_space(#[trigger] source[at]);
        assert(row[at - from] == source[at]);
    }
    if shows(row) {
        let i = choose|i: int| 0 <= i < row.len() && !text::is_space(#[trigger] row[i]);
        assert(source[from + i] == row[i]);
    }
}

/// Rows in the place of others.
proof fn rows_take_the_place(
    source: Seq<char>,
    first: int,
    end: int,
    new: Seq<Seq<char>>,
    after: Seq<char>,
)
    requires
        0 <= first <= end <= rewriting::rows(source).len(),
        new.len() > 0,
        rewriting::all_unbroken(new),
        after == rewriting::in_front(rewriting::rows(source), first) + rewriting::stacked(new)
            + rewriting::behind(rewriting::rows(source), end),
    ensures
        rewriting::rows(after) == rewriting::rows(source).take(first) + new + rewriting::rows(
            source,
        ).skip(end),
{
    let all = rewriting::rows(source);
    rewriting::a_text_is_its_rows(source);
    let head = all.take(first);
    let tail = all.skip(end);
    let held = head + new;
    let whole = held + tail;
    assert(rewriting::stacked(held) =~= rewriting::in_front(all, first) + rewriting::stacked(
        new,
    )) by {
        if first > 0 {
            rewriting::stacks_add(head, new);
        } else {
            assert(held =~= new);
            assert(rewriting::stacked(head) =~= Seq::empty());
        }
    }
    if end < all.len() {
        rewriting::stacks_add(held, tail);
        assert(rewriting::stacked(whole) =~= after);
    } else {
        assert(whole =~= held);
        assert(rewriting::stacked(whole) =~= after);
    }
    assert forall|k: int| 0 <= k < whole.len() implies rewriting::unbroken(#[trigger] whole[k]) by {
        if k < first {
            assert(whole[k] == all[k]);
        } else if k < held.len() {
            assert(whole[k] == new[k - first]);
        } else {
            assert(whole[k] == all[end + (k - held.len())]);
        }
    }
    rewriting::lines_of_stack(whole);
}

// --- a new table --------------------------------------------------------------------------

/// How many empty lines a new table needs before it: two breaks behind a line of text,
/// one below one.
pub open spec fn lead_of(source: Seq<char>, line: int) -> int {
    if shows(rewriting::rows(source)[line]) {
        2
    } else if line > 0 && shows(rewriting::rows(source)[line - 1]) {
        1
    } else {
        0
    }
}

/// Text stands in the line below.
pub open spec fn text_below(source: Seq<char>, line: int) -> bool {
    line + 1 < rewriting::rows(source).len() && shows(rewriting::rows(source)[line + 1])
}

/// The line that a byte is in.
pub open spec fn line_at(source: Seq<char>, byte: int) -> int {
    text_blocks::line_of(source, text::chars_before(source, byte)->0)
}

/// The text that places a table is the table, of as many rows and columns as were asked
/// for, with its header and a rule below the header; empty lines part it from the
/// text above and below, and nothing else comes with it.
pub proof fn a_placed_table_has_its_shape(
    source: Seq<char>,
    styles: Seq<LineStyle>,
    byte: int,
    rows: int,
    columns: int,
)
    requires
        rows >= 1,
        columns >= 1,
        model::insert_model(source, styles, byte, byte, rows, columns) is Some,
    ensures
        ({
            let edit = model::insert_model(source, styles, byte, byte, rows, columns)->0;
            let parts = rewriting::rows(edit.text);
            let line = line_at(source, byte);
            let lead = lead_of(source, line);
            let tail = text_below(source, line);
            &&& parts.len() == lead + rows + 1 + if tail {
                1int
            } else {
                0
            }
            &&& forall|k: int| 0 <= k < lead ==> (#[trigger] parts[k]).len() == 0
            &&& forall|k: int|
                lead <= k <= lead + rows && k != lead + 1 ==> is_blank_row(
                    #[trigger] parts[k],
                    columns,
                )
            &&& is_plain_rule(parts[lead + 1], columns)
            &&& tail ==> parts.last().len() == 0
        }),
{
    let at = text::chars_before(source, byte)->0;
    chars_before_is_within(source, byte);
    text_blocks::line_of_holds(source, at);
    let line = line_at(source, byte);
    text_is_shown(source, line);
    if line > 0 {
        text_is_shown(source, line - 1);
    }
    if line + 1 < text_blocks::lines(source).len() {
        text_is_shown(source, line + 1);
    }
    let edit = model::insert_model(source, styles, byte, byte, rows, columns)->0;
    let lead = lead_of(source, line);
    let tail = text_below(source, line);
    let new = new_lines(rows, columns);
    a_new_table_is_its_lines(rows, columns);
    breaks_are_empty_rows(new, lead, tail);
    let none = Seq::<char>::empty();
    let all = Seq::new(lead as nat, |k: int| none) + new + if tail {
        seq![none]
    } else {
        Seq::empty()
    };
    assert(edit.text == rewriting::stacked(all));
    rewriting::lines_of_stack(all);
    assert forall|k: int| lead <= k <= lead + rows && k != lead + 1 implies is_blank_row(
        #[trigger] all[k],
        columns,
    ) by {
        assert(all[k] == new[k - lead]);
    }
    assert(all[lead + 1] == new[1]);
}

proof fn chars_before_is_within(source: Seq<char>, byte: int)
    ensures
        match text::chars_before(source, byte) {
            Some(at) => 0 <= at <= source.len(),
            None => true,
        },
    decreases source.len(),
{
    if byte != 0 && source.len() > 0 && byte >= text::utf8_len(source[0]) {
        chars_before_is_within(source.skip(1), byte - text::utf8_len(source[0]));
    }
}

/// A table goes below a line of text, and in the place of a line that shows nothing; no
/// other line of the text is touched.
#[verifier::rlimit(30)]
pub proof fn a_placed_table_leaves_the_rest(
    source: Seq<char>,
    styles: Seq<LineStyle>,
    byte: int,
    rows: int,
    columns: int,
)
    requires
        rows >= 1,
        columns >= 1,
        model::insert_model(source, styles, byte, byte, rows, columns) is Some,
    ensures
        ({
            let edit = model::insert_model(source, styles, byte, byte, rows, columns)->0;
            let parts = rewriting::rows(edit.text);
            let after = rewriting::rows(rewriting::rewritten(source, edit));
            let before = rewriting::rows(source);
            let line = line_at(source, byte);
            &&& shows(before[line]) ==> after == before.take(line + 1) + parts.skip(1)
                + before.skip(line + 1)
            &&& !shows(before[line]) ==> after == before.take(line) + parts + before.skip(line + 1)
        }),
{
    a_placed_table_has_its_shape(source, styles, byte, rows, columns);
    let at = text::chars_before(source, byte)->0;
    chars_before_is_within(source, byte);
    text_blocks::line_of_holds(source, at);
    text_blocks::lines_follow(source);
    let line = line_at(source, byte);
    text_is_shown(source, line);
    let edit = model::insert_model(source, styles, byte, byte, rows, columns)->0;
    let (start, end) = text_blocks::lines(source)[line];
    let all = rewriting::rows(source);
    let parts = rewriting::rows(edit.text);
    rewriting::a_text_is_its_rows(edit.text);
    rewriting::an_offset_leads_back(source, start);
    rewriting::an_offset_leads_back(source, end);
    rewriting::a_text_comes_apart(source, line, line + 1);
    let after = rewriting::rewritten(source, edit);
    if shows(all[line]) {
        let new = parts.skip(1);
        assert(parts[0] =~= Seq::<char>::empty());
        assert(parts =~= seq![Seq::<char>::empty()] + new);
        rewriting::stacks_add(seq![Seq::<char>::empty()], new);
        a_stack_of_one(Seq::empty());
        assert(edit.text =~= seq!['\n'] + rewriting::stacked(new));
        the_front_ends_a_row(source, line);
        assert forall|k: int| 0 <= k < new.len() implies rewriting::unbroken(#[trigger] new[k]) by {
            assert(new[k] == parts[k + 1]);
        }
        assert(after =~= rewriting::in_front(all, line + 1) + rewriting::stacked(new)
            + rewriting::behind(all, line + 1));
        rows_take_the_place(source, line + 1, line + 1, new, after);
    } else {
        assert(after =~= rewriting::in_front(all, line) + rewriting::stacked(parts)
            + rewriting::behind(all, line + 1));
        rows_take_the_place(source, line, line + 1, parts, after);
    }
}

/// What stands before the end of a row, and a break, are the front of the next.
proof fn the_front_ends_a_row(source: Seq<char>, line: int)
    requires
        0 <= line < text_blocks::lines(source).len(),
    ensures
        source.take(text_blocks::lines(source)[line].1) + seq!['\n'] == rewriting::in_front(
            rewriting::rows(source),
            line + 1,
        ),
{
    let all = rewriting::rows(source);
    text_blocks::lines_follow(source);
    rewriting::a_text_comes_apart(source, line, line + 1);
    let (start, end) = text_blocks::lines(source)[line];
    let upto = all.take(line + 1);
    assert(upto.drop_last() =~= all.take(line));
    assert(upto.last() == source.subrange(start, end));
    assert(source.take(end) =~= source.take(start) + source.subrange(start, end));
    assert(rewriting::stacked(upto) =~= source.take(end));
}

/// A table is placed exactly where nothing is selected, the caret stands between two
/// characters, something is asked for, and the line is no quote, list, code, table or
/// front matter.
pub proof fn a_table_is_placed_in_prose(
    source: Seq<char>,
    styles: Seq<LineStyle>,
    from: int,
    to: int,
    rows: int,
    columns: int,
)
    ensures
        ({
            let line = line_at(source, from);
            model::insert_model(source, styles, from, to, rows, columns) is Some <==> from == to
                && text::chars_before(source, from) is Some && rows != 0 && columns != 0 && (line
                < styles.len() ==> styles[line].quote_depth == 0 && styles[line].list_indent == 0
                && styles[line].kind != LineKind::Code && styles[line].kind != LineKind::TableRow
                && styles[line].kind != LineKind::TableRule && styles[line].kind != LineKind::List
                && styles[line].kind != LineKind::FrontMatter)
        }),
{
}

// --- rows that come and go ----------------------------------------------------------------

/// The table around a byte.
pub open spec fn table_around(source: Seq<char>, styles: Seq<LineStyle>, byte: int) -> TableModel {
    model::table_at(source, styles, model::place(source, byte)->0)->0
}

/// A row that is added is one blank row with as many cells as the rule has columns: right
/// below the caret's, or below the rule where the caret is on the header or the
/// rule.
#[verifier::rlimit(30)]
pub proof fn a_row_comes_in_below(source: Seq<char>, styles: Seq<LineStyle>, byte: int)
    requires
        model::edit_model(source, styles, byte, TableEdit::RowAfter) is Some,
    ensures
        ({
            let edit = model::edit_model(source, styles, byte, TableEdit::RowAfter)->0;
            let after = rewriting::rows(rewriting::rewritten(source, edit));
            let before = rewriting::rows(source);
            let table = table_around(source, styles, byte);
            let k = table.first + (if table.here < 1 {
                1
            } else {
                table.here
            }) + 1;
            &&& after.len() == before.len() + 1
            &&& is_blank_row(after[k], table.rule(source)->0.len() as int)
            &&& after == before.insert(k, after[k])
        }),
{
    let place = model::place(source, byte)->0;
    rewriting::places_are_within(source, byte);
    rewriting::a_table_is_within(source, styles, place);
    let table = table_around(source, styles, byte);
    let columns = table.rule(source)->0.len() as int;
    laws::a_rule_has_columns(table.line(source, 1));
    let edit = model::edit_model(source, styles, byte, TableEdit::RowAfter)->0;
    let line = table.first + if table.here < 1 {
        1
    } else {
        table.here
    };
    let all = rewriting::rows(source);
    let row = model::empty_row(columns);
    an_empty_row_is_blank(columns);
    text_blocks::lines_follow(source);
    let (start, end) = text_blocks::lines(source)[line];
    rewriting::an_offset_leads_back(source, end);
    the_front_ends_a_row(source, line);
    rewriting::a_text_comes_apart(source, line, line + 1);
    a_stack_of_one(row);
    let after = rewriting::rewritten(source, edit);
    assert(after =~= rewriting::in_front(all, line + 1) + rewriting::stacked(seq![row])
        + rewriting::behind(all, line + 1));
    rows_take_the_place(source, line + 1, line + 1, seq![row], after);
    assert(all.take(line + 1) + seq![row] + all.skip(line + 1) =~= all.insert(line + 1, row));
}

/// A row that is added above the caret's is one blank row in its place, and the caret's
/// is below it.
#[verifier::rlimit(30)]
pub proof fn a_row_comes_in_above(source: Seq<char>, styles: Seq<LineStyle>, byte: int)
    requires
        model::edit_model(source, styles, byte, TableEdit::RowBefore) is Some,
    ensures
        ({
            let edit = model::edit_model(source, styles, byte, TableEdit::RowBefore)->0;
            let after = rewriting::rows(rewriting::rewritten(source, edit));
            let before = rewriting::rows(source);
            let table = table_around(source, styles, byte);
            let k = table.first + table.here;
            &&& table.here >= 2
            &&& after.len() == before.len() + 1
            &&& is_blank_row(after[k], table.rule(source)->0.len() as int)
            &&& after == before.insert(k, after[k])
        }),
{
    let place = model::place(source, byte)->0;
    rewriting::places_are_within(source, byte);
    rewriting::a_table_is_within(source, styles, place);
    let table = table_around(source, styles, byte);
    let columns = table.rule(source)->0.len() as int;
    laws::a_rule_has_columns(table.line(source, 1));
    let edit = model::edit_model(source, styles, byte, TableEdit::RowBefore)->0;
    let line = table.first + table.here;
    let all = rewriting::rows(source);
    let row = model::empty_row(columns);
    an_empty_row_is_blank(columns);
    text_blocks::lines_follow(source);
    a_text_parts_at_a_row(source, line);
    let start = text_blocks::lines(source)[line].0;
    rewriting::an_offset_leads_back(source, start);
    a_stack_of_one(row);
    let after = rewriting::rewritten(source, edit);
    assert(edit.from == model::offset(source, start) && edit.to == edit.from && edit.text == row
        + seq!['\n']);
    assert(after == source.take(start) + (row + seq!['\n']) + source.skip(start));
    assert(after =~= rewriting::in_front(all, line) + rewriting::stacked(seq![row])
        + rewriting::behind(all, line));
    rows_take_the_place(source, line, line, seq![row], after);
    assert(all.take(line) + seq![row] + all.skip(line) =~= all.insert(line, row));
}

/// What stands before a row that is not the first, and what from it on.
proof fn a_text_parts_at_a_row(source: Seq<char>, line: int)
    requires
        0 < line < text_blocks::lines(source).len(),
    ensures
        ({
            let all = rewriting::rows(source);
            let start = text_blocks::lines(source)[line].0;
            &&& 0 < start <= source.len()
            &&& start == text_blocks::lines(source)[line - 1].1 + 1
            &&& source[start - 1] == '\n'
            &&& source.take(start - 1) == rewriting::stacked(all.take(line))
            &&& source.take(start) == rewriting::in_front(all, line)
            &&& source.skip(start) == rewriting::stacked(all.skip(line))
            &&& model::offset(source, start) == model::offset(source, start - 1) + 1
        }),
{
    let all = rewriting::rows(source);
    let lines = text_blocks::lines(source);
    text_blocks::lines_follow(source);
    let start = lines[line].0;
    let above = lines[line - 1].1;
    assert(lines[line - 1 + 1].0 == above + 1);
    rewriting::a_text_comes_apart(source, line - 1, line);
    assert(source.skip(above) == seq!['\n'] + rewriting::stacked(all.skip(line)));
    assert(source.skip(above)[0] == '\n');
    assert(source.skip(above).skip(1) =~= source.skip(start));
    assert((seq!['\n'] + rewriting::stacked(all.skip(line))).skip(1) =~= rewriting::stacked(
        all.skip(line),
    ));
    the_front_ends_a_row(source, line - 1);
    assert(source.take(start) =~= source.take(above) + seq!['\n']);
    assert((source.take(above) + seq!['\n']).drop_last() =~= source.take(above));
    assert((rewriting::stacked(all.take(line)) + seq!['\n']).drop_last() =~= rewriting::stacked(
        all.take(line),
    ));
    one_more_byte(source, above);
}

/// A row that is deleted is the caret's, and every other row stays as it was.
#[verifier::rlimit(30)]
pub proof fn the_row_of_the_caret_goes(source: Seq<char>, styles: Seq<LineStyle>, byte: int)
    requires
        model::edit_model(source, styles, byte, TableEdit::DeleteRow) is Some,
    ensures
        ({
            let edit = model::edit_model(source, styles, byte, TableEdit::DeleteRow)->0;
            let after = rewriting::rows(rewriting::rewritten(source, edit));
            let before = rewriting::rows(source);
            let table = table_around(source, styles, byte);
            &&& table.here >= 2
            &&& after == before.remove(table.first + table.here)
        }),
{
    let place = model::place(source, byte)->0;
    rewriting::places_are_within(source, byte);
    rewriting::a_table_is_within(source, styles, place);
    let table = table_around(source, styles, byte);
    let edit = model::edit_model(source, styles, byte, TableEdit::DeleteRow)->0;
    let line = table.first + table.here;
    let all = rewriting::rows(source);
    text_blocks::lines_follow(source);
    let lines = text_blocks::lines(source);
    let (start, end) = lines[line];
    rewriting::a_text_is_its_rows(source);
    a_text_parts_at_a_row(source, line);
    let after = rewriting::rewritten(source, edit);
    let upto = all.take(line);
    if line + 1 < all.len() {
        a_text_parts_at_a_row(source, line + 1);
        assert(end < source.len());
        rewriting::an_offset_leads_back(source, start);
        rewriting::an_offset_leads_back(source, end + 1);
        assert(after =~= source.take(start) + source.skip(end + 1));
        assert(source.take(start) =~= source.take(start - 1) + seq!['\n']);
        rest_is_stacked(all, line, after);
    } else {
        assert(end == source.len());
        rewriting::an_offset_leads_back(source, start - 1);
        rewriting::an_offset_leads_back(source, end);
        assert(after =~= rewriting::stacked(upto));
        assert forall|k: int| 0 <= k < upto.len() implies rewriting::unbroken(
            #[trigger] upto[k],
        ) by {
            assert(upto[k] == all[k]);
        }
        rewriting::lines_of_stack(upto);
        assert(upto =~= all.remove(line));
    }
}

proof fn rest_is_stacked(all: Seq<Seq<char>>, line: int, after: Seq<char>)
    requires
        0 < line < all.len() - 1,
        rewriting::all_unbroken(all),
        after == rewriting::stacked(all.take(line)) + seq!['\n'] + rewriting::stacked(
            all.skip(line + 1),
        ),
    ensures
        rewriting::rows(after) == all.remove(line),
{
    let left = all.remove(line);
    rewriting::stacks_add(all.take(line), all.skip(line + 1));
    assert(all.take(line) + all.skip(line + 1) =~= left);
    assert forall|k: int| 0 <= k < left.len() implies rewriting::unbroken(#[trigger] left[k]) by {
        if k < line {
            assert(left[k] == all[k]);
        } else {
            assert(left[k] == all[k + 1]);
        }
    }
    rewriting::lines_of_stack(left);
}

proof fn one_more_byte(source: Seq<char>, at: int)
    requires
        0 <= at < source.len(),
        source[at] == '\n',
    ensures
        model::offset(source, at + 1) == model::offset(source, at) + 1,
{
    assert(source.take(at + 1).drop_last() =~= source.take(at));
    assert(source.take(at + 1).last() == '\n');
}

// --- where the caret goes -----------------------------------------------------------------

proof fn an_empty_row_begins_as_a_shorter(columns: int, column: int)
    requires
        0 <= column <= columns,
    ensures
        model::empty_row(columns).take(1 + 3 * column) == model::empty_row(column),
        model::empty_row(columns).len() == 1 + 3 * columns,
    decreases columns,
{
    an_empty_row_is_blank(columns);
    an_empty_row_is_blank(column);
    if column < columns {
        an_empty_row_begins_as_a_shorter(columns - 1, column);
        let piece = seq![' ', ' ', '|'];
        let less = model::empty_row(columns - 1);
        assert(model::empty_row(columns) =~= less + piece);
        assert(model::empty_row(columns).take(1 + 3 * column) =~= less.take(1 + 3 * column));
    } else {
        assert(model::empty_row(columns).take(1 + 3 * column) =~= model::empty_row(columns));
    }
}

/// Behind the first blank of a cell of an empty row: as many bars stand before as the cell
/// has to its left, and its own.
pub open spec fn is_behind_first_blank(row: Seq<char>, at: int, column: int) -> bool {
    &&& 2 <= at < row.len()
    &&& row[at - 2] == '|'
    &&& row[at - 1] == ' '
    &&& row[at] == ' '
    &&& cells::bars(row.take(at)).len() == column + 1
}

proof fn the_place_is_in_its_cell(columns: int, column: int)
    requires
        0 <= column < columns,
    ensures
        is_behind_first_blank(
            model::empty_row(columns),
            model::empty_row_caret(column),
            column,
        ),
{
    let row = model::empty_row(columns);
    let at = 2 + 3 * column;
    an_empty_row_begins_as_a_shorter(columns, column);
    an_empty_row_begins_as_a_shorter(columns, column + 1);
    an_empty_row_is_blank(column);
    let short = model::empty_row(column);
    let longer = model::empty_row(column + 1);
    assert(longer =~= short + seq![' ', ' ', '|']);
    assert(row.take(at) =~= short + seq![' ']) by {
        assert(row.take(4 + 3 * column).take(at) =~= row.take(at));
        assert(longer.take(at) =~= short + seq![' ']);
    }
    assert(row.take(4 + 3 * column)[at] == longer[at]);
    assert(row.take(at)[at - 1] == ' ');
    assert(row.take(at)[at - 2] == short.last());
    scan_goes_on(short, seq![' '], short.len() as int);
    let n = short.len() as int;
    assert((short + seq![' '])[n] == ' ');
    assert(cells::scan(short + seq![' '], n + 1).0 == cells::scan(short + seq![' '], n).0);
}

/// The caret goes to the new row, into the column that it was in.
#[verifier::rlimit(60)]
pub proof fn the_caret_goes_to_the_new_row(
    source: Seq<char>,
    styles: Seq<LineStyle>,
    byte: int,
)
    requires
        model::place(source, byte) is Some,
        model::table_at(source, styles, model::place(source, byte)->0) is Some,
        table_around(source, styles, byte).rule(source) is Some,
    ensures
        ({
            let table = table_around(source, styles, byte);
            let columns = table.rule(source)->0.len() as int;
            let column = model::column_at(
                table.line(source, table.here),
                model::place(source, byte)->0 - table.bounds(source, table.here).0,
                columns,
            );
            let below = model::edit_model(source, styles, byte, TableEdit::RowAfter);
            let above = model::edit_model(source, styles, byte, TableEdit::RowBefore);
            &&& 0 <= column < columns
            &&& below is Some ==> is_behind_first_blank(
                below->0.text.skip(1),
                below->0.caret - below->0.from - 1,
                column,
            ) && below->0.text[0] == '\n'
            &&& above is Some ==> is_behind_first_blank(
                above->0.text.drop_last(),
                above->0.caret - above->0.from,
                column,
            ) && above->0.text.last() == '\n'
        }),
{
    let table = table_around(source, styles, byte);
    let columns = table.rule(source)->0.len() as int;
    laws::a_rule_has_columns(table.line(source, 1));
    let column = model::column_at(
        table.line(source, table.here),
        model::place(source, byte)->0 - table.bounds(source, table.here).0,
        columns,
    );
    the_place_is_in_its_cell(columns, column);
    let row = model::empty_row(columns);
    let below = model::edit_model(source, styles, byte, TableEdit::RowAfter);
    assert(below is Some ==> below->0.text == seq!['\n'] + row);
    assert(below is Some ==> below->0.caret - below->0.from - 1 == model::empty_row_caret(column));
    assert((seq!['\n'] + row).skip(1) =~= row);
    let above = model::edit_model(source, styles, byte, TableEdit::RowBefore);
    assert(above is Some ==> above->0.text == row + seq!['\n']);
    assert(above is Some ==> above->0.caret - above->0.from == model::empty_row_caret(column));
    assert((row + seq!['\n']).drop_last() =~= row);
}

} // verus!
