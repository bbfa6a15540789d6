//! What holds of tables as a whole.
use crate::table_edit::cells::{self, RuleCell};
use crate::table_edit::model::{self, TableEdit, TableModel};
use crate::table_edit::single::{self, Value};
use crate::table_edit::widths::{self, FULL_WIDTH, MIN_WIDTH};
use crate::text;
use crate::text_blocks;
use vstd::prelude::*;

verus! {

/// Every entry of the menu has a number of its own.
pub proof fn entries_have_their_own_numbers(one: TableEdit, two: TableEdit)
    ensures
        0 <= one.place() < 7,
        one.place() == two.place() ==> one == two,
{
}

// --- widths ---------------------------------------------------------------------

proof fn shrinking_keeps(counts: Seq<u32>, limit: int)
    requires
        forall|at: int| 0 <= at < counts.len() ==> #[trigger] counts[at] >= MIN_WIDTH,
    ensures
        widths::shrunk(counts, limit).len() == counts.len(),
        forall|at: int|
            0 <= at < counts.len() ==> #[trigger] widths::shrunk(counts, limit)[at] >= MIN_WIDTH,
        cells::total(widths::shrunk(counts, limit)) <= limit || cells::total(
            widths::shrunk(counts, limit),
        ) == MIN_WIDTH * counts.len(),
        cells::total(widths::shrunk(counts, limit)) <= cells::total(counts),
    decreases cells::total(counts),
{
    widths::total_counts(counts);
    let at = widths::widest(counts, counts.len() as int);
    widest_is_within(counts, counts.len() as int);
    if cells::total(counts) > limit {
        if at >= 0 {
            let less = counts.update(at, (counts[at] - 1) as u32);
            widths::total_of_update(counts, at, (counts[at] - 1) as u32);
            shrinking_keeps(less, limit);
        } else {
            all_least(counts);
        }
    }
}

proof fn widest_is_within(counts: Seq<u32>, count: int)
    requires
        0 <= count <= counts.len(),
    ensures
        -1 <= widths::widest(counts, count) < count,
        widths::widest(counts, count) >= 0 ==> counts[widths::widest(counts, count)] > MIN_WIDTH,
        widths::widest(counts, count) < 0 ==> forall|at: int|
            0 <= at < count ==> #[trigger] counts[at] <= MIN_WIDTH,
    decreases count,
{
    if count > 0 {
        widest_is_within(counts, count - 1);
    }
}

proof fn all_least(counts: Seq<u32>)
    requires
        forall|at: int| 0 <= at < counts.len() ==> #[trigger] counts[at] == MIN_WIDTH,
    ensures
        cells::total(counts) == MIN_WIDTH * counts.len(),
    decreases counts.len(),
{
    if counts.len() > 0 {
        assert forall|at: int| 0 <= at < counts.drop_last().len() implies #[trigger] counts.drop_last()[at]
            == MIN_WIDTH by {
            assert(counts[at] == MIN_WIDTH);
        }
        all_least(counts.drop_last());
    }
}

/// Widths hold once they are settled: as many as before, none below the least,
/// together no more than was asked for or than the line, and, as long as the
/// line has room, not all the same.
pub proof fn settled_widths_hold(counts: Seq<u32>, total: int)
    ensures
        widths::settled(counts, total).len() == counts.len(),
        forall|at: int|
            0 <= at < counts.len() ==> #[trigger] widths::settled(counts, total)[at] >= MIN_WIDTH,
        cells::total(widths::settled(counts, total)) <= widths::greater(
            widths::greater(total, MIN_WIDTH * counts.len()),
            FULL_WIDTH as int,
        ),
        2 <= counts.len() && MIN_WIDTH * counts.len() < FULL_WIDTH ==> !widths::all_same(
            widths::settled(counts, total),
        ),
{
    let raised = counts.map_values(|count: u32| widths::at_least_min(count as int));
    let limit = widths::greater(total, MIN_WIDTH * counts.len());
    shrinking_keeps(raised, limit);
    let even = widths::shrunk(raised, limit);
    let last = even.len() - 1;
    widths::total_counts(even);
    if even.len() >= 2 && widths::all_same(even) {
        if cells::total(even) < FULL_WIDTH {
            assert(even[last] <= cells::total(even));
            let out = even.update(last, (even[last] + 1) as u32);
            widths::total_of_update(even, last, (even[last] + 1) as u32);
            assert(out[0] == even[0]);
            assert(out[last] != out[0]);
        } else if even[last] > MIN_WIDTH {
            let out = even.update(last, (even[last] - 1) as u32);
            widths::total_of_update(even, last, (even[last] - 1) as u32);
            assert(out[0] == even[0]);
            assert(out[last] != out[0]);
        } else {
            assert forall|at: int| 0 <= at < even.len() implies #[trigger] even[at]
                == MIN_WIDTH by {
                assert(even[at] == even[0]);
                assert(even[last] == even[0]);
            }
            all_least(even);
        }
    }
}

// --- what is written reads back ---------------------------------------------------

/// No backslash is in the text.
pub open spec fn unescaped(line: Seq<char>) -> bool {
    forall|at: int| 0 <= at < line.len() ==> #[trigger] line[at] != '\\'
}

proof fn unescaped_scan(line: Seq<char>, more: Seq<char>, count: int)
    requires
        unescaped(line),
        0 <= count <= line.len(),
    ensures
        !cells::scan(line, count).1,
        cells::scan(line + more, count) == cells::scan(line, count),
    decreases count,
{
    if count > 0 {
        unescaped_scan(line, more, count - 1);
        assert((line + more)[count - 1] == line[count - 1]);
    }
}

/// A text with one bar at its end adds one bar.
proof fn piece_adds_a_bar(line: Seq<char>, piece: Seq<char>, count: int)
    requires
        unescaped(line),
        unescaped(piece),
        0 < piece.len(),
        piece.last() == '|',
        forall|at: int| 0 <= at < piece.len() - 1 ==> #[trigger] piece[at] != '|',
        line.len() <= count <= line.len() + piece.len(),
    ensures
        !cells::scan(line + piece, count).1,
        cells::scan(line + piece, count).0 == if count == line.len() + piece.len() {
            cells::bars(line).push(count - 1)
        } else {
            cells::bars(line)
        },
    decreases count - line.len(),
{
    unescaped_scan(line, piece, line.len() as int);
    if count > line.len() {
        piece_adds_a_bar(line, piece, count - 1);
        let at = count - 1 - line.len();
        assert((line + piece)[count - 1] == piece[at]);
    }
}

proof fn dashes_only(count: int)
    requires
        0 <= count,
    ensures
        model::repeated(seq!['-'], count).len() == count,
        forall|at: int|
            0 <= at < count ==> #[trigger] model::repeated(seq!['-'], count)[at] == '-',
    decreases count,
{
    if count > 0 {
        dashes_only(count - 1);
    }
}

pub open spec fn one_if(there: bool) -> int {
    if there {
        1
    } else {
        0
    }
}

/// What stands where in one column of a rule.
proof fn piece_shape(one: RuleCell)
    requires
        one.dashes >= 1,
    ensures
        ({
            let piece = model::rule_piece(one);
            let first = 1 + one_if(one.left);
            let last = first + one.dashes;
            let end = last + one_if(one.right);
            &&& piece.len() == end + 2
            &&& piece[0] == ' '
            &&& (one.left ==> piece[1] == ':')
            &&& forall|at: int| first <= at < last ==> #[trigger] piece[at] == '-'
            &&& (one.right ==> piece[last as int] == ':')
            &&& piece[end as int] == ' '
            &&& piece.last() == '|'
            &&& unescaped(piece)
            &&& forall|at: int| 0 <= at < piece.len() - 1 ==> #[trigger] piece[at] != '|'
        }),
{
    dashes_only(one.dashes as int);
    let dash = model::repeated(seq!['-'], one.dashes as int);
    let piece = model::rule_piece(one);
    let first = 1 + one_if(one.left);
    assert forall|at: int| first <= at < first + one.dashes implies #[trigger] piece[at] == '-' by {
        assert(piece[at] == dash[at - first]);
    }
    assert forall|at: int| 0 <= at < piece.len() implies #[trigger] piece[at] != '\\' by {
        if first <= at < first + one.dashes {
            assert(piece[at] == '-');
        }
    }
}

proof fn written_is_unescaped(rule: Seq<RuleCell>)
    requires
        forall|k: int| 0 <= k < rule.len() ==> (#[trigger] rule[k]).dashes >= 1,
    ensures
        unescaped(model::rule_text(rule)),
        model::rule_text(rule).len() >= 1,
        model::rule_text(rule)[0] == '|',
        cells::bars(model::rule_text(rule)).len() == rule.len() + 1,
        cells::bars(model::rule_text(rule))[rule.len() as int] == model::rule_text(rule).len() - 1,
    decreases rule.len(),
{
    let whole = model::rule_text(rule);
    if rule.len() > 0 {
        let before = model::rule_text(rule.drop_last());
        let piece = model::rule_piece(rule.last());
        assert forall|k: int| 0 <= k < rule.drop_last().len() implies (
        #[trigger] rule.drop_last()[k]).dashes >= 1 by {
            assert(rule[k].dashes >= 1);
        }
        written_is_unescaped(rule.drop_last());
        piece_shape(rule.last());
        piece_adds_a_bar(before, piece, whole.len() as int);
        assert forall|at: int| 0 <= at < whole.len() implies #[trigger] whole[at] != '\\' by {
            if at < before.len() {
                assert(whole[at] == before[at]);
            } else {
                assert(whole[at] == piece[at - before.len()]);
            }
        }
    } else {
        assert(whole =~= seq!['|']);
        reveal_with_fuel(cells::scan, 2);
        assert(cells::bars(whole) =~= seq![0]);
    }
}

/// A longer rule begins as the shorter one did, its bars too.
proof fn longer_rule_extends(rule: Seq<RuleCell>, count: int)
    requires
        forall|k: int| 0 <= k < rule.len() ==> (#[trigger] rule[k]).dashes >= 1,
        0 <= count <= rule.len(),
    ensures
        model::rule_text(rule.take(count)).is_prefix_of(model::rule_text(rule)),
        cells::bars(model::rule_text(rule.take(count))).is_prefix_of(
            cells::bars(model::rule_text(rule)),
        ),
    decreases rule.len() - count,
{
    if count < rule.len() {
        longer_rule_extends(rule, count + 1);
        let part = rule.take(count + 1);
        assert(part.drop_last() =~= rule.take(count));
        let before = model::rule_text(rule.take(count));
        let piece = model::rule_piece(part.last());
        let whole = model::rule_text(part);
        assert forall|k: int| 0 <= k < rule.take(count).len() implies (
        #[trigger] rule.take(count)[k]).dashes >= 1 by {
            assert(rule[k].dashes >= 1);
        }
        assert(rule[count].dashes >= 1);
        written_is_unescaped(rule.take(count));
        piece_shape(part.last());
        piece_adds_a_bar(before, piece, whole.len() as int);
        assert(whole == before + piece);
        assert(before.is_prefix_of(whole));
        assert(cells::bars(before).is_prefix_of(cells::bars(whole)));
        assert(before =~= model::rule_text(rule).subrange(0, before.len() as int));
        assert(cells::bars(before) =~= cells::bars(model::rule_text(rule)).subrange(
            0,
            cells::bars(before).len() as int,
        ));
    } else {
        assert(rule.take(count) =~= rule);
    }
}

proof fn colons_skip(line: Seq<char>, from: int, to: int, left: bool, right: bool, dashes: int)
    requires
        dashes >= 1,
        0 <= from,
        to <= line.len(),
        to == from + one_if(left) + dashes + one_if(right),
        left ==> line[from] == ':',
        right ==> line[to - 1] == ':',
        forall|at: int|
            from + one_if(left) <= at < from + one_if(left) + dashes ==> #[trigger] line[at] == '-',
    ensures
        cells::skip_colons(line, from, to) == from + one_if(left),
        cells::back_colons(line, from + one_if(left), to) == to - one_if(right),
{
    let first = from + one_if(left);
    assert(line[first] == '-');
    assert(line[first + dashes - 1] == '-');
    reveal_with_fuel(cells::skip_colons, 2);
    reveal_with_fuel(cells::back_colons, 2);
}

/// The cell at `index` of a written rule says what was written.
proof fn written_cell_reads_back(rule: Seq<RuleCell>, index: int)
    requires
        forall|k: int| 0 <= k < rule.len() ==> (#[trigger] rule[k]).dashes >= 1,
        0 <= index < rule.len(),
    ensures
        ({
            let line = model::rule_text(rule);
            let (from, to) = cells::cell_text(line, index);
            cells::rule_cell(line, from, to) == Some(rule[index])
        }),
{
    let line = model::rule_text(rule);
    let one = rule[index];
    let head = model::rule_text(rule.take(index));
    let part = rule.take(index + 1);
    let longer = model::rule_text(part);
    let piece = model::rule_piece(one);
    assert(part.drop_last() =~= rule.take(index));
    assert(part.last() == one);
    longer_rule_extends(rule, index);
    longer_rule_extends(rule, index + 1);
    assert forall|k: int| 0 <= k < rule.take(index).len() implies (
    #[trigger] rule.take(index)[k]).dashes >= 1 by {
        assert(rule[k].dashes >= 1);
    }
    assert forall|k: int| 0 <= k < part.len() implies (#[trigger] part[k]).dashes >= 1 by {
        assert(rule[k].dashes >= 1);
    }
    written_is_unescaped(rule.take(index));
    written_is_unescaped(part);
    written_is_unescaped(rule);
    assert(rule[index].dashes >= 1);
    piece_shape(one);
    let base = head.len() as int;
    assert(longer == head + piece);
    assert(cells::bars(line)[index] == base - 1) by {
        assert(cells::bars(head)[index] == cells::bars(line)[index]);
    }
    assert(cells::bars(line)[index + 1] == base + piece.len() - 1) by {
        assert(cells::bars(longer)[index + 1] == cells::bars(line)[index + 1]);
    }
    let from = base;
    let to = base + piece.len() - 1;
    assert(cells::cell(line, index) == (from, to));
    assert forall|at: int| 0 <= at < piece.len() implies line[base + at] == #[trigger] piece[at] by {
        assert(longer[base + at] == piece[at]);
        assert(line[base + at] == longer[base + at]);
    }
    let first = base + 1;
    let last = to - 1;
    assert(line[base] == piece[0]);
    assert(line[to - 1] == piece[piece.len() - 2]);
    assert(line[first] == piece[1]);
    assert(line[last - 1] == piece[piece.len() - 3]);
    assert(!text::is_space(line[first]));
    assert(!text::is_space(line[last - 1]));
    reveal_with_fuel(text::skip_space, 2);
    reveal_with_fuel(text::back_space, 2);
    assert(text::skip_space(line, from, to) == first);
    assert(text::back_space(line, first, to) == last);
    assert forall|at: int|
        first + one_if(one.left) <= at < first + one_if(one.left)
            + one.dashes implies #[trigger] line[at] == '-' by {
        assert(line[base + (at - base)] == piece[at - base]);
    }
    if one.right {
        assert(line[last - 1] == ':');
    }
    colons_skip(line, first, last, one.left, one.right, one.dashes as int);
}

proof fn written_prefix_reads_back(rule: Seq<RuleCell>, count: int)
    requires
        forall|k: int| 0 <= k < rule.len() ==> (#[trigger] rule[k]).dashes >= 1,
        0 <= count <= rule.len(),
    ensures
        cells::rule_prefix(model::rule_text(rule), count) == Some(rule.take(count)),
    decreases count,
{
    if count > 0 {
        written_prefix_reads_back(rule, count - 1);
        written_cell_reads_back(rule, count - 1);
        assert(rule.take(count) =~= rule.take(count - 1).push(rule[count - 1]));
    } else {
        assert(rule.take(0) =~= Seq::empty());
    }
}

/// A rule that is written reads back as it was meant, colons and widths.
pub proof fn a_written_rule_reads_back(rule: Seq<RuleCell>)
    requires
        rule.len() >= 1,
        forall|k: int| 0 <= k < rule.len() ==> (#[trigger] rule[k]).dashes >= 1,
    ensures
        cells::rule_of(model::rule_text(rule)) == Some(rule),
{
    let line = model::rule_text(rule);
    written_is_unescaped(rule);
    let count = cells::bars(line).len() as int;
    assert(cells::cell(line, count - 1) == (line.len() as int, line.len() as int));
    assert(cells::columns_of(line) == rule.len());
    written_prefix_reads_back(rule, rule.len() as int);
    assert(rule.take(rule.len() as int) =~= rule);
}

/// Widths that are written are the widths that are stated afterwards.
pub proof fn written_widths_are_stated(rule: Seq<RuleCell>, wanted: Seq<u32>)
    requires
        rule.len() >= 1,
        wanted.len() == rule.len(),
        !widths::all_same(wanted),
        forall|k: int| 0 <= k < wanted.len() ==> #[trigger] wanted[k] >= MIN_WIDTH,
    ensures
        model::stated(model::rule_text(model::with_dashes(rule, wanted))) == Some(wanted),
{
    let written = model::with_dashes(rule, wanted);
    assert forall|k: int| 0 <= k < written.len() implies (#[trigger] written[k]).dashes >= 1 by {
        assert(wanted[k] >= MIN_WIDTH);
    }
    a_written_rule_reads_back(written);
    assert(cells::dashes_of(written) =~= wanted);
}

// --- rows ---------------------------------------------------------------------------

proof fn offsets_rise(source: Seq<char>, one: int, two: int)
    requires
        0 <= one <= two <= source.len(),
    ensures
        0 <= model::offset(source, one) <= model::offset(source, two),
        one < two ==> model::offset(source, one) < model::offset(source, two),
{
    text::size_of_part(source, one, two);
    text::size_counts(source.subrange(one, two));
    text::size_counts(source.take(one));
}

/// Adding and deleting rows never touches the header or the rule: what is
/// replaced lies behind them.
pub proof fn rows_leave_the_header(
    table: TableModel,
    rule: Seq<RuleCell>,
    source: Seq<char>,
    at: int,
    byte: int,
    what: TableEdit,
)
    requires
        what == TableEdit::RowBefore || what == TableEdit::RowAfter || what == TableEdit::DeleteRow,
        0 <= table.first,
        0 <= table.here < table.count,
        table.first + table.count <= text_blocks::lines(source).len(),
        table.count >= 2,
    ensures
        match model::edit_in(table, rule, source, at, byte, what) {
            Some(edit) => edit.from >= model::offset(source, table.bounds(source, 1).1),
            None => what != TableEdit::RowAfter && table.here < 2,
        },
{
    text_blocks::lines_follow(source);
    let lines = text_blocks::lines(source);
    let rule_end = lines[table.first + 1].1;
    line_ends_rise(source, table.first + 1, table.first + table.here);
    let (start, end) = lines[table.first + table.here];
    if table.here >= 2 {
        line_ends_rise(source, table.first + 1, table.first + table.here - 1);
        assert(lines[table.first + table.here - 1].1 + 1 == start);
        offsets_rise(source, rule_end, start);
        offsets_rise(source, rule_end, end);
    } else {
        offsets_rise(source, rule_end, rule_end);
    }
}

proof fn line_ends_rise(source: Seq<char>, one: int, two: int)
    requires
        0 <= one,
        two < text_blocks::lines(source).len(),
    ensures
        one <= two ==> text_blocks::lines(source)[one].1 <= text_blocks::lines(source)[two].1,
    decreases two - one,
{
    text_blocks::lines_follow(source);
    if one < two {
        line_ends_rise(source, one, two - 1);
        let lines = text_blocks::lines(source);
        assert(lines[two - 1].1 + 1 == lines[two - 1 + 1].0);
        assert(lines[two].0 <= lines[two].1);
    }
}

/// The menu offers an entry exactly where it would do something.
pub proof fn the_menu_offers_what_works(
    source: Seq<char>,
    styles: Seq<text_blocks::LineStyle>,
    byte: int,
    what: TableEdit,
)
    ensures
        match model::state_model(source, styles, byte) {
            Some(state) => state[what.place()] == (model::edit_model(source, styles, byte, what)
                is Some),
            None => model::edit_model(source, styles, byte, what) is None,
        },
{
    if let Some(at) = model::place(source, byte) {
        if let Some(table) = model::table_at(source, styles, at) {
            if let Some(rule) = table.rule(source) {
                if what == TableEdit::ResetWidths {
                    let even = rule.map_values(
                        |one: RuleCell| RuleCell { dashes: MIN_WIDTH, ..one },
                    );
                    let line = table.line(source, 1);
                    if model::stated(line) is Some && line == model::rule_text(even) {
                        a_rule_has_columns(line);
                        a_written_rule_reads_back(even);
                        assert(cells::dashes_of(rule) =~= cells::dashes_of(even));
                        assert(widths::all_same(cells::dashes_of(even)));
                    }
                }
            }
        }
    }
}

/// A rule has a column at least.
pub proof fn a_rule_has_columns(line: Seq<char>)
    requires
        cells::rule_of(line) is Some,
    ensures
        cells::rule_of(line)->Some_0.len() >= 1,
{
    prefix_has_length(line, cells::columns_of(line));
}

proof fn prefix_has_length(line: Seq<char>, count: int)
    requires
        0 <= count,
        cells::rule_prefix(line, count) is Some,
    ensures
        cells::rule_prefix(line, count)->Some_0.len() == count,
    decreases count,
{
    if count > 0 {
        prefix_has_length(line, count - 1);
    }
}

/// Dragging a boundary keeps what its two columns have together and leaves the
/// others alone, but for the dash that keeps the widths apart, as long as the
/// line has room for all.
pub proof fn a_drag_keeps_the_pair(counts: Seq<u32>, boundary: int, pair: u32)
    requires
        0 < boundary < counts.len(),
        cells::total(widths::shared(counts, boundary, pair)) <= FULL_WIDTH,
        !widths::all_same(widths::shared(counts, boundary, pair)),
    ensures
        ({
            let after = widths::dragged_between(counts, boundary, pair);
            &&& after.len() == counts.len()
            &&& after[boundary - 1] + after[boundary] == widths::greater(
                pair as int,
                2 * MIN_WIDTH,
            )
            &&& forall|at: int|
                0 <= at < after.len() && at != boundary - 1 && at != boundary
                    ==> #[trigger] after[at] == widths::raised(counts)[at]
        }),
{
}

/// Whatever is dragged, every column is still there, and none falls below the
/// least.
pub proof fn a_drag_keeps_the_least(
    stated: Option<&Vec<u32>>,
    visible: Seq<u32>,
    reach: u32,
    line_box: u32,
    boundary: int,
    delta: i32,
)
    requires
        2 <= visible.len(),
        0 < boundary <= visible.len(),
    ensures
        ({
            let after = widths::dragged(stated, visible, reach, line_box, boundary, delta);
            &&& after.len() == visible.len()
            &&& forall|at: int| 0 <= at < after.len() ==> #[trigger] after[at] >= MIN_WIDTH
        }),
{
    let parts = widths::parts_of(stated, visible, reach, line_box);
    let step = widths::of_line(delta as int, line_box);
    if boundary < visible.len() {
        let counts = widths::all_rounded(widths::moved(parts, boundary, step));
        let pair = single::to_count(single::sum(parts[boundary - 1], parts[boundary]));
        let after = widths::shared(counts, boundary, pair);
        settled_widths_hold(after, FULL_WIDTH as int);
        widths::total_counts(after);
    } else {
        let counts = widths::all_rounded(parts);
        let last = single::to_count(single::sum(parts[visible.len() - 1], step)) as int;
        let room = widths::room_of(counts);
        widths::total_counts(widths::raised(counts).drop_last());
        let placed = widths::raised(counts).update(
            counts.len() - 1,
            widths::between(last, MIN_WIDTH as int, room) as u32,
        );
        widths::total_counts(placed);
    }
}

/// Taking hold of a table whose widths are stated changes nothing until the
/// boundary moves.
pub proof fn a_table_held_still_stays(
    counts: &Vec<u32>,
    visible: Seq<u32>,
    reach: u32,
    line_box: u32,
    boundary: int,
)
    requires
        2 <= visible.len(),
        0 < boundary <= visible.len(),
        line_box > 0,
        widths::is_stated(Some(counts), visible.len() as int),
        !widths::all_same(counts@),
        forall|at: int| 0 <= at < counts@.len() ==> #[trigger] counts@[at] >= MIN_WIDTH,
    ensures
        widths::dragged(Some(counts), visible, reach, line_box, boundary, 0) == counts@,
{
    let held = counts@;
    let parts = widths::parts_of(Some(counts), visible, reach, line_box);
    let step = widths::of_line(0, line_box);
    widths::total_counts(held);
    single::a_whole_number_stays(0);
    single::a_whole_number_stays(100);
    single::a_whole_number_stays(MIN_WIDTH as int);
    assert(step == (Value { digits: 0, shift: 0 }));
    assert forall|at: int| 0 <= at < held.len() implies parts[at] == (Value {
        digits: held[at] as int,
        shift: 0,
    }) && single::to_count(#[trigger] parts[at]) == held[at] by {
        single::a_whole_number_stays(held[at] as int);
        small_numbers(held[at] as int, 0);
    }
    assert(widths::raised(held) =~= held);
    if boundary < visible.len() {
        let one = held[boundary - 1] as int;
        let two = held[boundary] as int;
        two_of_them(held, boundary - 1, boundary);
        small_numbers(one, two);
        small_numbers(one, 0);
        small_numbers(one, 3);
        small_numbers(one + two, -3);
        small_numbers(one + two - 3, 3);
        small_numbers(one + two - 3, one);
        small_numbers(one + two, -one);
        small_numbers(two, 0);
        assert(widths::moved(parts, boundary, step) =~= parts);
        assert(widths::all_rounded(parts) =~= held);
        assert(widths::shared(held, boundary, (one + two) as u32) =~= held);
    } else {
        let last = held.len() - 1;
        small_numbers(held[last] as int, 0);
        assert(widths::all_rounded(parts) =~= held);
        assert(cells::total(held) == cells::total(held.drop_last()) + held[last]);
        assert(held.update(last, held[last]) =~= held);
    }
}

/// Small whole numbers are reckoned with as they are.
proof fn small_numbers(one: int, two: int)
    requires
        -200 <= one <= 200,
        -200 <= two <= 200,
    ensures
        single::sum(Value { digits: one, shift: 0 }, Value { digits: two, shift: 0 }) == (Value {
            digits: one + two,
            shift: 0,
        }),
        single::less(Value { digits: one, shift: 0 }, Value { digits: two, shift: 0 }) == (one
            < two),
        one >= 0 ==> single::to_count(Value { digits: one, shift: 0 }) == one,
        forall|other: int| #[trigger]
            single::less(Value { digits: other, shift: 0 }, Value { digits: one, shift: 0 }) == (
            other < one),
{
    assert(single::two_to(0) == 1);
    assert(one * 1 == one && two * 1 == two);
    let both = one + two;
    if both < 0 {
        single::a_whole_number_stays(-both);
    } else {
        single::a_whole_number_stays(both);
    }
    assert forall|other: int| #[trigger]
        single::less(Value { digits: other, shift: 0 }, Value { digits: one, shift: 0 }) == (other
            < one) by {
        assert(other * 1 == other);
    }
}

proof fn two_of_them(counts: Seq<u32>, one: int, two: int)
    requires
        0 <= one < two < counts.len(),
    ensures
        counts[one] + counts[two] <= cells::total(counts),
    decreases counts.len(),
{
    widths::total_counts(counts.drop_last());
    if two < counts.len() - 1 {
        two_of_them(counts.drop_last(), one, two);
    } else {
        assert(counts.drop_last()[one] == counts[one]);
    }
}

} // verus!
