//! What a text with a table is once an edit has been made.
use crate::table_edit::cells::{self, RuleCell};
use crate::table_edit::laws;
use crate::table_edit::model::{self, ColumnEdit, EditModel, TableEdit, TableModel};
use crate::table_edit::widths;
use crate::text;
use crate::text_blocks::{self, LineStyle};
use vstd::prelude::*;

verus! {

/// The text after an edit.
pub open spec fn rewritten(source: Seq<char>, edit: EditModel) -> Seq<char> {
    source.take(model::place(source, edit.from)->0) + edit.text + source.skip(
        model::place(source, edit.to)->0,
    )
}

// --- bytes and characters -------------------------------------------------------------

/// The byte offset of a character leads to it.
pub(crate) proof fn an_offset_leads_back(source: Seq<char>, at: int)
    requires
        0 <= at <= source.len(),
    ensures
        model::place(source, model::offset(source, at)) == Some(at),
        0 <= model::offset(source, at) <= text::size(source),
{
    text::size_leads_back(source, at);
}

// --- rows -----------------------------------------------------------------------------

/// No line break is in a row.
pub open spec fn unbroken(row: Seq<char>) -> bool {
    forall|at: int| 0 <= at < row.len() ==> #[trigger] row[at] != '\n'
}

pub open spec fn all_unbroken(rows: Seq<Seq<char>>) -> bool {
    forall|k: int| 0 <= k < rows.len() ==> unbroken(#[trigger] rows[k])
}

/// Rows, one below the other.
pub open spec fn stacked(rows: Seq<Seq<char>>) -> Seq<char>
    decreases rows.len(),
{
    if rows.len() == 0 {
        Seq::empty()
    } else {
        stacked(rows.drop_last()) + model::break_if(rows.len() > 1) + rows.last()
    }
}

/// The rows of a text.
pub open spec fn rows(source: Seq<char>) -> Seq<Seq<char>> {
    Seq::new(
        text_blocks::lines(source).len(),
        |k: int| source.subrange(text_blocks::lines(source)[k].0, text_blocks::lines(source)[k].1),
    )
}

/// Where a row begins in the stack.
pub open spec fn row_start(rows: Seq<Seq<char>>, k: int) -> int {
    stacked(rows.take(k)).len() + if k > 0 {
        1int
    } else {
        0
    }
}

pub(crate) proof fn stacks_add(one: Seq<Seq<char>>, two: Seq<Seq<char>>)
    requires
        one.len() > 0,
        two.len() > 0,
    ensures
        stacked(one + two) == stacked(one) + seq!['\n'] + stacked(two),
    decreases two.len(),
{
    let whole = one + two;
    assert(whole.drop_last() =~= one + two.drop_last());
    assert(whole.last() == two.last());
    if two.len() == 1 {
        assert(one + two.drop_last() =~= one);
        assert(stacked(two.drop_last()) =~= Seq::empty());
        assert(stacked(two) =~= two.last());
        assert(stacked(whole) =~= stacked(one) + seq!['\n'] + stacked(two));
    } else {
        stacks_add(one, two.drop_last());
        assert(stacked(whole) =~= stacked(one) + seq!['\n'] + stacked(two));
    }
}

proof fn starts_of_head(head: Seq<char>, tail: Seq<char>, count: int)
    requires
        0 <= count <= head.len(),
    ensures
        text_blocks::line_starts(head + tail, count) == text_blocks::line_starts(head, count),
    decreases count,
{
    if count > 0 {
        starts_of_head(head, tail, count - 1);
        assert((head + tail)[count - 1] == head[count - 1]);
    }
}

proof fn starts_of_tail(head: Seq<char>, tail: Seq<char>, count: int)
    requires
        unbroken(tail),
        0 <= count <= tail.len(),
    ensures
        text_blocks::line_starts(head + tail, head.len() + count) == text_blocks::line_starts(
            head,
            head.len() as int,
        ),
    decreases count,
{
    if count > 0 {
        starts_of_tail(head, tail, count - 1);
        assert((head + tail)[head.len() + count - 1] == tail[count - 1]);
    } else {
        starts_of_head(head, tail, head.len() as int);
    }
}

proof fn starts_of_stack(rows: Seq<Seq<char>>)
    requires
        rows.len() > 0,
        all_unbroken(rows),
    ensures
        ({
            let starts = text_blocks::line_starts(stacked(rows), stacked(rows).len() as int);
            &&& starts.len() == rows.len()
            &&& forall|k: int|
                0 <= k < rows.len() ==> #[trigger] starts[k] == row_start(rows, k)
        }),
    decreases rows.len(),
{
    let less = rows.drop_last();
    let whole = stacked(rows);
    if rows.len() == 1 {
        assert(stacked(less) =~= Seq::empty());
        assert(whole =~= Seq::<char>::empty() + rows.last());
        starts_of_tail(Seq::empty(), rows.last(), rows.last().len() as int);
        assert(rows.take(0) =~= Seq::empty());
    } else {
        assert forall|k: int| 0 <= k < less.len() implies unbroken(#[trigger] less[k]) by {
            assert(less[k] == rows[k]);
        }
        starts_of_stack(less);
        let held = stacked(less);
        let head = held + seq!['\n'];
        assert(whole =~= head + rows.last());
        assert(rows.last() == rows[rows.len() - 1]);
        starts_of_tail(head, rows.last(), rows.last().len() as int);
        starts_of_head(held, seq!['\n'], held.len() as int);
        let starts = text_blocks::line_starts(whole, whole.len() as int);
        assert(starts =~= text_blocks::line_starts(held, held.len() as int).push(
            head.len() as int,
        ));
        assert forall|k: int| 0 <= k < rows.len() implies #[trigger] starts[k] == row_start(
            rows,
            k,
        ) by {
            if k < less.len() {
                assert(less.take(k) =~= rows.take(k));
                assert(starts[k] == text_blocks::line_starts(held, held.len() as int)[k]);
            } else {
                assert(rows.take(k) =~= less);
            }
        }
    }
}

/// Where a row stands in the stack.
pub(crate) proof fn a_row_in_the_stack(rows: Seq<Seq<char>>, k: int)
    requires
        0 <= k < rows.len(),
    ensures
        row_start(rows, k) + rows[k].len() <= stacked(rows).len(),
        stacked(rows).subrange(row_start(rows, k), row_start(rows, k) + rows[k].len()) == rows[k],
        k + 1 < rows.len() ==> row_start(rows, k + 1) == row_start(rows, k) + rows[k].len() + 1,
        k + 1 == rows.len() ==> stacked(rows).len() == row_start(rows, k) + rows[k].len(),
{
    let whole = stacked(rows);
    let upto = rows.take(k + 1);
    assert(upto.drop_last() =~= rows.take(k));
    assert(upto.last() == rows[k]);
    let head = stacked(rows.take(k)) + model::break_if(k > 0);
    assert(stacked(upto) == head + rows[k]);
    assert(head.len() == row_start(rows, k));
    if k + 1 < rows.len() {
        let rest = rows.skip(k + 1);
        stacks_add(upto, rest);
        assert(upto + rest =~= rows);
    } else {
        assert(upto =~= rows);
    }
    let from = row_start(rows, k);
    assert(whole.subrange(from, from + rows[k].len()) =~= rows[k]);
}

/// The lines of a stack are its rows.
#[verifier::rlimit(30)]
pub(crate) proof fn lines_of_stack(rows: Seq<Seq<char>>)
    requires
        rows.len() > 0,
        all_unbroken(rows),
    ensures
        text_blocks::lines(stacked(rows)).len() == rows.len(),
        forall|k: int|
            0 <= k < rows.len() ==> #[trigger] text_blocks::lines(stacked(rows))[k] == (
                row_start(rows, k),
                row_start(rows, k) + rows[k].len(),
            ),
        self::rows(stacked(rows)) == rows,
{
    let whole = stacked(rows);
    starts_of_stack(rows);
    let lines = text_blocks::lines(whole);
    let starts = text_blocks::line_starts(whole, whole.len() as int);
    assert forall|k: int| 0 <= k < rows.len() implies #[trigger] lines[k] == (
        row_start(rows, k),
        row_start(rows, k) + rows[k].len(),
    ) && whole.subrange(lines[k].0, lines[k].1) == rows[k] by {
        a_row_in_the_stack(rows, k);
        assert(starts[k] == row_start(rows, k));
        if k + 1 < rows.len() {
            assert(starts[k + 1] == row_start(rows, k + 1));
        }
    }
    let read = self::rows(whole);
    assert forall|k: int| 0 <= k < rows.len() implies read[k] == rows[k] by {
        assert(whole.subrange(lines[k].0, lines[k].1) == rows[k]);
    }
    assert(read =~= rows);
}

pub(crate) proof fn starts_stand_behind_breaks(source: Seq<char>, count: int)
    requires
        0 <= count <= source.len(),
    ensures
        ({
            let starts = text_blocks::line_starts(source, count);
            &&& forall|k: int|
                0 < k < starts.len() ==> 0 < #[trigger] starts[k] <= count && source[starts[k] - 1]
                    == '\n'
            &&& forall|at: int|
                0 <= at < count && #[trigger] source[at] == '\n' ==> starts.contains(at + 1)
        }),
    decreases count,
{
    if count > 0 {
        starts_stand_behind_breaks(source, count - 1);
        let before = text_blocks::line_starts(source, count - 1);
        let starts = text_blocks::line_starts(source, count);
        text_blocks::line_starts_rise(source, count - 1);
        assert forall|k: int| 0 < k < starts.len() implies 0 < #[trigger] starts[k] <= count
            && source[starts[k] - 1] == '\n' by {
            if k < before.len() {
                assert(starts[k] == before[k]);
            }
        }
        assert forall|at: int| 0 <= at < count && #[trigger] source[at] == '\n' implies
            starts.contains(at + 1) by {
            if at < count - 1 {
                assert(before.contains(at + 1));
                let k = choose|k: int| 0 <= k < before.len() && before[k] == at + 1;
                assert(starts[k] == at + 1);
            } else {
                assert(starts[starts.len() - 1] == count);
            }
        }
    }
}

/// A text is the stack of its rows.
#[verifier::rlimit(30)]
pub(crate) proof fn a_text_is_its_rows(source: Seq<char>)
    ensures
        rows(source).len() > 0,
        all_unbroken(rows(source)),
        stacked(rows(source)) == source,
{
    let lines = text_blocks::lines(source);
    let all = rows(source);
    text_blocks::lines_follow(source);
    starts_stand_behind_breaks(source, source.len() as int);
    text_blocks::line_starts_rise(source, source.len() as int);
    let starts = text_blocks::line_starts(source, source.len() as int);
    assert forall|k: int| 0 <= k < all.len() implies unbroken(#[trigger] all[k]) by {
        assert forall|at: int| 0 <= at < all[k].len() implies #[trigger] all[k][at] != '\n' by {
            let there = lines[k].0 + at;
            if source[there] == '\n' {
                assert(starts.contains(there + 1));
                let j = choose|j: int| 0 <= j < starts.len() && starts[j] == there + 1;
                if j <= k {
                    if j < k {
                        assert(starts[j] < starts[k]);
                    }
                } else if j > k + 1 {
                    assert(starts[k + 1] < starts[j]);
                }
            }
        }
    }
    stacks_up(source, all.len() as int);
    assert(all.take(all.len() as int) =~= all);
    assert(source.take(source.len() as int) =~= source);
}

proof fn stacks_up(source: Seq<char>, n: int)
    requires
        0 < n <= rows(source).len(),
    ensures
        stacked(rows(source).take(n)) == source.take(text_blocks::lines(source)[n - 1].1),
    decreases n,
{
    let lines = text_blocks::lines(source);
    let upto = rows(source).take(n);
    text_blocks::lines_follow(source);
    starts_stand_behind_breaks(source, source.len() as int);
    assert(upto.drop_last() =~= rows(source).take(n - 1));
    assert(upto.last() == source.subrange(lines[n - 1].0, lines[n - 1].1));
    if n > 1 {
        stacks_up(source, n - 1);
        let starts = text_blocks::line_starts(source, source.len() as int);
        assert(lines[n - 2].1 + 1 == lines[n - 2 + 1].0);
        assert(source[starts[n - 1] - 1] == '\n');
    } else {
        assert(rows(source).take(0) =~= Seq::empty());
        assert(stacked(rows(source).take(0)) =~= Seq::empty());
    }
    assert(stacked(upto) =~= source.take(lines[n - 1].1));
}

/// A place within a row is on its line.
pub(crate) proof fn a_place_is_on_its_line(source: Seq<char>, at: int, k: int)
    requires
        0 <= k < text_blocks::lines(source).len(),
        text_blocks::lines(source)[k].0 <= at <= text_blocks::lines(source)[k].1,
    ensures
        text_blocks::line_of(source, at) == k,
{
    text_blocks::lines_follow(source);
    text_blocks::line_of_holds(source, at);
    text_blocks::line_starts_rise(source, source.len() as int);
    let starts = text_blocks::line_starts(source, source.len() as int);
    let lines = text_blocks::lines(source);
    let j = text_blocks::line_of(source, at);
    if j < k {
        assert(lines[j].1 == starts[j + 1] - 1);
        if j + 1 < k {
            assert(starts[j + 1] < starts[k]);
        }
    } else if j > k {
        assert(lines[k].1 == starts[k + 1] - 1);
        if k + 1 < j {
            assert(starts[k + 1] < starts[j]);
        }
    }
}

// --- rows put in the place of others ----------------------------------------------------

/// The rows of a text with those from `first` on replaced by as many others.
pub open spec fn with_rows(source: Seq<char>, first: int, new: Seq<Seq<char>>) -> Seq<
    Seq<char>,
> {
    rows(source).take(first) + new + rows(source).skip(first + new.len())
}

/// What stands in front of a row of a stack, the line break with it.
pub open spec fn in_front(all: Seq<Seq<char>>, first: int) -> Seq<char> {
    stacked(all.take(first)) + model::break_if(first > 0)
}

/// What stands behind the row before `end`, the line break with it.
pub open spec fn behind(all: Seq<Seq<char>>, end: int) -> Seq<char> {
    if end < all.len() {
        seq!['\n'] + stacked(all.skip(end))
    } else {
        Seq::empty()
    }
}

proof fn a_stack_comes_apart(all: Seq<Seq<char>>, first: int, new: Seq<Seq<char>>)
    requires
        0 <= first,
        0 < new.len(),
        first + new.len() <= all.len(),
    ensures
        stacked(all.take(first) + new + all.skip(first + new.len())) == in_front(all, first)
            + stacked(new) + behind(all, first + new.len()),
{
    let end = first + new.len();
    let head = all.take(first);
    let tail = all.skip(end);
    let held = head + new;
    assert(stacked(held) =~= in_front(all, first) + stacked(new)) by {
        if first > 0 {
            stacks_add(head, new);
        } else {
            assert(held =~= new);
            assert(stacked(head) =~= Seq::empty());
        }
    }
    if end < all.len() {
        stacks_add(held, tail);
        assert(stacked(held + tail) =~= in_front(all, first) + stacked(new) + behind(all, end));
    } else {
        assert(held + tail =~= held);
        assert(behind(all, end) =~= Seq::empty());
        assert(stacked(held) =~= in_front(all, first) + stacked(new) + behind(all, end));
    }
}

pub(crate) proof fn the_front_of_a_stack(all: Seq<Seq<char>>, first: int)
    requires
        0 <= first < all.len(),
    ensures
        stacked(all).take(row_start(all, first)) == in_front(all, first),
{
    let whole = stacked(all);
    let front = in_front(all, first);
    assert(front.len() == row_start(all, first));
    if first > 0 {
        let rest = all.skip(first);
        stacks_add(all.take(first), rest);
        assert(all.take(first) + rest =~= all);
        assert(whole =~= front + stacked(rest));
        assert(whole.take(front.len() as int) =~= front);
    } else {
        assert(all.take(0) =~= Seq::empty());
        assert(front =~= Seq::empty());
        assert(whole.take(0) =~= front);
    }
}

proof fn the_back_of_a_stack(all: Seq<Seq<char>>, end: int)
    requires
        0 < end <= all.len(),
    ensures
        stacked(all).skip(row_start(all, end - 1) + all[end - 1].len()) == behind(all, end),
{
    let whole = stacked(all);
    a_row_in_the_stack(all, end - 1);
    let to = row_start(all, end - 1) + all[end - 1].len();
    if end < all.len() {
        let upto = all.take(end);
        let rest = all.skip(end);
        stacks_add(upto, rest);
        assert(upto + rest =~= all);
        assert(stacked(upto).len() == to);
        assert(whole =~= stacked(upto) + (seq!['\n'] + stacked(rest)));
        assert(whole.skip(to) =~= seq!['\n'] + stacked(rest));
    } else {
        assert(whole.skip(to) =~= Seq::empty());
    }
}

/// What stands in front of a row of a text, and what behind one.
pub(crate) proof fn a_text_comes_apart(source: Seq<char>, first: int, end: int)
    requires
        0 <= first < end <= text_blocks::lines(source).len(),
    ensures
        source.take(text_blocks::lines(source)[first].0) == in_front(rows(source), first),
        source.skip(text_blocks::lines(source)[end - 1].1) == behind(rows(source), end),
{
    let all = rows(source);
    a_text_is_its_rows(source);
    lines_of_stack(all);
    the_front_of_a_stack(all, first);
    the_back_of_a_stack(all, end);
}

#[verifier::rlimit(30)]
pub(crate) proof fn rows_are_replaced(
    source: Seq<char>,
    first: int,
    new: Seq<Seq<char>>,
    edit: EditModel,
)
    requires
        0 <= first,
        new.len() > 0,
        first + new.len() <= text_blocks::lines(source).len(),
        all_unbroken(new),
        edit.from == model::offset(source, text_blocks::lines(source)[first].0),
        edit.to == model::offset(source, text_blocks::lines(source)[first + new.len() - 1].1),
        edit.text == stacked(new),
    ensures
        ({
            let after = rewritten(source, edit);
            &&& after == stacked(with_rows(source, first, new))
            &&& rows(after) == with_rows(source, first, new)
            &&& text_blocks::lines(after).len() == text_blocks::lines(source).len()
            &&& text_blocks::lines(after)[first].0 == text_blocks::lines(source)[first].0
            &&& after.take(text_blocks::lines(source)[first].0) == source.take(
                text_blocks::lines(source)[first].0,
            )
        }),
{
    let all = rows(source);
    let lines = text_blocks::lines(source);
    let end = first + new.len();
    text_blocks::lines_follow(source);
    let from = lines[first].0;
    let to = lines[end - 1].1;
    an_offset_leads_back(source, from);
    an_offset_leads_back(source, to);
    a_text_comes_apart(source, first, end);
    a_stack_comes_apart(all, first, new);
    let after = rewritten(source, edit);
    let after_rows = with_rows(source, first, new);
    assert(after == stacked(after_rows));
    assert(after_rows.take(first) =~= all.take(first));
    assert(all_unbroken(after_rows)) by {
        a_text_is_its_rows(source);
        assert forall|k: int| 0 <= k < after_rows.len() implies unbroken(
            #[trigger] after_rows[k],
        ) by {
            if k < first || k >= end {
                assert(after_rows[k] == all[k]);
            } else {
                assert(after_rows[k] == new[k - first]);
            }
        }
    }
    lines_of_stack(after_rows);
    assert(text_blocks::lines(after)[first].0 == from) by {
        assert(in_front(all, first).len() == row_start(after_rows, first));
    }
    let front = in_front(all, first);
    assert(after.take(from) =~= front);
}

pub(crate) proof fn sums_are_unbroken(one: Seq<char>, two: Seq<char>)
    requires
        unbroken(one),
        unbroken(two),
    ensures
        unbroken(one + two),
{
    assert forall|at: int| 0 <= at < (one + two).len() implies #[trigger] (one + two)[at]
        != '\n' by {
        if at < one.len() {
            assert((one + two)[at] == one[at]);
        } else {
            assert((one + two)[at] == two[at - one.len()]);
        }
    }
}

pub(crate) proof fn repeats_are_unbroken(part: Seq<char>, count: int)
    requires
        unbroken(part),
    ensures
        unbroken(model::repeated(part, count)),
    decreases count,
{
    if count > 0 {
        repeats_are_unbroken(part, count - 1);
        sums_are_unbroken(model::repeated(part, count - 1), part);
    }
}

pub(crate) proof fn a_rule_is_unbroken(rule: Seq<RuleCell>)
    ensures
        unbroken(model::rule_text(rule)),
    decreases rule.len(),
{
    if rule.len() > 0 {
        let one = rule.last();
        let count = if one.dashes < 1 {
            1
        } else {
            one.dashes as int
        };
        let dashes = model::repeated(seq!['-'], count);
        let opened = seq![' '] + model::colon_if(one.left);
        a_rule_is_unbroken(rule.drop_last());
        repeats_are_unbroken(seq!['-'], count);
        sums_are_unbroken(opened, dashes);
        sums_are_unbroken(opened + dashes, model::colon_if(one.right));
        sums_are_unbroken(
            opened + dashes + model::colon_if(one.right),
            seq![' ', '|'],
        );
        sums_are_unbroken(model::rule_text(rule.drop_last()), model::rule_piece(one));
    }
}

/// A table lies within the lines of its text.
pub(crate) proof fn a_table_is_within(source: Seq<char>, styles: Seq<LineStyle>, at: int)
    requires
        0 <= at <= source.len(),
        model::table_at(source, styles, at) is Some,
    ensures
        ({
            let table = model::table_at(source, styles, at)->0;
            &&& 0 <= table.first
            &&& 0 <= table.here < table.count
            &&& table.count >= 2
            &&& table.first + table.count <= text_blocks::lines(source).len()
            &&& table.first + table.here == text_blocks::line_of(source, at)
            &&& table.bounds(source, table.here).0 <= at <= table.bounds(source, table.here).1
        }),
{
    text_blocks::line_of_holds(source, at);
    let line = text_blocks::line_of(source, at);
    firsts_are_within(styles, line);
    lasts_are_within(styles, line, text_blocks::lines(source).len() as int);
}

proof fn firsts_are_within(styles: Seq<LineStyle>, line: int)
    requires
        0 <= line,
    ensures
        0 <= model::table_first(styles, line) <= line,
        forall|k: int|
            model::table_first(styles, line) <= k < line ==> #[trigger] model::is_table_line(
                styles,
                k,
            ),
    decreases line,
{
    if line > 0 && model::is_table_line(styles, line - 1) {
        firsts_are_within(styles, line - 1);
    }
}

proof fn lasts_are_within(styles: Seq<LineStyle>, line: int, count: int)
    requires
        line < count,
    ensures
        line <= model::table_last(styles, line, count) < count,
        forall|k: int|
            line < k <= model::table_last(styles, line, count) ==> #[trigger] model::is_table_line(
                styles,
                k,
            ),
    decreases count - line,
{
    if line + 1 < count && model::is_table_line(styles, line + 1) {
        lasts_are_within(styles, line + 1, count);
    }
}

/// Every line of a table is in the same table.
proof fn a_table_is_one(
    source: Seq<char>,
    styles: Seq<LineStyle>,
    at: int,
    other: Seq<char>,
    there: int,
    k: int,
)
    requires
        0 <= at <= source.len(),
        0 <= there <= other.len(),
        text_blocks::lines(other).len() == text_blocks::lines(source).len(),
        model::table_at(source, styles, at) is Some,
        0 <= k < model::table_at(source, styles, at)->0.count,
        text_blocks::line_of(other, there) == model::table_at(source, styles, at)->0.first + k,
    ensures
        model::table_at(other, styles, there) == Some(
            TableModel { here: k, ..model::table_at(source, styles, at)->0 },
        ),
{
    text_blocks::line_of_holds(source, at);
    let line = text_blocks::line_of(source, at);
    let count = text_blocks::lines(source).len() as int;
    let table = model::table_at(source, styles, at)->0;
    firsts_are_within(styles, line);
    lasts_are_within(styles, line, count);
    let new = table.first + k;
    assert(model::is_table_line(styles, line));
    assert(model::is_table_line(styles, new));
    if new <= line {
        firsts_from_above(styles, table.first, new);
        firsts_from_above(styles, table.first, line);
        lasts_from_below(styles, new, line, count);
    } else {
        firsts_from_above(styles, line, new);
        lasts_from_below(styles, line, new, count);
    }
}

proof fn lasts_from_below(styles: Seq<LineStyle>, one: int, two: int, count: int)
    requires
        one <= two < count,
        forall|k: int| one < k <= two ==> #[trigger] model::is_table_line(styles, k),
    ensures
        model::table_last(styles, one, count) == model::table_last(styles, two, count),
    decreases two - one,
{
    if one < two {
        lasts_from_below(styles, one + 1, two, count);
    }
}

proof fn firsts_from_above(styles: Seq<LineStyle>, one: int, two: int)
    requires
        0 <= one <= two,
        forall|k: int| one <= k < two ==> #[trigger] model::is_table_line(styles, k),
    ensures
        model::table_first(styles, two) == model::table_first(styles, one),
    decreases two - one,
{
    if one < two {
        firsts_from_above(styles, one, two - 1);
    }
}

// --- widths -----------------------------------------------------------------------------

/// What widths, once written, are stated as: nothing where they are all the same.
pub open spec fn as_stated(wanted: Seq<u32>) -> Option<Seq<u32>> {
    let raised = wanted.map_values(|one: u32| widths::at_least_min(one as int));
    if widths::all_same(raised) {
        None
    } else {
        Some(raised)
    }
}

proof fn raised_widths_read_back(rule: Seq<RuleCell>, wanted: Seq<u32>)
    requires
        rule.len() == wanted.len() >= 1,
    ensures
        ({
            let raised = wanted.map_values(|one: u32| widths::at_least_min(one as int));
            let written = model::with_dashes(rule, raised);
            &&& cells::rule_of(model::rule_text(written)) == Some(written)
            &&& model::stated(model::rule_text(written)) == as_stated(wanted)
        }),
{
    let raised = wanted.map_values(|one: u32| widths::at_least_min(one as int));
    let written = model::with_dashes(rule, raised);
    laws::a_written_rule_reads_back(written);
    assert(cells::dashes_of(written) =~= raised);
}

/// The widths that a table is given are those it states from then on, wherever in
/// it one looks. Only its rule is another: every other row is as it was, and every
/// column keeps its colons.
#[verifier::rlimit(30)]
pub proof fn given_widths_are_stated(
    source: Seq<char>,
    styles: Seq<LineStyle>,
    byte: int,
    wanted: Seq<u32>,
    caret: int,
)
    requires
        model::widths_model(source, styles, byte, wanted, caret) is Some,
    ensures
        ({
            let edit = model::widths_model(source, styles, byte, wanted, caret)->0;
            let after = rewritten(source, edit);
            let table = model::table_at(source, styles, model::place(source, byte)->0)->0;
            let old_rule = table.rule(source)->0;
            &&& rows(after).len() == rows(source).len()
            &&& forall|k: int|
                0 <= k < rows(source).len() && k != table.first + 1 ==> #[trigger] rows(after)[k]
                    == rows(source)[k]
            &&& table.rule(after) is Some
            &&& table.rule(after)->0.len() == old_rule.len()
            &&& forall|k: int|
                0 <= k < old_rule.len() ==> (#[trigger] table.rule(after)->0[k]).left
                    == old_rule[k].left && table.rule(after)->0[k].right == old_rule[k].right
            &&& forall|there: int, at: int|
                #![trigger model::stated_model(after, styles, there), text_blocks::line_of(after, at)]
                model::place(after, there) == Some(at) && 0 <= at <= after.len() && table.first
                    <= text_blocks::line_of(after, at) < table.first + table.count
                    ==> model::stated_model(after, styles, there) == as_stated(wanted)
        }),
{
    let at = model::place(source, byte)->0;
    places_are_within(source, byte);
    a_table_is_within(source, styles, at);
    let table = model::table_at(source, styles, at)->0;
    let rule = table.rule(source)->0;
    let edit = model::widths_model(source, styles, byte, wanted, caret)->0;
    let raised = wanted.map_values(|one: u32| widths::at_least_min(one as int));
    let written = model::with_dashes(rule, raised);
    let line = model::rule_text(written);
    laws::a_rule_has_columns(table.line(source, 1));
    raised_widths_read_back(rule, wanted);
    a_rule_is_unbroken(written);
    let new = seq![line];
    assert(new.drop_last() =~= Seq::empty());
    assert(stacked(new.drop_last()) =~= Seq::empty());
    assert(stacked(new) =~= line);
    rows_are_replaced(source, table.first + 1, new, edit);
    let after = rewritten(source, edit);
    assert(rows(after)[table.first + 1] == line);
    assert(table.line(after, 1) == rows(after)[table.first + 1]);
    assert forall|there: int, other: int|
        #![trigger model::stated_model(after, styles, there), text_blocks::line_of(after, other)]
        model::place(after, there) == Some(other) && 0 <= other <= after.len() && table.first
            <= text_blocks::line_of(after, other) < table.first + table.count implies
        model::stated_model(after, styles, there) == as_stated(wanted) by {
        a_table_is_one(
            source,
            styles,
            at,
            after,
            other,
            text_blocks::line_of(after, other) - table.first,
        );
    }
}

/// Where nothing has to be written, the widths are stated already.
pub proof fn widths_that_stay_are_stated(
    source: Seq<char>,
    styles: Seq<LineStyle>,
    byte: int,
    wanted: Seq<u32>,
    caret: int,
)
    requires
        model::place(source, byte) is Some,
        model::table_at(source, styles, model::place(source, byte)->0) is Some,
        ({
            let table = model::table_at(source, styles, model::place(source, byte)->0)->0;
            table.rule(source) is Some && table.rule(source)->0.len() == wanted.len()
        }),
        model::widths_model(source, styles, byte, wanted, caret) is None,
    ensures
        model::stated_model(source, styles, byte) == as_stated(wanted),
{
    let table = model::table_at(source, styles, model::place(source, byte)->0)->0;
    laws::a_rule_has_columns(table.line(source, 1));
    raised_widths_read_back(table.rule(source)->0, wanted);
}

pub(crate) proof fn places_are_within(source: Seq<char>, byte: int)
    ensures
        match model::place(source, byte) {
            Some(at) => 0 <= at <= source.len(),
            None => true,
        },
{
    counts_are_within(source, byte);
}

proof fn counts_are_within(source: Seq<char>, byte: int)
    ensures
        match text::chars_before(source, byte) {
            Some(at) => 0 <= at <= source.len(),
            None => true,
        },
    decreases source.len(),
{
    if byte != 0 && source.len() > 0 && byte >= text::utf8_len(source[0]) {
        counts_are_within(source.skip(1), byte - text::utf8_len(source[0]));
    }
}

// --- a column that comes and goes ---------------------------------------------------------

/// The same places, three further on.
spec fn shifted(places: Seq<int>) -> Seq<int> {
    places.map_values(|at: int| at + 3)
}

proof fn scans_agree(one: Seq<char>, two: Seq<char>, count: int)
    requires
        0 <= count <= one.len(),
        count <= two.len(),
        one.take(count) == two.take(count),
    ensures
        cells::scan(one, count) == cells::scan(two, count),
    decreases count,
{
    if count > 0 {
        assert(one.take(count - 1) =~= one.take(count).take(count - 1));
        assert(two.take(count - 1) =~= two.take(count).take(count - 1));
        scans_agree(one, two, count - 1);
        assert(one.take(count)[count - 1] == one[count - 1]);
        assert(two.take(count)[count - 1] == two[count - 1]);
        assert(one[count - 1] == two[count - 1]);
        assert(cells::scan(one, count - 1) == cells::scan(two, count - 1));
    } else {
        assert(cells::scan(one, count) == cells::scan(two, count));
    }
}

/// At a bar, the bars before it have been seen, and nothing is escaped.
proof fn a_scan_at_a_bar(line: Seq<char>, at: int, count: int)
    requires
        0 <= count <= line.len(),
        0 <= at < cells::scan(line, count).0.len(),
    ensures
        ({
            let found = cells::scan(line, count).0;
            let bar = found[at];
            &&& 0 <= bar < count
            &&& line[bar] == '|'
            &&& cells::scan(line, bar) == (found.take(at), false)
        }),
    decreases count,
{
    if count > 0 {
        let found = cells::scan(line, count).0;
        let before = cells::scan(line, count - 1).0;
        if at < before.len() {
            a_scan_at_a_bar(line, at, count - 1);
            assert(found[at] == before[at]);
            assert(found.take(at) =~= before.take(at));
        } else {
            assert(found.take(at) =~= before);
        }
    }
}

/// A row with an empty cell put in front of one of its bars.
spec fn opened(line: Seq<char>, bar: int) -> Seq<char> {
    line.take(bar) + seq!['|', ' ', ' '] + line.skip(bar)
}

proof fn a_scan_behind(line: Seq<char>, at: int, count: int)
    requires
        0 <= at < cells::bars(line).len(),
        cells::bars(line)[at] <= count <= line.len(),
    ensures
        ({
            let bar = cells::bars(line)[at];
            let (found, escaped) = cells::scan(line, count);
            let head = cells::bars(line).take(at);
            &&& found.len() >= at
            &&& found.take(at) == head
            &&& cells::scan(opened(line, bar), count + 3) == (
                head.push(bar) + shifted(found.skip(at)),
                escaped,
            )
        }),
    decreases count,
{
    let all = cells::bars(line);
    let bar = all[at];
    let head = all.take(at);
    let new = opened(line, bar);
    a_scan_at_a_bar(line, at, line.len() as int);
    let (found, escaped) = cells::scan(line, count);
    if count == bar {
        assert(new.take(bar) =~= line.take(bar));
        scans_agree(new, line, bar);
        assert(new[bar] == '|' && new[bar + 1] == ' ' && new[bar + 2] == ' ');
        reveal_with_fuel(cells::scan, 4);
        assert(found =~= head);
        assert(shifted(found.skip(at)) =~= Seq::empty());
        assert(head.push(bar) + shifted(found.skip(at)) =~= head.push(bar));
        assert(found.take(at) =~= head);
    } else {
        a_scan_behind(line, at, count - 1);
        let (before, was) = cells::scan(line, count - 1);
        assert(new[count + 2] == line[count - 1]);
        if found.len() > before.len() {
            assert(found.skip(at) =~= before.skip(at).push(count - 1));
            assert(shifted(found.skip(at)) =~= shifted(before.skip(at)).push(count + 2));
            assert(head.push(bar) + shifted(found.skip(at)) =~= (head.push(bar) + shifted(
                before.skip(at),
            )).push(count + 2));
            assert(found.take(at) =~= before.take(at));
        }
    }
}

/// An empty cell in front of a bar is one bar more.
proof fn an_opened_row_has_a_bar_more(line: Seq<char>, at: int)
    requires
        0 <= at < cells::bars(line).len(),
    ensures
        ({
            let bars = cells::bars(line);
            let new = opened(line, bars[at]);
            &&& cells::bars(new) == bars.take(at).push(bars[at]) + shifted(bars.skip(at))
            &&& new.len() == line.len() + 3
            &&& 0 <= bars[at] < line.len()
        }),
{
    cells::cells_lie_within(line);
    a_scan_behind(line, at, line.len() as int);
}

pub(crate) proof fn places_before(places: Seq<int>, at: int, offset: int, n: int)
    requires
        0 <= n <= places.len(),
        0 <= at <= places.len(),
        forall|k: int| 0 <= k < at ==> #[trigger] places[k] < offset,
        forall|k: int| at <= k < places.len() ==> #[trigger] places[k] >= offset,
    ensures
        model::bars_before(places, offset, n) == if n < at {
            n
        } else {
            at
        },
    decreases n,
{
    if n > 0 {
        places_before(places, at, offset, n - 1);
        assert(places[n - 1] < offset <==> n - 1 < at);
    }
}

/// Deleting the new cell gives the row back, and the caret behind its first blank is
/// in it.
#[verifier::rlimit(30)]
proof fn a_row_comes_back(line: Seq<char>, at: int, stay: usize, columns: int)
    requires
        0 <= at < cells::bars(line).len(),
        cells::bars(line).len() == columns,
        line.len() <= u32::MAX,
    ensures
        ({
            let bar = cells::bars(line)[at];
            let (new, caret) = model::edited_row(line, ColumnEdit::Insert(at as usize));
            &&& new == opened(line, bar)
            &&& caret == Some(model::offset(new, bar + 2))
            &&& 0 <= bar && bar + 2 <= new.len()
            &&& model::edited_row(new, ColumnEdit::Delete(at as usize, stay)).0 == line
            &&& model::column_at(new, bar + 2, columns) == at
        }),
{
    let bars = cells::bars(line);
    let bar = bars[at];
    let new = opened(line, bar);
    cells::bars_are_few(line);
    cells::cells_lie_within(line);
    an_opened_row_has_a_bar_more(line, at);
    let more = cells::bars(new);
    assert(more[at] == bar);
    assert(more[at + 1] == bar + 3) by {
        assert(shifted(bars.skip(at))[0] == bar + 3);
    }
    assert(new.take(bar) + new.skip(bar + 3) =~= line);
    assert(new.take(bar + 2) =~= line.take(bar) + seq!['|', ' ']);
    text::size_adds(line.take(bar), seq!['|', ' ']);
    two_bytes();
    assert forall|k: int| 0 <= k < at + 1 implies #[trigger] more[k] < bar + 2 by {
        if k < at {
            assert(more[k] == bars[k]);
            assert(bars[k] < bars[at]);
        }
    }
    assert forall|k: int| at + 1 <= k < more.len() implies #[trigger] more[k] >= bar + 2 by {
        let j = k - 1;
        assert(more[k] == shifted(bars.skip(at))[j - at]);
        assert(more[k] == bars[j] + 3);
        if at < j {
            assert(bars[at] < bars[j]);
        }
    }
    places_before(more, at + 1, bar + 2, more.len() as int);
}

proof fn two_bytes()
    ensures
        text::size(seq!['|', ' ']) == 2,
{
    reveal_with_fuel(text::size, 3);
    assert(seq!['|', ' '].drop_last() =~= seq!['|']);
    assert(seq!['|'].drop_last() =~= Seq::empty());
}

/// The rows of the table after an edit of its columns.
pub open spec fn table_rows(
    table: TableModel,
    source: Seq<char>,
    rule: Seq<char>,
    edit: ColumnEdit,
) -> Seq<Seq<char>> {
    Seq::new(
        table.count as nat,
        |k: int|
            if k == 1 {
                rule
            } else {
                model::edited_row(table.line(source, k), edit).0
            },
    )
}

pub(crate) proof fn a_rebuilt_table_is_its_rows(
    table: TableModel,
    source: Seq<char>,
    rule: Seq<char>,
    edit: ColumnEdit,
    n: int,
)
    requires
        0 <= n <= table.count,
    ensures
        model::rebuilt(table, source, rule, edit, n) == stacked(
            table_rows(table, source, rule, edit).take(n),
        ),
    decreases n,
{
    let new = table_rows(table, source, rule, edit);
    if n > 0 {
        a_rebuilt_table_is_its_rows(table, source, rule, edit, n - 1);
        assert(new.take(n).drop_last() =~= new.take(n - 1));
        assert(new.take(n).last() == new[n - 1]);
    } else {
        assert(new.take(0) =~= Seq::empty());
    }
}

/// A place in a row of a stack, in bytes.
proof fn an_offset_in_the_stack(all: Seq<Seq<char>>, k: int, j: int)
    requires
        0 <= k < all.len(),
        0 <= j <= all[k].len(),
    ensures
        model::offset(stacked(all), row_start(all, k) + j) == text::size(in_front(all, k))
            + model::offset(all[k], j),
        0 <= row_start(all, k) + j <= stacked(all).len(),
{
    let whole = stacked(all);
    let front = in_front(all, k);
    the_front_of_a_stack(all, k);
    a_row_in_the_stack(all, k);
    let from = row_start(all, k);
    let row = whole.subrange(from, from + all[k].len());
    assert(whole.take(from + j) =~= whole.take(from) + row.take(j));
    text::size_adds(front, all[k].take(j));
}

proof fn fronts_add(all: Seq<Seq<char>>, first: int, new: Seq<Seq<char>>, k: int)
    requires
        0 <= first,
        0 <= k < new.len(),
        first + new.len() <= all.len(),
        forall|i: int| 0 <= i < new.len() ==> all[first + i] == #[trigger] new[i],
    ensures
        in_front(all, first + k) == in_front(all, first) + in_front(new, k),
{
    let head = all.take(first);
    let part = new.take(k);
    assert(all.take(first + k) =~= head + part);
    if k == 0 {
        assert(part =~= Seq::empty());
        assert(stacked(part) =~= Seq::empty());
        assert(in_front(new, 0) =~= Seq::empty());
        assert(in_front(all, first) + in_front(new, 0) =~= in_front(all, first));
    } else if first == 0 {
        assert(head =~= Seq::empty());
        assert(stacked(head) =~= Seq::empty());
        assert(head + part =~= part);
        assert(in_front(all, 0) =~= Seq::empty());
        assert(in_front(all, 0) + in_front(new, k) =~= in_front(new, k));
    } else {
        stacks_add(head, part);
        assert(in_front(all, first + k) =~= in_front(all, first) + in_front(new, k));
    }
}

proof fn an_offset_in_the_rows(
    all: Seq<Seq<char>>,
    first: int,
    new: Seq<Seq<char>>,
    here: int,
    j: int,
)
    requires
        0 <= first,
        0 <= here < new.len(),
        first + new.len() <= all.len(),
        0 <= j <= new[here].len(),
        forall|i: int| 0 <= i < new.len() ==> all[first + i] == #[trigger] new[i],
    ensures
        model::offset(stacked(all), row_start(all, first + here) + j) == text::size(
            in_front(all, first),
        ) + text::size(in_front(new, here)) + model::offset(new[here], j),
        text::size(in_front(new, here)) + model::offset(new[here], j) <= text::size(stacked(new)),
        0 <= row_start(all, first + here) + j <= stacked(all).len(),
{
    assert(all[first + here] == new[here]);
    an_offset_in_the_stack(all, first + here, j);
    an_offset_in_the_stack(new, here, j);
    fronts_add(all, first, new, here);
    text::size_adds(in_front(all, first), in_front(new, here));
    an_offset_leads_back(stacked(new), row_start(new, here) + j);
}

/// A table in which every row but the rule has as many cells as the rule has columns
/// and a bar that closes it, and whose rule is spelled as this program spells one,
/// with as many dashes in every column.
pub open spec fn is_even(table: TableModel, source: Seq<char>) -> bool {
    &&& table.rule(source) is Some
    &&& table.line(source, 1) == model::rule_text(table.rule(source)->0)
    &&& widths::all_same(cells::dashes_of(table.rule(source)->0))
    &&& forall|k: int|
        0 <= k < table.count && k != 1 ==> cells::bars(#[trigger] table.line(source, k)).len()
            == table.rule(source)->0.len() + 1
}

pub(crate) proof fn rules_have_dashes(line: Seq<char>, count: int)
    requires
        line.len() <= u32::MAX,
        0 <= count <= cells::bars(line).len(),
        cells::rule_prefix(line, count) is Some,
    ensures
        cells::rule_prefix(line, count)->0.len() == count,
        forall|k: int|
            0 <= k < count ==> (#[trigger] cells::rule_prefix(line, count)->0[k]).dashes >= 1,
    decreases count,
{
    if count > 0 {
        rules_have_dashes(line, count - 1);
        cells::cells_lie_within(line);
        let (from, to) = cells::cell_text(line, count - 1);
        let here = cells::cell(line, count - 1);
        cells::trims_within(line, here.0, here.1);
        cells::colons_within(line, from, to);
    }
}

/// The rule with a column more, and the same rule once it is gone.
proof fn a_rule_comes_back(rule: Seq<RuleCell>, at: int)
    requires
        rule.len() >= 1,
        0 <= at <= rule.len(),
        widths::all_same(cells::dashes_of(rule)),
        forall|k: int| 0 <= k < rule.len() ==> (#[trigger] rule[k]).dashes >= 1,
    ensures
        ({
            let more = model::with_dashes(
                rule.insert(at, model::new_column()),
                widths::inserted(cells::dashes_of(rule), at),
            );
            &&& more.len() == rule.len() + 1
            &&& cells::rule_of(model::rule_text(more)) == Some(more)
            &&& model::with_dashes(
                more.remove(at),
                widths::removed(cells::dashes_of(more), at),
            ) == rule
        }),
{
    let dashes = cells::dashes_of(rule);
    let more = model::with_dashes(
        rule.insert(at, model::new_column()),
        widths::inserted(dashes, at),
    );
    assert(dashes[0] == rule[0].dashes);
    assert forall|k: int| 0 <= k < more.len() implies (#[trigger] more[k]).dashes
        == dashes[0] by {}
    laws::a_written_rule_reads_back(more);
    let counts = cells::dashes_of(more);
    assert(widths::all_same(counts));
    assert forall|k: int| 0 <= k < rule.len() implies #[trigger] rule[k].dashes
        == dashes[0] by {
        assert(dashes[k] == dashes[0]);
    }
    assert(model::with_dashes(more.remove(at), counts.remove(at)) =~= rule);
}

/// The place where the caret stands once a column came in, and the table around it.
#[verifier::spinoff_prover]
#[verifier::rlimit(40)]
proof fn the_caret_is_in_the_new_column(
    source: Seq<char>,
    styles: Seq<LineStyle>,
    place: int,
    rule: Seq<char>,
    at: int,
)
    requires
        0 <= place <= source.len() <= u32::MAX,
        model::table_at(source, styles, place) is Some,
        unbroken(rule),
        ({
            let table = model::table_at(source, styles, place)->0;
            forall|k: int|
                0 <= k < table.count && k != 1 ==> 0 <= at < cells::bars(
                    #[trigger] table.line(source, k),
                ).len()
        }),
    ensures
        ({
            let table = model::table_at(source, styles, place)->0;
            let column = ColumnEdit::Insert(at as usize);
            let edit = model::rebuild_model(table, source, rule, column);
            let after = rewritten(source, edit);
            let new = table_rows(table, source, rule, column);
            let here = model::caret_line(table);
            let bar = cells::bars(table.line(source, here))[at];
            let there = table.bounds(after, here).0 + bar + 2;
            &&& rows(after) == with_rows(source, table.first, new)
            &&& text_blocks::lines(after).len() == text_blocks::lines(source).len()
            &&& model::place(after, edit.caret) == Some(there)
            &&& model::table_at(after, styles, there) == Some(TableModel { here, ..table })
            &&& 0 <= there <= after.len()
        }),
{
    a_table_is_within(source, styles, place);
    let table = model::table_at(source, styles, place)->0;
    let column = ColumnEdit::Insert(at as usize);
    let edit = model::rebuild_model(table, source, rule, column);
    let new = table_rows(table, source, rule, column);
    let here = model::caret_line(table);
    let line = table.line(source, here);
    let bar = cells::bars(line)[at];
    a_table_opens(table, source, rule, at);
    a_rebuilt_table_is_its_rows(table, source, rule, column, table.count);
    a_rebuilt_table_is_its_rows(table, source, rule, column, here);
    assert(new.take(table.count) =~= new);
    rows_are_replaced(source, table.first, new, edit);
    let after = rewritten(source, edit);
    let all = with_rows(source, table.first, new);
    a_line_is_short(table, source, here);
    a_row_comes_back(line, at, 0, cells::bars(line).len() as int);
    assert(new[here] == opened(line, bar));
    assert forall|i: int| 0 <= i < new.len() implies all[table.first + i] == #[trigger] new[i] by {}
    let k = table.first + here;
    a_text_is_its_rows(after);
    lines_of_stack(all);
    let there = row_start(all, k) + bar + 2;
    an_offset_in_the_rows(all, table.first, new, here, bar + 2);
    assert(text::size(in_front(all, table.first)) == edit.from) by {
        a_text_comes_apart(source, table.first, table.first + 1);
        assert(all.take(table.first) =~= rows(source).take(table.first));
    }
    an_offset_leads_back(after, there);
    assert(edit.caret == model::offset(after, there));
    a_place_is_on_its_line(after, there, k);
    a_table_is_one(source, styles, place, after, there, here);
}

pub(crate) proof fn a_line_is_short(table: TableModel, source: Seq<char>, k: int)
    requires
        0 <= table.first,
        0 <= k < table.count,
        table.first + table.count <= text_blocks::lines(source).len(),
    ensures
        table.line(source, k).len() <= source.len(),
        table.line(source, k) == rows(source)[table.first + k],
        unbroken(table.line(source, k)),
{
    text_blocks::lines_follow(source);
    a_text_is_its_rows(source);
    let there = text_blocks::lines(source)[table.first + k];
    assert(unbroken(rows(source)[table.first + k]));
}

proof fn a_table_opens(table: TableModel, source: Seq<char>, rule: Seq<char>, at: int)
    requires
        0 <= table.first,
        0 <= table.count,
        table.first + table.count <= text_blocks::lines(source).len(),
        source.len() <= u32::MAX,
        unbroken(rule),
        forall|k: int|
            0 <= k < table.count && k != 1 ==> 0 <= at < cells::bars(
                #[trigger] table.line(source, k),
            ).len(),
    ensures
        all_unbroken(table_rows(table, source, rule, ColumnEdit::Insert(at as usize))),
{
    let new = table_rows(table, source, rule, ColumnEdit::Insert(at as usize));
    assert forall|k: int| 0 <= k < new.len() implies unbroken(#[trigger] new[k]) by {
        if k != 1 {
            let line = table.line(source, k);
            a_line_is_short(table, source, k);
            a_row_comes_back(line, at, 0, cells::bars(line).len() as int);
            let bar = cells::bars(line)[at];
            cells::cells_lie_within(line);
            assert(unbroken(line.take(bar)));
            assert(unbroken(line.skip(bar)));
            sums_are_unbroken(line.take(bar), seq!['|', ' ', ' ']);
            sums_are_unbroken(line.take(bar) + seq!['|', ' ', ' '], line.skip(bar));
        }
    }
}

/// The column that the caret stays in where the one at `at` goes.
spec fn staying(at: int, columns: int) -> usize {
    (if at > columns - 2 {
        columns - 2
    } else {
        at
    }) as usize
}

/// Deleting at the caret is deleting the column that came in.
#[verifier::rlimit(30)]
proof fn the_new_column_is_deleted(
    source: Seq<char>,
    styles: Seq<LineStyle>,
    place: int,
    at: int,
)
    requires
        0 <= place <= source.len() <= u32::MAX,
        model::table_at(source, styles, place) is Some,
        ({
            let table = model::table_at(source, styles, place)->0;
            &&& is_even(table, source)
            &&& 0 <= at <= table.rule(source)->0.len()
        }),
    ensures
        ({
            let table = model::table_at(source, styles, place)->0;
            let rule = table.rule(source)->0;
            let edit = model::column_model(table, rule, source, at);
            let after = rewritten(source, edit);
            let more = model::with_dashes(
                rule.insert(at, model::new_column()),
                widths::inserted(cells::dashes_of(rule), at),
            );
            let new = table_rows(
                table,
                source,
                model::rule_text(more),
                ColumnEdit::Insert(at as usize),
            );
            &&& rows(after) == with_rows(source, table.first, new)
            &&& text_blocks::lines(after).len() == text_blocks::lines(source).len()
            &&& model::edit_model(after, styles, edit.caret, TableEdit::DeleteColumn) == Some(
                model::rebuild_model(
                    TableModel { here: model::caret_line(table), ..table },
                    after,
                    table.line(source, 1),
                    ColumnEdit::Delete(at as usize, staying(at, rule.len() as int + 1)),
                ),
            )
        }),
{
    a_table_is_within(source, styles, place);
    let table = model::table_at(source, styles, place)->0;
    let rule = table.rule(source)->0;
    let here = model::caret_line(table);
    let moved = TableModel { here, ..table };
    let rule_line = table.line(source, 1);
    a_line_is_short(table, source, 1);
    laws::a_rule_has_columns(rule_line);
    rules_have_dashes(rule_line, cells::columns_of(rule_line));
    a_rule_comes_back(rule, at);
    let more = model::with_dashes(
        rule.insert(at, model::new_column()),
        widths::inserted(cells::dashes_of(rule), at),
    );
    let more_line = model::rule_text(more);
    a_rule_is_unbroken(more);
    the_caret_is_in_the_new_column(source, styles, place, more_line, at);
    let edit = model::column_model(table, rule, source, at);
    let after = rewritten(source, edit);
    let new = table_rows(table, source, more_line, ColumnEdit::Insert(at as usize));
    let line = table.line(source, here);
    let bar = cells::bars(line)[at];
    let there = table.bounds(after, here).0 + bar + 2;
    assert(table.line(after, 1) == new[1]) by {
        a_line_is_short(table, after, 1);
    }
    assert(table.line(after, here) == new[here]) by {
        a_line_is_short(table, after, here);
    }
    assert(table.rule(after) == Some(more));
    a_line_is_short(table, source, here);
    a_row_comes_back(line, at, 0, more.len() as int);
    assert(model::column_at(
        table.line(after, here),
        there - table.bounds(after, here).0,
        more.len() as int,
    ) == at);
    assert(model::edit_model(after, styles, edit.caret, TableEdit::DeleteColumn)
        == model::edit_in(moved, more, after, there, edit.caret, TableEdit::DeleteColumn));
}

/// Deleting the column that just came in gives the text back, letter for letter.
#[verifier::rlimit(30)]
pub proof fn deleting_takes_a_new_column_back(
    source: Seq<char>,
    styles: Seq<LineStyle>,
    byte: int,
    what: TableEdit,
)
    requires
        what == TableEdit::ColumnBefore || what == TableEdit::ColumnAfter,
        source.len() <= u32::MAX,
        model::edit_model(source, styles, byte, what) is Some,
        is_even(model::table_at(source, styles, model::place(source, byte)->0)->0, source),
    ensures
        ({
            let edit = model::edit_model(source, styles, byte, what)->0;
            let after = rewritten(source, edit);
            let back = model::edit_model(after, styles, edit.caret, TableEdit::DeleteColumn);
            back is Some && rewritten(after, back->0) == source
        }),
{
    let place = model::place(source, byte)->0;
    places_are_within(source, byte);
    a_table_is_within(source, styles, place);
    let table = model::table_at(source, styles, place)->0;
    let rule = table.rule(source)->0;
    let here = table.here;
    laws::a_rule_has_columns(table.line(source, 1));
    let column = model::column_at(
        table.line(source, here),
        place - table.bounds(source, here).0,
        rule.len() as int,
    );
    let at = if what == TableEdit::ColumnBefore {
        column
    } else {
        column + 1
    };
    the_new_column_is_deleted(source, styles, place, at);
    let edit = model::column_model(table, rule, source, at);
    assert(model::edit_model(source, styles, byte, what) == Some(edit));
    let moved = TableModel { here: model::caret_line(table), ..table };
    assert forall|k: int| #[trigger] moved.line(source, k) == table.line(source, k) by {}
    let more = model::with_dashes(
        rule.insert(at, model::new_column()),
        widths::inserted(cells::dashes_of(rule), at),
    );
    let opening = ColumnEdit::Insert(at as usize);
    assert(table_rows(moved, source, model::rule_text(more), opening) =~= table_rows(
        table,
        source,
        model::rule_text(more),
        opening,
    ));
    the_text_comes_back(source, moved, rule, rewritten(source, edit), at);
}

#[verifier::rlimit(30)]
proof fn the_text_comes_back(
    source: Seq<char>,
    table: TableModel,
    rule: Seq<RuleCell>,
    after: Seq<char>,
    at: int,
)
    requires
        0 <= table.first,
        2 <= table.count,
        table.first + table.count <= text_blocks::lines(source).len(),
        text_blocks::lines(after).len() == text_blocks::lines(source).len(),
        source.len() <= u32::MAX,
        is_even(table, source),
        table.rule(source) == Some(rule),
        0 <= at <= rule.len(),
        ({
            let more = model::with_dashes(
                rule.insert(at, model::new_column()),
                widths::inserted(cells::dashes_of(rule), at),
            );
            rows(after) == with_rows(
                source,
                table.first,
                table_rows(
                    table,
                    source,
                    model::rule_text(more),
                    ColumnEdit::Insert(at as usize),
                ),
            )
        }),
    ensures
        rewritten(
            after,
            model::rebuild_model(
                table,
                after,
                table.line(source, 1),
                ColumnEdit::Delete(at as usize, staying(at, rule.len() as int + 1)),
            ),
        ) == source,
{
    let more = model::with_dashes(
        rule.insert(at, model::new_column()),
        widths::inserted(cells::dashes_of(rule), at),
    );
    let more_line = model::rule_text(more);
    let new = table_rows(table, source, more_line, ColumnEdit::Insert(at as usize));
    let rule_line = table.line(source, 1);
    let closing = ColumnEdit::Delete(at as usize, staying(at, rule.len() as int + 1));
    let back = model::rebuild_model(table, after, rule_line, closing);
    assert forall|k: int| 0 <= k < table.count implies #[trigger] table.line(after, k)
        == new[k] by {
        a_line_is_short(table, after, k);
    }
    the_rows_come_back(table, source, after, more_line, at, staying(at, rule.len() as int + 1));
    let old = table_rows(table, after, rule_line, closing);
    a_rebuilt_table_is_its_rows(table, after, rule_line, closing, table.count);
    assert(old.take(table.count) =~= old);
    rows_are_replaced(after, table.first, old, back);
    assert(with_rows(after, table.first, old) =~= rows(source));
    a_text_is_its_rows(source);
}

proof fn the_rows_come_back(
    table: TableModel,
    source: Seq<char>,
    after: Seq<char>,
    more_line: Seq<char>,
    at: int,
    stay: usize,
)
    requires
        0 <= table.first,
        0 < table.count,
        table.first + table.count <= text_blocks::lines(source).len(),
        source.len() <= u32::MAX,
        forall|k: int|
            0 <= k < table.count && k != 1 ==> 0 <= at < cells::bars(
                #[trigger] table.line(source, k),
            ).len(),
        forall|k: int|
            0 <= k < table.count ==> #[trigger] table.line(after, k) == table_rows(
                table,
                source,
                more_line,
                ColumnEdit::Insert(at as usize),
            )[k],
    ensures
        ({
            let old = table_rows(
                table,
                after,
                table.line(source, 1),
                ColumnEdit::Delete(at as usize, stay),
            );
            &&& old.len() == table.count
            &&& all_unbroken(old)
            &&& forall|k: int|
                0 <= k < table.count ==> #[trigger] old[k] == rows(source)[table.first + k]
        }),
{
    let old = table_rows(
        table,
        after,
        table.line(source, 1),
        ColumnEdit::Delete(at as usize, stay),
    );
    assert forall|k: int| 0 <= k < table.count implies #[trigger] old[k] == rows(
        source,
    )[table.first + k] && unbroken(old[k]) by {
        a_line_is_short(table, source, k);
        if k != 1 {
            let line = table.line(source, k);
            a_row_comes_back(line, at, stay, cells::bars(line).len() as int);
            assert(table.line(after, k) == model::edited_row(
                line,
                ColumnEdit::Insert(at as usize),
            ).0);
        }
    }
}

} // verus!
