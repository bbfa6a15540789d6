//! How wide the columns of a table are.
use crate::table_edit::cells::{self, RuleCell};
use crate::table_edit::single::{self, Single, Value};
use vstd::prelude::*;

verus! {

/// The least width of a column, which is also the shortest rule that other
/// programs read.
pub const MIN_WIDTH: u32 = 3;

/// The whole length of a line, in dashes.
pub const FULL_WIDTH: u32 = 100;

/// Every column is as wide as the first: no widths are stated.
pub open spec fn all_same(counts: Seq<u32>) -> bool {
    forall|at: int| 0 <= at < counts.len() ==> #[trigger] counts[at] == counts[0]
}

/// A number of dashes in a ratio, to the nearest whole number. Ratios are reckoned
/// with in single precision.
pub open spec fn scaled(count: u32, scale: Value) -> u32 {
    single::to_count(single::product(single::whole(count as int), scale))
}

pub open spec fn at_least_min(count: int) -> u32 {
    if count < MIN_WIDTH {
        MIN_WIDTH
    } else {
        count as u32
    }
}

/// The last of the widest columns that can still give a dash, among the first
/// `count`; -1 where none can.
pub open spec fn widest(counts: Seq<u32>, count: int) -> int
    decreases count,
{
    if count <= 0 {
        -1
    } else {
        let best = widest(counts, count - 1);
        if counts[count - 1] > MIN_WIDTH && (best < 0 || counts[count - 1] >= counts[best]) {
            count - 1
        } else {
            best
        }
    }
}

/// The widest columns give dashes until there are `limit` at most.
pub open spec fn shrunk(counts: Seq<u32>, limit: int) -> Seq<u32>
    decreases cells::total(counts),
    when 0 <= cells::total(counts)
    via shrinking_ends
{
    let at = widest(counts, counts.len() as int);
    if cells::total(counts) <= limit || at < 0 || at >= counts.len() || counts[at] == 0 {
        counts
    } else {
        shrunk(counts.update(at, (counts[at] - 1) as u32), limit)
    }
}

#[via_fn]
proof fn shrinking_ends(counts: Seq<u32>, limit: int) {
    let at = widest(counts, counts.len() as int);
    if 0 <= at < counts.len() && counts[at] > 0 {
        total_of_update(counts, at, (counts[at] - 1) as u32);
        total_counts(counts.update(at, (counts[at] - 1) as u32));
    }
}

/// Where all columns are as wide, the last gives or takes a dash: as many in
/// every column would read as no widths at all.
pub open spec fn kept_apart(counts: Seq<u32>) -> Seq<u32> {
    let last = counts.len() - 1;
    if counts.len() < 2 || !all_same(counts) {
        counts
    } else if cells::total(counts) < FULL_WIDTH {
        counts.update(last, (counts[last] + 1) as u32)
    } else if counts[last] > MIN_WIDTH {
        counts.update(last, (counts[last] - 1) as u32)
    } else {
        counts
    }
}

pub open spec fn greater(one: int, two: int) -> int {
    if one < two {
        two
    } else {
        one
    }
}

/// Widths made to hold: none below the least, the sum as it was where that is
/// possible, and not all the same.
pub open spec fn settled(counts: Seq<u32>, total: int) -> Seq<u32> {
    let raised = counts.map_values(|count: u32| at_least_min(count as int));
    kept_apart(shrunk(raised, greater(total, MIN_WIDTH * counts.len())))
}

/// The average of these numbers.
pub open spec fn average(dashes: Seq<u32>) -> Value {
    single::quotient(single::whole(cells::total(dashes)), single::whole(dashes.len() as int))
}

/// The ratio by which columns shrink where another takes its part of their length.
pub open spec fn shrinking(dashes: Seq<u32>) -> Value {
    let total = single::whole(cells::total(dashes));
    single::quotient(single::difference(total, average(dashes)), total)
}

/// The dashes after a column is added at `at`: where widths are stated, it takes
/// the average and the others shrink by the same ratio.
pub open spec fn inserted(dashes: Seq<u32>, at: int) -> Seq<u32> {
    if all_same(dashes) {
        Seq::new(dashes.len() + 1, |k: int| dashes[0])
    } else {
        settled(
            dashes.map_values(|one: u32| scaled(one, shrinking(dashes))).insert(
                at,
                single::to_count(average(dashes)),
            ),
            cells::total(dashes),
        )
    }
}

/// The ratio by which columns grow to the length that they had with another.
pub open spec fn growing(total: int, left: int) -> Value {
    single::quotient(single::whole(total), single::whole(greater(left, 1)))
}

/// The dashes after the column `at` is gone: where widths are stated, the others
/// grow by the same ratio and the table keeps its length.
pub open spec fn removed(dashes: Seq<u32>, at: int) -> Seq<u32> {
    let rest = dashes.remove(at);
    if all_same(dashes) {
        rest
    } else {
        let scale = growing(cells::total(dashes), cells::total(rest));
        settled(rest.map_values(|one: u32| scaled(one, scale)), cells::total(dashes))
    }
}

pub proof fn total_counts(counts: Seq<u32>)
    ensures
        0 <= cells::total(counts) <= counts.len() * u32::MAX,
        forall|at: int|
            0 <= at < counts.len() ==> #[trigger] counts[at] <= cells::total(counts),
    decreases counts.len(),
{
    if counts.len() > 0 {
        total_counts(counts.drop_last());
        assert forall|at: int| 0 <= at < counts.len() implies #[trigger] counts[at]
            <= cells::total(counts) by {
            if at < counts.len() - 1 {
                assert(counts.drop_last()[at] == counts[at]);
            }
        }
        assert(counts.len() * u32::MAX == (counts.len() - 1) * u32::MAX + u32::MAX)
            by (nonlinear_arith)
            requires
                counts.len() > 0,
        ;
    }
}

pub proof fn total_of_update(counts: Seq<u32>, at: int, value: u32)
    requires
        0 <= at < counts.len(),
    ensures
        cells::total(counts.update(at, value)) == cells::total(counts) - counts[at] + value,
    decreases counts.len(),
{
    let changed = counts.update(at, value);
    if at < counts.len() - 1 {
        total_of_update(counts.drop_last(), at, value);
        assert(changed.drop_last() =~= counts.drop_last().update(at, value));
    } else {
        assert(changed.drop_last() =~= counts.drop_last());
    }
}

/// All of these numbers together.
fn sum(counts: &Vec<u32>) -> (out: u128)
    ensures
        out == cells::total(counts@),
{
    let mut out: u128 = 0;
    let mut at: usize = 0;
    assert(counts@.take(0) =~= Seq::empty());
    while at < counts.len()
        invariant
            at <= counts@.len(),
            out == cells::total(counts@.take(at as int)),
            out <= at * u32::MAX,
        decreases counts@.len() - at,
    {
        assert(counts@.take(at + 1).drop_last() =~= counts@.take(at as int));
        assert(at * u32::MAX + u32::MAX == (at + 1) * u32::MAX) by (nonlinear_arith);
        assert((at + 1) * u32::MAX <= 0x1_0000_0000_0000_0000 * u32::MAX) by (nonlinear_arith)
            requires
                at + 1 <= 0x1_0000_0000_0000_0000,
        ;
        out += counts[at] as u128;
        at += 1;
    }
    assert(counts@.take(at as int) =~= counts@);
    out
}

pub(crate) fn is_all_same(counts: &Vec<u32>) -> (out: bool)
    ensures
        out == all_same(counts@),
{
    let mut at: usize = 0;
    while at < counts.len()
        invariant
            at <= counts@.len(),
            forall|k: int| 0 <= k < at ==> #[trigger] counts@[k] == counts@[0],
        decreases counts@.len() - at,
    {
        if counts[at] != counts[0] {
            return false;
        }
        at += 1;
    }
    true
}

fn widest_of(counts: &Vec<u32>) -> (out: Option<usize>)
    ensures
        match out {
            Some(at) => at == widest(counts@, counts@.len() as int) && at < counts@.len()
                && counts@[at as int] > MIN_WIDTH,
            None => widest(counts@, counts@.len() as int) < 0,
        },
{
    let mut best: Option<usize> = None;
    let mut at: usize = 0;
    while at < counts.len()
        invariant
            at <= counts@.len(),
            match best {
                Some(k) => k < at && k == widest(counts@, at as int) && counts@[k as int]
                    > MIN_WIDTH,
                None => widest(counts@, at as int) < 0,
            },
        decreases counts@.len() - at,
    {
        if counts[at] > MIN_WIDTH {
            match best {
                Some(k) => {
                    if counts[at] >= counts[k] {
                        best = Some(at);
                    }
                },
                None => {
                    best = Some(at);
                },
            }
        }
        at += 1;
    }
    best
}

/// Where all columns are as wide, the last gives or takes a dash.
pub fn keep_specified(counts: &mut Vec<u32>)
    ensures
        final(counts)@ == kept_apart(old(counts)@),
{
    if counts.len() < 2 || !is_all_same(counts) {
        return;
    }
    let last: usize = counts.len() - 1;
    proof {
        total_counts(counts@);
        assert(counts@[last as int] <= cells::total(counts@));
    }
    if sum(counts) < FULL_WIDTH as u128 {
        counts[last] = counts[last] + 1;
    } else if counts[last] > MIN_WIDTH {
        counts[last] = counts[last] - 1;
    }
}

/// Widths made to hold: none below the least, the sum `total` or less where that
/// is possible, and not all the same.
pub fn settle_counts(wanted: &Vec<u32>, total: u32) -> (out: Vec<u32>)
    ensures
        out@ == settled(wanted@, total as int),
{
    let mut counts: Vec<u32> = Vec::new();
    let ghost raised = wanted@.map_values(|count: u32| at_least_min(count as int));
    let mut at: usize = 0;
    while at < wanted.len()
        invariant
            at <= wanted@.len(),
            raised == wanted@.map_values(|count: u32| at_least_min(count as int)),
            counts@ == raised.take(at as int),
        decreases wanted@.len() - at,
    {
        counts.push(
            if wanted[at] < MIN_WIDTH {
                MIN_WIDTH
            } else {
                wanted[at]
            },
        );
        at += 1;
        assert(counts@ =~= raised.take(at as int));
    }
    assert(counts@ =~= raised);
    let least: u128 = counts.len() as u128 * 3;
    let limit: u128 = if (total as u128) < least {
        least
    } else {
        total as u128
    };
    proof {
        total_counts(counts@);
    }
    let mut done = false;
    while !done
        invariant
            0 <= cells::total(counts@),
            shrunk(counts@, limit as int) == shrunk(raised, limit as int),
            done ==> counts@ == shrunk(raised, limit as int),
        decreases
                if done {
                    0int
                } else {
                    1 + cells::total(counts@)
                },
    {
        if sum(&counts) <= limit {
            done = true;
        } else {
            match widest_of(&counts) {
                Some(at) => {
                    proof {
                        total_of_update(
                            counts@,
                            at as int,
                            (counts@[at as int] - 1) as u32,
                        );
                        total_counts(counts@.update(at as int, (counts@[at as int] - 1) as u32));
                    }
                    counts[at] = counts[at] - 1;
                },
                None => {
                    done = true;
                },
            }
        }
    }
    keep_specified(&mut counts);
    counts
}

/// Numbers of dashes in a ratio.
fn scale_all(counts: &Vec<u32>, scale: Single) -> (out: Vec<u32>)
    requires
        scale.within(-200, 200),
    ensures
        out@ == counts@.map_values(|one: u32| scaled(one, scale@)),
{
    let ghost all = counts@.map_values(|one: u32| scaled(one, scale@));
    let mut out: Vec<u32> = Vec::new();
    let mut at: usize = 0;
    while at < counts.len()
        invariant
            at <= counts@.len(),
            scale.within(-200, 200),
            all == counts@.map_values(|one: u32| scaled(one, scale@)),
            out@ == all.take(at as int),
        decreases counts@.len() - at,
    {
        let one = single::of_whole(counts[at] as i64);
        out.push(single::count_of(single::times(one, scale)));
        at += 1;
        assert(out@ =~= all.take(at as int));
    }
    assert(out@ =~= all);
    out
}

pub(crate) fn dashes(rule: &Vec<RuleCell>) -> (out: Vec<u32>)
    ensures
        out@ == cells::dashes_of(rule@),
{
    let mut out: Vec<u32> = Vec::new();
    let ghost all = cells::dashes_of(rule@);
    let mut at: usize = 0;
    while at < rule.len()
        invariant
            at <= rule@.len(),
            all == cells::dashes_of(rule@),
            out@ == all.take(at as int),
        decreases rule@.len() - at,
    {
        out.push(rule[at].dashes);
        at += 1;
        assert(out@ =~= all.take(at as int));
    }
    assert(out@ =~= all);
    out
}

/// The dashes after a column is added at `at`.
pub(crate) fn inserted_widths(rule: &Vec<RuleCell>, at: usize) -> (out: Vec<u32>)
    requires
        0 < rule@.len() <= u32::MAX,
        at <= rule@.len() < usize::MAX,
        cells::total(cells::dashes_of(rule@)) <= u32::MAX,
    ensures
        out@ == inserted(cells::dashes_of(rule@), at as int),
{
    let dashes = dashes(rule);
    let count: usize = dashes.len();
    if is_all_same(&dashes) {
        let mut out: Vec<u32> = Vec::new();
        let mut k: usize = 0;
        while k < count + 1
            invariant
                count == dashes@.len() < usize::MAX,
                0 < count,
                k <= count + 1,
                out@ == Seq::new(k as nat, |k: int| dashes@[0]),
            decreases count + 1 - k,
        {
            out.push(dashes[0]);
            k += 1;
            assert(out@ =~= Seq::new(k as nat, |k: int| dashes@[0]));
        }
        return out;
    }
    let total: u128 = sum(&dashes);
    proof {
        different_are_some(dashes@);
    }
    let whole = single::of_whole(total as i64);
    let new = single::over(whole, single::of_whole(count as i64));
    let scale = single::over(single::minus(whole, new), whole);
    let mut out = scale_all(&dashes, scale);
    out.insert(at, single::count_of(new));
    settle_counts(&out, total as u32)
}

/// Where columns are not all as wide, there is a dash.
proof fn different_are_some(counts: Seq<u32>)
    requires
        !all_same(counts),
    ensures
        cells::total(counts) > 0,
{
    total_counts(counts);
    let at = choose|at: int| 0 <= at < counts.len() && #[trigger] counts[at] != counts[0];
    assert(counts[at] <= cells::total(counts));
    assert(counts[0] <= cells::total(counts));
}

/// The dashes after the column `at` is gone.
pub(crate) fn removed_widths(rule: &Vec<RuleCell>, at: usize) -> (out: Vec<u32>)
    requires
        at < rule@.len(),
        cells::total(cells::dashes_of(rule@)) <= u32::MAX,
    ensures
        out@ == removed(cells::dashes_of(rule@), at as int),
{
    let mut rest = dashes(rule);
    let ghost all = rest@;
    let total: u128 = sum(&rest);
    let same = is_all_same(&rest);
    let _ = rest.remove(at);
    if same {
        return rest;
    }
    let left: u128 = sum(&rest);
    proof {
        total_of_remove(all, at as int);
        total_counts(all);
    }
    let left: u128 = if left < 1 {
        1
    } else {
        left
    };
    let scale = single::over(single::of_whole(total as i64), single::of_whole(left as i64));
    let out = scale_all(&rest, scale);
    settle_counts(&out, total as u32)
}

proof fn total_of_remove(counts: Seq<u32>, at: int)
    requires
        0 <= at < counts.len(),
    ensures
        cells::total(counts.remove(at)) == cells::total(counts) - counts[at],
    decreases counts.len(),
{
    if at < counts.len() - 1 {
        total_of_remove(counts.drop_last(), at);
        assert(counts.remove(at).drop_last() =~= counts.drop_last().remove(at));
        assert(counts.remove(at).last() == counts.last());
    } else {
        assert(counts.remove(at) =~= counts.drop_last());
    }
}

/// Widths that are whole numbers, none below the least.
pub open spec fn raised(counts: Seq<u32>) -> Seq<u32> {
    counts.map_values(|count: u32| at_least_min(count as int))
}

fn raise(counts: &Vec<u32>) -> (out: Vec<u32>)
    ensures
        out@ == raised(counts@),
{
    let mut out: Vec<u32> = Vec::new();
    let mut at: usize = 0;
    while at < counts.len()
        invariant
            at <= counts@.len(),
            out@ == raised(counts@).take(at as int),
        decreases counts@.len() - at,
    {
        out.push(
            if counts[at] < MIN_WIDTH {
                MIN_WIDTH
            } else {
                counts[at]
            },
        );
        at += 1;
        assert(out@ =~= raised(counts@).take(at as int));
    }
    assert(out@ =~= raised(counts@));
    out
}

/// Two columns that share `pair` dashes: the first has what it asks for, as far
/// as the second keeps the least.
pub open spec fn shared(counts: Seq<u32>, boundary: int, pair: u32) -> Seq<u32> {
    let both = greater(pair as int, 2 * MIN_WIDTH) as u32;
    let wanted = raised(counts);
    let one = if wanted[boundary - 1] > both - MIN_WIDTH {
        (both - MIN_WIDTH) as u32
    } else {
        wanted[boundary - 1]
    };
    wanted.update(boundary - 1, one).update(boundary, (both - one) as u32)
}

/// The widths after the boundary between two columns was dragged: the two share
/// what they had together, and the table keeps its length.
pub open spec fn dragged_between(counts: Seq<u32>, boundary: int, pair: u32) -> Seq<u32> {
    let after = shared(counts, boundary, pair);
    if cells::total(after) > FULL_WIDTH {
        settled(after, FULL_WIDTH as int)
    } else {
        kept_apart(after)
    }
}

/// [`dragged_between`]. `counts` are the widths that were dragged to, `pair` what
/// the two columns have together, in whole dashes.
fn drag_between(counts: &Vec<u32>, boundary: usize, pair: u32) -> (out: Vec<u32>)
    requires
        0 < boundary < counts@.len(),
    ensures
        out@ == dragged_between(counts@, boundary as int, pair),
{
    let both: u32 = if pair < 6 {
        6
    } else {
        pair
    };
    let mut after = raise(counts);
    let one: u32 = if after[boundary - 1] > both - MIN_WIDTH {
        both - MIN_WIDTH
    } else {
        after[boundary - 1]
    };
    after.set(boundary - 1, one);
    after.set(boundary, both - one);
    assert(after@ =~= shared(counts@, boundary as int, pair));
    if sum(&after) > FULL_WIDTH as u128 {
        return settle_counts(&after, FULL_WIDTH);
    }
    keep_specified(&mut after);
    after
}

/// How many dashes the last column can have.
pub open spec fn room_of(counts: Seq<u32>) -> int {
    greater(FULL_WIDTH - cells::total(raised(counts).drop_last()), MIN_WIDTH as int)
}

/// The widths after the outer edge was dragged: only the last column changes, and
/// the table with it.
pub open spec fn dragged_edge(counts: Seq<u32>, last: int) -> Seq<u32> {
    kept_apart(
        raised(counts).update(
            counts.len() - 1,
            between(last, MIN_WIDTH as int, room_of(counts)) as u32,
        ),
    )
}

/// [`dragged_edge`]. `last` is what the last column was dragged to.
fn drag_edge(counts: &Vec<u32>, last: u128) -> (out: Vec<u32>)
    requires
        counts@.len() >= 2,
    ensures
        out@ == dragged_edge(counts@, last as int),
{
    let mut after = raise(counts);
    let at: usize = after.len() - 1;
    let ghost all = after@;
    proof {
        total_counts(all);
        total_counts(all.drop_last());
    }
    let others: u128 = sum(&after) - after[at] as u128;
    let room: u128 = if others + 3 > FULL_WIDTH as u128 {
        3
    } else {
        100 - others
    };
    assert(room as int == room_of(counts@));
    let width: u128 = if last < 3 {
        3
    } else if last > room {
        room
    } else {
        last
    };
    after.set(at, width as u32);
    keep_specified(&mut after);
    after
}

/// A number held within bounds.
pub open spec fn between(value: int, least: int, most: int) -> int {
    if value < least {
        least
    } else if value > most {
        most
    } else {
        value
    }
}

/// The rule states a width for every column, and they fit in a line.
pub open spec fn is_stated(stated: Option<&Vec<u32>>, columns: int) -> bool {
    match stated {
        Some(counts) => counts@.len() == columns && cells::total(counts@) <= FULL_WIDTH,
        None => false,
    }
}

/// A length, in whole units that single precision holds.
pub open spec fn is_length(length: int) -> bool {
    -single::FULL < length < single::FULL
}

/// A length in hundredths of a line.
pub open spec fn of_line(length: int, line_box: u32) -> Value {
    single::product(
        single::quotient(single::whole(length), single::whole(line_box as int)),
        single::whole(FULL_WIDTH as int),
    )
}

/// How long a table is seen, in hundredths of a line; no longer than a line.
pub open spec fn reach_of(reach: u32, line_box: u32) -> Value {
    let full = single::whole(FULL_WIDTH as int);
    if single::less(full, of_line(reach as int, line_box)) {
        full
    } else {
        of_line(reach as int, line_box)
    }
}

/// The widths at the beginning of a drag, in hundredths of a line: what the rule
/// states; without that, what is seen, so that taking hold of a table does not change
/// its length.
pub open spec fn parts_of(
    stated: Option<&Vec<u32>>,
    visible: Seq<u32>,
    reach: u32,
    line_box: u32,
) -> Seq<Value> {
    Seq::new(
        visible.len(),
        |at: int|
            if is_stated(stated, visible.len() as int) {
                single::whole(stated->0@[at] as int)
            } else if cells::total(visible) > 0 {
                single::product(
                    single::quotient(
                        single::whole(visible[at] as int),
                        single::whole(cells::total(visible)),
                    ),
                    reach_of(reach, line_box),
                )
            } else {
                single::quotient(reach_of(reach, line_box), single::whole(visible.len() as int))
            },
    )
}

/// To whole dashes.
pub open spec fn all_rounded(parts: Seq<Value>) -> Seq<u32> {
    parts.map_values(|part: Value| single::to_count(part))
}

/// The least width of a column.
pub open spec fn least() -> Value {
    single::whole(MIN_WIDTH as int)
}

/// A width held within bounds.
pub open spec fn held(value: Value, low: Value, high: Value) -> Value {
    if single::less(value, low) {
        low
    } else if single::less(high, value) {
        high
    } else {
        value
    }
}

/// The most that the first of two columns can have of what they have together.
pub open spec fn most_of(pair: Value) -> Value {
    if single::less(single::difference(pair, least()), least()) {
        least()
    } else {
        single::difference(pair, least())
    }
}

/// The parts after the boundary between two columns moved by `step`: neither of
/// the two gets less than the least, and together they have what they had.
pub open spec fn moved(parts: Seq<Value>, boundary: int, step: Value) -> Seq<Value> {
    let pair = single::sum(parts[boundary - 1], parts[boundary]);
    let before = held(single::sum(parts[boundary - 1], step), least(), most_of(pair));
    parts.update(boundary - 1, before).update(boundary, single::difference(pair, before))
}

/// The widths after a drag. The boundaries are counted from one; the last is the
/// outer edge of the table.
pub open spec fn dragged(
    stated: Option<&Vec<u32>>,
    visible: Seq<u32>,
    reach: u32,
    line_box: u32,
    boundary: int,
    delta: i32,
) -> Seq<u32> {
    let parts = parts_of(stated, visible, reach, line_box);
    let step = of_line(delta as int, line_box);
    if boundary < visible.len() {
        dragged_between(
            all_rounded(moved(parts, boundary, step)),
            boundary,
            single::to_count(single::sum(parts[boundary - 1], parts[boundary])),
        )
    } else {
        dragged_edge(
            all_rounded(parts),
            single::to_count(single::sum(parts[visible.len() - 1], step)) as int,
        )
    }
}

pub open spec fn values(parts: Seq<Single>) -> Seq<Value> {
    parts.map_values(|part: Single| part@)
}

fn round_all(parts: &Vec<Single>) -> (out: Vec<u32>)
    requires
        forall|at: int| 0 <= at < parts@.len() ==> (#[trigger] parts@[at]).within(-200, 200),
    ensures
        out@ == all_rounded(values(parts@)),
{
    let mut out: Vec<u32> = Vec::new();
    let ghost all = all_rounded(values(parts@));
    let mut at: usize = 0;
    while at < parts.len()
        invariant
            at <= parts@.len(),
            forall|at: int|
                0 <= at < parts@.len() ==> (#[trigger] parts@[at]).within(-200, 200),
            all == all_rounded(values(parts@)),
            out@ == all.take(at as int),
        decreases parts@.len() - at,
    {
        assert(values(parts@)[at as int] == parts@[at as int]@);
        out.push(single::count_of(parts[at]));
        at += 1;
        assert(out@ =~= all.take(at as int));
    }
    assert(out@ =~= all);
    out
}

/// A length in hundredths of a line.
fn in_line(length: i64, line_box: u32) -> (out: Single)
    requires
        is_length(length as int),
        0 < line_box < single::FULL,
    ensures
        out@ == of_line(length as int, line_box),
        out.within(-47, 25),
        length >= 0 ==> out.digits >= 0,
        length > 0 ==> out.digits >= single::HALF && out.shift >= -41,
        length == 0 ==> out.digits == 0 && out.shift == 0,
{
    let line = single::of_whole(line_box as i64);
    let ratio = single::over(single::of_whole(length), line);
    let out = single::times(ratio, single::of_whole(100));
    proof {
        single::some_powers();
        if length > 0 {
            let d = ratio.digits as int;
            single::filled_product(d * 100, 6, 25);
        } else if length == 0 {
            single::filled_product(0, 0, 25);
        }
    }
    out
}

/// How long a table is seen, in hundredths of a line.
fn seen_of(reach: u32, line_box: u32) -> (out: Single)
    requires
        reach < single::FULL,
        0 < line_box < single::FULL,
    ensures
        out@ == reach_of(reach, line_box),
        is_reach(out),
{
    let full = single::of_whole(100);
    let out = in_line(reach as i64, line_box);
    if single::is_less(full, out) {
        full
    } else {
        proof {
            if reach > 0 {
                single::no_more_than_a_hundred(out@);
            }
        }
        out
    }
}

/// How a length of a table looks: nothing, a whole line, or something with a full word
/// of digits.
spec fn is_reach(value: Single) -> bool {
    ||| value.digits == 0 && value.shift == 0
    ||| value.digits == 100 && value.shift == 0
    ||| single::HALF <= value.digits <= single::FULL && -41 <= value.shift <= -17
}

fn first_parts(
    stated: Option<&Vec<u32>>,
    visible: &Vec<u32>,
    reach: u32,
    line_box: u32,
    total: u32,
) -> (out: Vec<Single>)
    requires
        total == cells::total(visible@),
        total < single::FULL,
        visible@.len() < single::FULL,
        reach < single::FULL,
        0 < line_box < single::FULL,
    ensures
        values(out@) == parts_of(stated, visible@, reach, line_box),
        forall|at: int|
            0 <= at < out@.len() ==> (#[trigger] out@[at]).within(-65, 0) && out@[at].digits >= 0,
{
    let ghost all = parts_of(stated, visible@, reach, line_box);
    let seen = seen_of(reach, line_box);
    let mut out: Vec<Single> = Vec::new();
    let mut at: usize = 0;
    let held: Option<&Vec<u32>> = match stated {
        Some(counts) => if counts.len() == visible.len() && sum(counts) <= FULL_WIDTH as u128 {
            Some(counts)
        } else {
            None
        },
        None => None,
    };
    proof {
        total_counts(visible@);
        if held is Some {
            total_counts(held->0@);
        }
    }
    assert(values(out@) =~= all.take(0));
    while at < visible.len()
        invariant
            at <= visible@.len() < single::FULL,
            total == cells::total(visible@),
            total < single::FULL,
            forall|k: int| 0 <= k < visible@.len() ==> #[trigger] visible@[k] <= total,
            held is Some ==> forall|k: int|
                0 <= k < held->0@.len() ==> #[trigger] held->0@[k] <= FULL_WIDTH,
            seen@ == reach_of(reach, line_box),
            is_reach(seen),
            held is Some == is_stated(stated, visible@.len() as int),
            held is Some ==> held == stated && held->0@.len() == visible@.len(),
            all == parts_of(stated, visible@, reach, line_box),
            values(out@) == all.take(at as int),
            out@.len() == at,
            forall|k: int|
                0 <= k < out@.len() ==> (#[trigger] out@[k]).within(-65, 0) && out@[k].digits
                    >= 0,
        decreases visible@.len() - at,
    {
        let ghost before = values(out@);
        let part: Single = match held {
            Some(counts) => single::of_whole(counts[at] as i64),
            None => if total > 0 {
                share_of(visible[at], total, seen)
            } else {
                even_of(seen, visible.len())
            },
        };
        out.push(part);
        assert(values(out@) =~= before.push(part@));
        at += 1;
        assert(values(out@) =~= all.take(at as int));
    }
    assert(values(out@) =~= all);
    out
}

/// A column's share of what is seen.
fn share_of(width: u32, total: u32, seen: Single) -> (out: Single)
    requires
        0 < total < single::FULL,
        width <= total,
        is_reach(seen),
    ensures
        out@ == single::product(
            single::quotient(single::whole(width as int), single::whole(total as int)),
            seen@,
        ),
        out.within(-65, 0),
        out.digits >= 0,
{
    let one = single::of_whole(width as i64);
    let all = single::of_whole(total as i64);
    let ratio = single::over(one, all);
    proof {
        single::some_powers();
        if width > 0 {
            let p = single::two_to(23);
            assert(width * p <= single::HALF * total) by (nonlinear_arith)
                requires
                    p == single::HALF,
                    width <= total,
            ;
            single::finer_doubles(width as int, total as int, 23);
            assert(-47 <= ratio.shift <= -23);
            let a = ratio.digits as int;
            let b = seen.digits as int;
            if b >= single::HALF {
                assert(single::HALF * single::HALF <= a * b <= single::FULL * single::FULL)
                    by (nonlinear_arith)
                    requires
                        single::HALF <= a <= single::FULL,
                        single::HALF <= b <= single::FULL,
                ;
                single::filled_product(a * b, 23, 25);
            } else if b == 100 {
                assert(a * b == a * 100);
                single::filled_product(a * 100, 6, 8);
            } else {
                assert(a * b == 0) by (nonlinear_arith)
                    requires
                        b == 0,
                ;
                single::filled_product(0, 0, 25);
            }
        } else {
            assert(ratio.digits * seen.digits == 0) by (nonlinear_arith)
                requires
                    ratio.digits == 0,
            ;
            single::filled_product(0, 0, 25);
        }
    }
    single::times(ratio, seen)
}

/// An even share of what is seen.
fn even_of(seen: Single, columns: usize) -> (out: Single)
    requires
        0 < columns < single::FULL,
        is_reach(seen),
    ensures
        out@ == single::quotient(seen@, single::whole(columns as int)),
        out.within(-65, 0),
        out.digits >= 0,
{
    let count = single::of_whole(columns as i64);
    proof {
        if seen.digits >= single::HALF {
            single::some_powers();
            single::finer_fits(seen.digits as int, columns as int, 24);
        }
    }
    single::over(seen, count)
}

/// A width held within bounds.
fn hold(value: Single, low: Single, high: Single) -> (out: Single)
    requires
        value.within(-65, 27),
        low.within(0, 8),
        high.within(-65, 10),
    ensures
        out@ == held(value@, low@, high@),
        out.within(-65, 27),
{
    if single::is_less(value, low) {
        low
    } else if single::is_less(high, value) {
        high
    } else {
        value
    }
}

/// What two columns have together, and what each of them has once the boundary
/// between them moved.
fn move_pair(one: Single, two: Single, step: Single) -> (out: (Single, Single, Single))
    requires
        one.within(-65, 0),
        two.within(-65, 0),
        step.within(-47, 25),
    ensures
        out.0@ == single::sum(one@, two@),
        out.1@ == held(single::sum(one@, step@), least(), most_of(out.0@)),
        out.2@ == single::difference(out.0@, out.1@),
        out.0.within(-65, 2) && out.1.within(-65, 27) && out.2.within(-65, 29),
{
    let pair = single::plus(one, two);
    let low = single::of_whole(3);
    let rest = single::minus(pair, low);
    let most = if single::is_less(rest, low) {
        low
    } else {
        rest
    };
    let before = hold(single::plus(one, step), low, most);
    (pair, before, single::minus(pair, before))
}

/// The widths after a boundary of a table was dragged, in hundredths of a line.
/// `stated` is what the rule states, `visible` how wide the columns are seen,
/// `reach` how long the table is, `line_box` a line, and `delta` how far the
/// boundary moved, all in whole numbers of one unit that single precision holds. There
/// is nothing to drag in a table of one column, or where a line has no length.
pub fn dragged_widths(
    stated: Option<&Vec<u32>>,
    visible: &Vec<u32>,
    reach: u32,
    line_box: u32,
    boundary: usize,
    delta: i32,
) -> (out: Option<Vec<u32>>)
    requires
        is_length(cells::total(visible@)),
        is_length(visible@.len() as int),
        is_length(reach as int),
        is_length(line_box as int),
        is_length(delta as int),
    ensures
        match out {
            Some(counts) => 2 <= visible@.len() && 0 < boundary <= visible@.len() && line_box > 0
                && counts@ == dragged(
                stated,
                visible@,
                reach,
                line_box,
                boundary as int,
                delta,
            ),
            None => !(2 <= visible@.len() && 0 < boundary <= visible@.len() && line_box > 0),
        },
{
    let columns: usize = visible.len();
    if columns < 2 || boundary == 0 || boundary > columns || line_box == 0 {
        return None;
    }
    proof {
        total_counts(visible@);
    }
    let total: u32 = sum(visible) as u32;
    let mut parts = first_parts(stated, visible, reach, line_box, total);
    let ghost first = values(parts@);
    assert(forall|at: int| 0 <= at < parts@.len() ==> first[at] == (#[trigger] parts@[at])@);
    assert(first.len() == columns);
    let step = in_line(delta as i64, line_box);
    if boundary < columns {
        let (pair, before, behind) = move_pair(parts[boundary - 1], parts[boundary], step);
        parts.set(boundary - 1, before);
        parts.set(boundary, behind);
        assert(values(parts@) =~= moved(first, boundary as int, step@));
        let counts = round_all(&parts);
        let both: u32 = single::count_of(pair);
        Some(drag_between(&counts, boundary, both))
    } else {
        let counts = round_all(&parts);
        let last: u32 = single::count_of(single::plus(parts[columns - 1], step));
        Some(drag_edge(&counts, last as u128))
    }
}

} // verus!
