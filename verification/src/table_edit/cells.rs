//! The cells of a table line, and the rule line below the header.
use crate::text::{self, trim_range};
use vstd::prelude::*;

verus! {

/// The bars among the first `count` characters, and whether the next character
/// is escaped. A bar behind a backslash is text.
pub open spec fn scan(line: Seq<char>, count: int) -> (Seq<int>, bool)
    decreases count,
{
    if count <= 0 {
        (Seq::empty(), false)
    } else {
        let (found, escaped) = scan(line, count - 1);
        if escaped {
            (found, false)
        } else if line[count - 1] == '\\' {
            (found, true)
        } else if line[count - 1] == '|' {
            (found.push(count - 1), false)
        } else {
            (found, false)
        }
    }
}

/// The bars of a line.
pub open spec fn bars(line: Seq<char>) -> Seq<int> {
    scan(line, line.len() as int).0
}

/// A cell: from behind its bar to the next bar, or to the end of the line. The
/// bar that closes a line leaves an empty cell behind it.
pub open spec fn cell(line: Seq<char>, index: int) -> (int, int) {
    (
        bars(line)[index] + 1,
        if index + 1 < bars(line).len() {
            bars(line)[index + 1]
        } else {
            line.len() as int
        },
    )
}

pub proof fn scan_rises(line: Seq<char>, count: int)
    requires
        0 <= count <= line.len(),
    ensures
        forall|i: int|
            0 <= i < scan(line, count).0.len() ==> 0 <= #[trigger] scan(line, count).0[i] < count,
        forall|i: int, j: int|
            0 <= i < j < scan(line, count).0.len() ==> #[trigger] scan(line, count).0[i]
                < #[trigger] scan(line, count).0[j],
    decreases count,
{
    if count > 0 {
        scan_rises(line, count - 1);
        let before = scan(line, count - 1).0;
        let now = scan(line, count).0;
        assert(now == before || now == before.push(count - 1));
        assert forall|i: int| 0 <= i < now.len() implies 0 <= #[trigger] now[i] < count by {
            if i < before.len() {
                assert(now[i] == before[i]);
            }
        }
        assert forall|i: int, j: int| 0 <= i < j < now.len() implies #[trigger] now[i]
            < #[trigger] now[j] by {
            assert(now[i] == before[i]);
            if j < before.len() {
                assert(now[j] == before[j]);
            }
        }
    }
}

/// Cells lie within the line, one behind the other.
pub proof fn cells_lie_within(line: Seq<char>)
    ensures
        forall|i: int|
            0 <= i < bars(line).len() ==> 0 <= (#[trigger] bars(line)[i]) < line.len(),
        forall|i: int, j: int|
            0 <= i < j < bars(line).len() ==> #[trigger] bars(line)[i] < #[trigger] bars(line)[j],
        forall|i: int|
            0 <= i < bars(line).len() ==> 0 < (#[trigger] cell(line, i)).0 <= cell(line, i).1
                <= line.len(),
{
    scan_rises(line, line.len() as int);
    assert forall|i: int| 0 <= i < bars(line).len() implies 0 < (#[trigger] cell(line, i)).0 <= cell(
        line,
        i,
    ).1 <= line.len() by {
        if i + 1 < bars(line).len() {
            assert(bars(line)[i] < bars(line)[i + 1]);
        }
    }
}

/// The bars of a line.
pub(crate) fn bars_of(line: &Vec<char>) -> (out: Vec<usize>)
    ensures
        out@.len() == bars(line@).len(),
        forall|i: int| 0 <= i < out@.len() ==> #[trigger] out@[i] as int == bars(line@)[i],
        forall|i: int| 0 <= i < out@.len() ==> #[trigger] out@[i] < line@.len(),
        forall|i: int, j: int|
            0 <= i < j < out@.len() ==> #[trigger] out@[i] < #[trigger] out@[j],
{
    let mut out: Vec<usize> = Vec::new();
    let mut escaped = false;
    let mut at: usize = 0;
    while at < line.len()
        invariant
            at <= line@.len(),
            out@.len() == scan(line@, at as int).0.len(),
            forall|i: int|
                0 <= i < out@.len() ==> #[trigger] out@[i] as int == scan(line@, at as int).0[i],
            escaped == scan(line@, at as int).1,
        decreases line@.len() - at,
    {
        if escaped {
            escaped = false;
        } else if line[at] == '\\' {
            escaped = true;
        } else if line[at] == '|' {
            out.push(at);
        }
        at += 1;
    }
    proof {
        scan_rises(line@, line@.len() as int);
        let found = bars(line@);
        assert forall|i: int, j: int| 0 <= i < j < out@.len() implies #[trigger] out@[i]
            < #[trigger] out@[j] by {
            assert(found[i] < found[j]);
        }
    }
    out
}

/// One column of the rule line: the colons at its ends, and the dashes.
#[derive(Clone, Copy, PartialEq, Eq, Structural, Debug)]
pub struct RuleCell {
    pub left: bool,
    pub right: bool,
    pub dashes: u32,
}

/// The range without the colons at its beginning.
pub open spec fn skip_colons(line: Seq<char>, from: int, to: int) -> int
    decreases to - from,
{
    if from >= to || line[from] != ':' {
        from
    } else {
        skip_colons(line, from + 1, to)
    }
}

/// The range without the colons at its end.
pub open spec fn back_colons(line: Seq<char>, from: int, to: int) -> int
    decreases to - from,
{
    if from >= to || line[to - 1] != ':' {
        to
    } else {
        back_colons(line, from, to - 1)
    }
}

/// What a rule cell says: dashes, with colons at either end.
pub open spec fn rule_cell(line: Seq<char>, from: int, to: int) -> Option<RuleCell> {
    let first = skip_colons(line, from, to);
    let last = back_colons(line, first, to);
    if first < last && (forall|at: int| first <= at < last ==> #[trigger] line[at] == '-') {
        Some(
            RuleCell {
                left: line[from] == ':',
                right: line[to - 1] == ':',
                dashes: (last - first) as u32,
            },
        )
    } else {
        None
    }
}

/// Where the text of a cell begins and ends.
pub open spec fn cell_text(line: Seq<char>, index: int) -> (int, int) {
    text::trimmed(line, cell(line, index).0, cell(line, index).1)
}

/// The first `count` cells, where each is one of a rule line.
pub open spec fn rule_prefix(line: Seq<char>, count: int) -> Option<Seq<RuleCell>>
    decreases count,
{
    if count <= 0 {
        Some(Seq::empty())
    } else {
        let (from, to) = cell_text(line, count - 1);
        match (rule_prefix(line, count - 1), rule_cell(line, from, to)) {
            (Some(before), Some(one)) => Some(before.push(one)),
            _ => None,
        }
    }
}

/// How many columns a line has: the empty cell that a closing bar leaves is no
/// column.
pub open spec fn columns_of(line: Seq<char>) -> int {
    let count = bars(line).len() as int;
    let (from, to) = cell_text(line, count - 1);
    if from >= to {
        count - 1
    } else {
        count
    }
}

/// The columns of a rule line, where the line is one.
pub open spec fn rule_of(line: Seq<char>) -> Option<Seq<RuleCell>> {
    if line.len() == 0 || line[0] != '|' || bars(line).len() < 2 {
        None
    } else {
        rule_prefix(line, columns_of(line))
    }
}

fn read_rule_cell(line: &Vec<char>, from: usize, to: usize) -> (out: Option<RuleCell>)
    requires
        from <= to <= line@.len(),
    ensures
        out == rule_cell(line@, from as int, to as int),
{
    let mut first: usize = from;
    while first < to && line[first] == ':'
        invariant
            from <= first <= to <= line@.len(),
            skip_colons(line@, from as int, to as int) == skip_colons(
                line@,
                first as int,
                to as int,
            ),
        decreases to - first,
    {
        first += 1;
    }
    let mut last: usize = to;
    while last > first && line[last - 1] == ':'
        invariant
            first <= last <= to <= line@.len(),
            back_colons(line@, first as int, to as int) == back_colons(
                line@,
                first as int,
                last as int,
            ),
        decreases last,
    {
        last -= 1;
    }
    if first >= last {
        return None;
    }
    let mut at: usize = first;
    while at < last
        invariant
            first <= at <= last <= line@.len(),
            first == skip_colons(line@, from as int, to as int),
            last == back_colons(line@, first as int, to as int),
            forall|k: int| first <= k < at ==> #[trigger] line@[k] == '-',
        decreases last - at,
    {
        if line[at] != '-' {
            return None;
        }
        at += 1;
    }
    Some(
        RuleCell {
            left: line[from] == ':',
            right: line[to - 1] == ':',
            dashes: (last - first) as u32,
        },
    )
}

/// Where the text of a cell begins and ends.
fn read_cell_text(line: &Vec<char>, bar: &Vec<usize>, index: usize) -> (out: (usize, usize))
    requires
        bar@.len() == bars(line@).len(),
        forall|i: int| 0 <= i < bar@.len() ==> #[trigger] bar@[i] as int == bars(line@)[i],
        index < bar@.len(),
    ensures
        (out.0 as int, out.1 as int) == cell_text(line@, index as int),
        out.0 <= out.1 <= line@.len(),
{
    proof {
        cells_lie_within(line@);
        assert(0 < cell(line@, index as int).0 <= cell(line@, index as int).1);
    }
    let end: usize = if bar.len() - index > 1 {
        bar[index + 1]
    } else {
        line.len()
    };
    trim_range(line, bar[index] + 1, end)
}

/// The columns of a rule line, where the line is one.
pub(crate) fn rule_cells(line: &Vec<char>) -> (out: Option<Vec<RuleCell>>)
    ensures
        match out {
            Some(cells) => rule_of(line@) == Some(cells@),
            None => rule_of(line@) is None,
        },
{
    if line.len() == 0 || line[0] != '|' {
        return None;
    }
    let bar = bars_of(line);
    if bar.len() < 2 {
        return None;
    }
    let (from, to) = read_cell_text(line, &bar, bar.len() - 1);
    let columns: usize = if from >= to {
        bar.len() - 1
    } else {
        bar.len()
    };
    let mut found: Vec<RuleCell> = Vec::new();
    let mut index: usize = 0;
    assert(found@ =~= Seq::empty());
    while index < columns
        invariant
            index <= columns <= bar@.len(),
            columns == columns_of(line@),
            bar@.len() == bars(line@).len(),
            forall|i: int| 0 <= i < bar@.len() ==> #[trigger] bar@[i] as int == bars(line@)[i],
            rule_prefix(line@, index as int) == Some(found@),
        decreases columns - index,
    {
        let (from, to) = read_cell_text(line, &bar, index);
        match read_rule_cell(line, from, to) {
            Some(one) => {
                found.push(one);
            },
            None => {
                proof {
                    no_rule_within(line@, index + 1, columns as int);
                }
                return None;
            },
        }
        index += 1;
    }
    Some(found)
}

/// A line of which a part is no rule is none.
proof fn no_rule_within(line: Seq<char>, count: int, more: int)
    requires
        count <= more,
        rule_prefix(line, count) is None,
    ensures
        rule_prefix(line, more) is None,
    decreases more - count,
{
    if count < more {
        no_rule_within(line, count, more - 1);
    }
}

/// There are fewer bars than characters, or as many.
pub proof fn bars_are_few(line: Seq<char>)
    ensures
        bars(line).len() <= line.len(),
{
    scan_is_short(line, line.len() as int);
}

proof fn scan_is_short(line: Seq<char>, count: int)
    requires
        0 <= count,
    ensures
        scan(line, count).0.len() <= count,
    decreases count,
{
    if count > 0 {
        scan_is_short(line, count - 1);
    }
}

/// The number of dashes of each column.
pub open spec fn dashes_of(cells: Seq<RuleCell>) -> Seq<u32> {
    cells.map_values(|one: RuleCell| one.dashes)
}

/// All of these numbers together.
pub open spec fn total(counts: Seq<u32>) -> int
    decreases counts.len(),
{
    if counts.len() == 0 {
        0
    } else {
        total(counts.drop_last()) + counts.last()
    }
}

/// There are no more dashes than characters.
pub proof fn dashes_fit(line: Seq<char>, count: int)
    requires
        line.len() <= u32::MAX,
        0 <= count <= bars(line).len(),
        rule_prefix(line, count) is Some,
    ensures
        0 <= total(dashes_of(rule_prefix(line, count)->Some_0)) <= if count == 0 {
            0
        } else {
            cell(line, count - 1).1
        },
        rule_prefix(line, count)->Some_0.len() == count,
    decreases count,
{
    cells_lie_within(line);
    if count > 0 {
        dashes_fit(line, count - 1);
        let before = rule_prefix(line, count - 1)->Some_0;
        let after = rule_prefix(line, count)->Some_0;
        assert(dashes_of(after).drop_last() =~= dashes_of(before));
        let (from, to) = cell_text(line, count - 1);
        let here = cell(line, count - 1);
        trims_within(line, here.0, here.1);
        colons_within(line, from, to);
        if count > 1 {
            assert(cell(line, count - 2).1 == bars(line)[count - 1]);
        }
    } else {
        assert(dashes_of(rule_prefix(line, 0)->Some_0) =~= Seq::empty());
    }
}

pub(crate) proof fn trims_within(line: Seq<char>, from: int, to: int)
    requires
        0 <= from <= to <= line.len(),
    ensures
        from <= text::trimmed(line, from, to).0 <= text::trimmed(line, from, to).1 <= to,
{
    skips_within(line, from, to);
    backs_within(line, text::skip_space(line, from, to), to);
}

pub proof fn skips_within(line: Seq<char>, from: int, to: int)
    requires
        from <= to,
    ensures
        from <= text::skip_space(line, from, to) <= to,
    decreases to - from,
{
    if from < to && text::is_space(line[from]) {
        skips_within(line, from + 1, to);
    }
}

proof fn backs_within(line: Seq<char>, from: int, to: int)
    requires
        from <= to,
    ensures
        from <= text::back_space(line, from, to) <= to,
    decreases to - from,
{
    if from < to && text::is_space(line[to - 1]) {
        backs_within(line, from, to - 1);
    }
}

pub(crate) proof fn colons_within(line: Seq<char>, from: int, to: int)
    requires
        from <= to,
    ensures
        from <= skip_colons(line, from, to) <= to,
        skip_colons(line, from, to) <= back_colons(line, skip_colons(line, from, to), to) <= to,
{
    skip_colons_within(line, from, to);
    back_colons_within(line, skip_colons(line, from, to), to);
}

proof fn skip_colons_within(line: Seq<char>, from: int, to: int)
    requires
        from <= to,
    ensures
        from <= skip_colons(line, from, to) <= to,
    decreases to - from,
{
    if from < to && line[from] == ':' {
        skip_colons_within(line, from + 1, to);
    }
}

proof fn back_colons_within(line: Seq<char>, from: int, to: int)
    requires
        from <= to,
    ensures
        from <= back_colons(line, from, to) <= to,
    decreases to - from,
{
    if from < to && line[to - 1] == ':' {
        back_colons_within(line, from, to - 1);
    }
}

} // verus!
