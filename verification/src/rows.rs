//! A set of row numbers.
use std::collections::BTreeSet;
use vstd::prelude::*;

verus! {

broadcast use vstd::std_specs::btree::group_btree_axioms;

/// The rows of `set`, moved up by `by`; rows above `by` fall out.
pub open spec fn lifted(set: Set<usize>, by: int) -> Set<usize> {
    Set::new(|row: usize| row + by <= usize::MAX && set.contains((row + by) as usize))
}

/// The rows of `set` where those of `top..=bottom` have moved up by `by`.
pub open spec fn scrolled(set: Set<usize>, top: usize, bottom: usize, by: usize) -> Set<usize> {
    Set::new(
        |row: usize|
            if row < top || row > bottom {
                set.contains(row)
            } else {
                row + by <= bottom && set.contains((row + by) as usize)
            },
    )
}

/// An empty set of rows.
pub fn no_rows() -> (out: BTreeSet<usize>)
    ensures
        out@ == Set::<usize>::empty(),
{
    BTreeSet::new()
}

/// Whether a row is in the set.
pub fn has_row(set: &BTreeSet<usize>, row: usize) -> (found: bool)
    ensures
        found == set@.contains(row),
{
    set.contains(&row)
}

/// Puts a row into the set.
pub fn add_row(set: &mut BTreeSet<usize>, row: usize)
    ensures
        final(set)@ == old(set)@.insert(row),
{
    let _ = set.insert(row);
}

/// Takes a row out of the set.
pub fn drop_row(set: &mut BTreeSet<usize>, row: usize)
    ensures
        final(set)@ == old(set)@.remove(row),
{
    let _ = set.remove(&row);
}

/// One more element of the list is one more member of the set.
proof fn one_more(all: Seq<usize>, at: int)
    requires
        0 <= at < all.len(),
    ensures
        all.take(at + 1).to_set() == all.take(at).to_set().insert(all[at]),
{
    let before = all.take(at);
    let next = all.take(at + 1);
    assert forall|one: usize| next.to_set().contains(one) implies before.to_set().insert(
        all[at],
    ).contains(one) by {
        let k = choose|k: int| 0 <= k < next.len() && next[k] == one;
        if k < at {
            assert(before[k] == one);
        }
    }
    assert forall|one: usize| before.to_set().insert(all[at]).contains(one) implies next.to_set().contains(
        one,
    ) by {
        if one == all[at] {
            assert(next[at] == one);
        } else {
            let k = choose|k: int| 0 <= k < before.len() && before[k] == one;
            assert(next[k] == one);
        }
    }
    assert(next.to_set() =~= before.to_set().insert(all[at]));
}

/// Moves the rows of `top..=bottom` up by `by`.
pub fn scroll_rows(set: &BTreeSet<usize>, top: usize, bottom: usize, by: usize) -> (out: BTreeSet<
    usize,
>)
    requires
        top <= bottom,
        by <= bottom - top + 1,
    ensures
        out@ == scrolled(set@, top, bottom, by),
{
    let mut out: BTreeSet<usize> = BTreeSet::new();
    assert(out@ =~= scrolled(Set::empty(), top, bottom, by));
    let ghost mut seen: Seq<usize> = Seq::empty();
    assert(seen.to_set() =~= Set::empty());
    for row in rest: set.iter()
        invariant
            top <= bottom,
            by <= bottom - top + 1,
            rest.seq().unref().to_set() == set@,
            seen == rest.seq().unref().take(rest.index()),
            rest.index() == rest.seq().len() ==> seen.to_set() == set@,
            out@ == scrolled(seen.to_set(), top, bottom, by),
    {
        proof {
            one_more(rest.seq().unref(), rest.index());
            assert(rest.seq().unref().take(rest.index() + 1) =~= seen.push(*row));
            seen = seen.push(*row);
            assert(rest.index() + 1 == rest.seq().len() ==> seen =~= rest.seq().unref());
        }
        if *row < top || *row > bottom {
            add_row(&mut out, *row);
        } else if *row - top >= by {
            add_row(&mut out, *row - by);
        }
        assert(out@ =~= scrolled(seen.to_set(), top, bottom, by));
    }
    assert(seen.to_set() =~= set@);
    assert(out@ =~= scrolled(set@, top, bottom, by));
    out
}

/// Moves every row up by `by`.
pub fn lift_rows(set: &BTreeSet<usize>, by: usize) -> (out: BTreeSet<usize>)
    ensures
        out@ == lifted(set@, by as int),
{
    let mut out: BTreeSet<usize> = BTreeSet::new();
    assert(out@ =~= lifted(Set::empty(), by as int));
    let ghost mut seen: Seq<usize> = Seq::empty();
    assert(seen.to_set() =~= Set::empty());
    for row in rest: set.iter()
        invariant
            rest.seq().unref().to_set() == set@,
            seen == rest.seq().unref().take(rest.index()),
            rest.index() == rest.seq().len() ==> seen.to_set() == set@,
            out@ == lifted(seen.to_set(), by as int),
    {
        proof {
            one_more(rest.seq().unref(), rest.index());
            assert(rest.seq().unref().take(rest.index() + 1) =~= seen.push(*row));
            seen = seen.push(*row);
            assert(rest.index() + 1 == rest.seq().len() ==> seen =~= rest.seq().unref());
        }
        if *row >= by {
            add_row(&mut out, *row - by);
        }
        assert(out@ =~= lifted(seen.to_set(), by as int));
    }
    assert(seen.to_set() =~= set@);
    assert(out@ =~= lifted(set@, by as int));
    out
}

} // verus!
