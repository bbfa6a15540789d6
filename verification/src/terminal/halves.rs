//! Full-width characters keep both of their halves, or lose both.
use crate::terminal::cell::{self, Attrs, Cell};
use crate::terminal::model;
use vstd::prelude::*;

verus! {

/// No character lies across the edge before `at`.
pub open spec fn is_edge(cells: Seq<Cell>, at: int) -> bool {
    0 <= at < cells.len() ==> !cells[at].trailing
}

/// A cleared row holds no half of a character.
pub proof fn blanks_are_paired()
    ensures
        forall|columns: int, attrs: Attrs|
            model::paired((#[trigger] cell::blank_line(columns, attrs)).cells),
{
    reveal(model::paired);
}

/// Clearing both halves at an edge leaves no half, and no character across it.
pub proof fn parting_leaves_no_half(cells: Seq<Cell>, at: int, attrs: Attrs)
    requires
        model::paired(cells),
    ensures
        model::paired(model::parted(cells, at, attrs)),
        is_edge(model::parted(cells, at, attrs), at),
        forall|other: int|
            is_edge(cells, other) ==> #[trigger] is_edge(
                model::parted(cells, at, attrs),
                other,
            ),
{
    reveal(model::paired);
    let out = model::parted(cells, at, attrs);
    if 0 < at < cells.len() && cells[at].trailing {
        assert forall|k: int|
            #![trigger out[k]]
            0 <= k < out.len() && out[k].trailing implies k > 0 && !out[k - 1].trailing
            && cell::width_of(out[k - 1].text) == 2 by {
            let was = cells[k];
            let before = cells[k - 1];
        }
        assert forall|k: int|
            #![trigger out[k]]
            0 <= k < out.len() && !out[k].trailing && cell::width_of(out[k].text) == 2 implies k + 1
            < out.len() && out[k + 1].trailing by {
            let was = cells[k];
            let next = cells[k + 1];
        }
    }
}

/// Writing over half of a full-width character takes the other half with it.
pub proof fn writing_is_paired(cells: Seq<Cell>, column: int, text: char, pen: Attrs)
    requires
        model::paired(cells),
        cell::width_of(text) >= 1,
        0 <= column,
        column + cell::width_of(text) <= cells.len(),
    ensures
        model::paired(model::written(cells, column, text, pen)),
{
    reveal(model::paired);
    let out = model::written(cells, column, text, pen);
    assert forall|at: int| #![trigger out[at]] 0 <= at < out.len() && out[at].trailing implies at
        > 0 && !out[at - 1].trailing && cell::width_of(out[at - 1].text) == 2 by {
        let was = cells[at];
        if at > 0 {
            let before = cells[at - 1];
        }
    }
    assert forall|at: int|
        #![trigger out[at]]
        0 <= at < out.len() && !out[at].trailing && cell::width_of(out[at].text) == 2 implies at + 1
        < out.len() && out[at + 1].trailing by {
        let was = cells[at];
        if at + 1 < cells.len() {
            let next = cells[at + 1];
        }
    }
}

/// Clearing cells clears whole characters.
pub proof fn clearing_is_paired(cells: Seq<Cell>, from: int, to: int, attrs: Attrs)
    requires
        model::paired(cells),
        0 <= from <= to <= cells.len(),
    ensures
        model::paired(model::cleared(cells, from, to, attrs)),
{
    let one = model::parted(cells, from, attrs);
    let two = model::parted(one, to, attrs);
    parting_leaves_no_half(cells, from, attrs);
    parting_leaves_no_half(one, to, attrs);
    assert(is_edge(two, from) && is_edge(two, to));
    reveal(model::paired);
    let out = model::blanked(two, from, to, attrs);
    assert forall|k: int| #![trigger out[k]] 0 <= k < out.len() && out[k].trailing implies k > 0
        && !out[k - 1].trailing && cell::width_of(out[k - 1].text) == 2 by {
        let was = two[k];
        let before = two[k - 1];
    }
    assert forall|k: int|
        #![trigger out[k]]
        0 <= k < out.len() && !out[k].trailing && cell::width_of(out[k].text) == 2 implies k + 1
        < out.len() && out[k + 1].trailing by {
        let was = two[k];
        let next = two[k + 1];
    }
}

proof fn pushing_is_paired(cells: Seq<Cell>, column: int, count: int, attrs: Attrs)
    requires
        model::paired(cells),
        0 <= column,
        0 <= count <= cells.len() - column,
        is_edge(cells, column),
        is_edge(cells, cells.len() - count),
    ensures
        model::paired(model::pushed(cells, column, count, attrs)),
{
    reveal(model::paired);
    let out = model::pushed(cells, column, count, attrs);
    assert(out.len() == cells.len());
    assert forall|k: int| 0 <= k < out.len() implies #[trigger] out[k] == if k < column {
        cells[k]
    } else if k < column + count {
        cell::blank_cell(attrs)
    } else {
        cells[k - count]
    } by {}
    assert forall|k: int| #![trigger out[k]] 0 <= k < out.len() && out[k].trailing implies k > 0
        && !out[k - 1].trailing && cell::width_of(out[k - 1].text) == 2 by {
        if k < column {
            assert(cells[k].trailing);
            assert(out[k - 1] == cells[k - 1]);
        } else {
            assert(cells[k - count].trailing);
            assert(out[k - 1] == cells[k - 1 - count]);
        }
    }
    assert forall|k: int|
        #![trigger out[k]]
        0 <= k < out.len() && !out[k].trailing && cell::width_of(out[k].text) == 2 implies k + 1
        < out.len() && out[k + 1].trailing by {
        if k < column {
            assert(!cells[k].trailing);
            assert(cells[k + 1].trailing);
            assert(out[k + 1] == cells[k + 1]);
        } else {
            assert(!cells[k - count].trailing);
            assert(cells[k - count + 1].trailing);
            assert(out[k + 1] == cells[k + 1 - count]);
        }
    }
}

/// Opening cells moves whole characters.
pub proof fn opening_is_paired(cells: Seq<Cell>, column: int, count: int, attrs: Attrs)
    requires
        model::paired(cells),
        0 <= column,
        0 <= count <= cells.len() - column,
    ensures
        model::paired(model::opened(cells, column, count, attrs)),
{
    let one = model::parted(cells, column, attrs);
    let edge = cells.len() - count;
    let two = model::parted(one, edge, attrs);
    parting_leaves_no_half(cells, column, attrs);
    parting_leaves_no_half(one, edge, attrs);
    assert(is_edge(two, column) && is_edge(two, edge));
    pushing_is_paired(two, column, count, attrs);
}

/// Taking cells out takes out whole characters.
pub proof fn closing_is_paired(cells: Seq<Cell>, column: int, count: int, attrs: Attrs)
    requires
        model::paired(cells),
        0 <= column,
        0 <= count <= cells.len() - column,
    ensures
        model::paired(model::closed_up(cells, column, count, attrs)),
{
    let one = model::parted(cells, column, attrs);
    let edge = column + count;
    let two = model::parted(one, edge, attrs);
    parting_leaves_no_half(cells, column, attrs);
    parting_leaves_no_half(one, edge, attrs);
    assert(is_edge(two, column) && is_edge(two, edge));
    reveal(model::paired);
    let out = model::pulled(two, column, count, attrs);
    assert forall|k: int| #![trigger out[k]] 0 <= k < out.len() && out[k].trailing implies k > 0
        && !out[k - 1].trailing && cell::width_of(out[k - 1].text) == 2 by {
        if k < column {
            let was = two[k];
            let before = two[k - 1];
        } else if k + count < two.len() {
            let was = two[k + count];
            let before = two[k + count - 1];
        }
    }
    assert forall|k: int|
        #![trigger out[k]]
        0 <= k < out.len() && !out[k].trailing && cell::width_of(out[k].text) == 2 implies k + 1
        < out.len() && out[k + 1].trailing by {
        if k < column {
            let was = two[k];
            let next = two[k + 1];
        } else if k + count < two.len() {
            let was = two[k + count];
            let next = two[k + count + 1];
        }
    }
}

/// A row of another width holds whole characters.
pub proof fn refitting_is_paired(cells: Seq<Cell>, columns: int)
    requires
        model::paired(cells),
        0 <= columns,
    ensures
        model::paired(
            model::widened(model::parted(cells, columns, cell::plain()), columns),
        ),
{
    let one = model::parted(cells, columns, cell::plain());
    parting_leaves_no_half(cells, columns, cell::plain());
    reveal(model::paired);
    let out = model::widened(one, columns);
    assert forall|k: int| #![trigger out[k]] 0 <= k < out.len() && out[k].trailing implies k > 0
        && !out[k - 1].trailing && cell::width_of(out[k - 1].text) == 2 by {
        let was = one[k];
        let before = one[k - 1];
    }
    assert forall|k: int|
        #![trigger out[k]]
        0 <= k < out.len() && !out[k].trailing && cell::width_of(out[k].text) == 2 implies k + 1
        < out.len() && out[k + 1].trailing by {
        let was = one[k];
        let next = one[k + 1];
    }
}

} // verus!
