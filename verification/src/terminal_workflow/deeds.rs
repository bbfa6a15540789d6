//! What the writer's orders to a terminal come to.
use crate::terminal_panels::steps::Shells;
use crate::terminal_panels::tab::{PaneTabModel, PanelModel, StripModel};
use crate::terminal_workflow::leaving;
use crate::terminal_workflow::search::{
    self, MouseAction, MouseButton, Place, PointerStep, TerminalStep, TerminalView,
};
use vstd::prelude::*;

verus! {

/// Going on leads through the places in order and from the last to the first, going back
/// the other way round; without a place to begin from, to the first or the last.
pub proof fn a_search_steps_in_order(at: int, count: int)
    requires
        0 <= at < count,
    ensures
        at + 1 < count ==> search::stepped(Some(at), count, false) == at + 1,
        at + 1 == count ==> search::stepped(Some(at), count, false) == 0,
        at > 0 ==> search::stepped(Some(at), count, true) == at - 1,
        at == 0 ==> search::stepped(Some(at), count, true) == count - 1,
        search::stepped(None, count, false) == 0,
        search::stepped(None, count, true) == count - 1,
{
    assert((at + 1) % count == if at + 1 == count {
        0
    } else {
        at + 1
    }) by (nonlinear_arith)
        requires
            0 <= at < count,
    ;
    assert((at + count - 1) % count == if at == 0 {
        count - 1
    } else {
        at - 1
    }) by (nonlinear_arith)
        requires
            0 <= at < count,
    ;
}

/// A place that was found is selected, and its row is at the top of the pane where it is
/// in the history; a row of the screen needs no going back.
pub proof fn a_place_is_turned_to(found: (Place, Place), history: int)
    requires
        0 <= history <= usize::MAX,
    ensures
        search::turned_to(found, history).selection == Some(found),
        found.0.0 <= history ==> search::turned_to(found, history).looking == history - found.0.0,
        found.0.0 > history ==> search::turned_to(found, history).looking == 0,
{
}

/// What is selected has the place at which it first stands among what was found, and none
/// where it does not.
pub proof fn what_is_selected_has_its_place(
    found: Seq<(Place, Place)>,
    selected: (Place, Place),
    from: int,
)
    requires
        0 <= from <= found.len(),
    ensures
        match search::place_among(found, selected, from) {
            Some(at) => from <= at < found.len() && found[at] == selected && forall|i: int|
                from <= i < at ==> #[trigger] found[i] != selected,
            None => forall|i: int| from <= i < found.len() ==> #[trigger] found[i] != selected,
        },
    decreases found.len() - from,
{
    if from < found.len() && found[from] != selected {
        what_is_selected_has_its_place(found, selected, from + 1);
    }
}

/// Order 0 shows the search, or hides it where it is shown there; 1 finds onward and 2
/// back; 3 hides the search, 4 returns to the present, 5 clears the screen, 6 the
/// history, 7 saves the log, 8 pages up and 9 down. No other order does anything.
pub proof fn orders_have_their_numbers(order: i32, open: bool, same_spot: bool)
    ensures
        ({
            let step = search::step_for(order, open, same_spot);
            &&& step == TerminalStep::OpenSearch <==> order == 0 && !(open && same_spot)
            &&& step == TerminalStep::CloseSearch <==> order == 3 || (order == 0 && open
                && same_spot)
            &&& step == (TerminalStep::Find { back: false }) <==> order == 1
            &&& step == (TerminalStep::Find { back: true }) <==> order == 2
            &&& step == TerminalStep::Return <==> order == 4
            &&& step == TerminalStep::ClearScreen <==> order == 5
            &&& step == TerminalStep::ClearHistory <==> order == 6
            &&& step == TerminalStep::SaveLog <==> order == 7
            &&& step == (TerminalStep::Page { up: true }) <==> order == 8
            &&& step == (TerminalStep::Page { up: false }) <==> order == 9
            &&& step == TerminalStep::Nothing <==> order < 0 || order > 9
        }),
{
}

/// Hiding the search lets go of what was selected and returns to the present; returning
/// keeps the selection; no other step changes what the pane shows.
pub proof fn hiding_the_search_lets_go(view: TerminalView, step: TerminalStep)
    ensures
        step == TerminalStep::CloseSearch ==> search::view_after(view, step).selection is None
            && search::view_after(view, step).looking == 0,
        step == TerminalStep::Return ==> search::view_after(view, step).selection == view.selection
            && search::view_after(view, step).looking == 0,
        step != TerminalStep::CloseSearch && step != TerminalStep::Return ==> search::view_after(
            view,
            step,
        ) == view,
{
}

/// A pointer reaches the program only while the pane shows the present and the program
/// runs. Kind 0 presses, 1 lets go, 3 turns the wheel, any other moves; button 0 is the
/// left, 1 the middle and 2 the right one. A place off the screen is the nearest on
/// it.
pub proof fn a_pointer_reaches_the_program(
    kind: i32,
    button: i32,
    place: Place,
    size: Place,
    looking: usize,
    finished: bool,
)
    ensures
        ({
            let step = search::pointed(kind, button, place, size, looking, finished);
            &&& step == PointerStep::Nothing <==> looking > 0 || finished
            &&& looking == 0 && !finished && kind == 3 && place.0 < size.0 && place.1 < size.1
                ==> step == (PointerStep::Wheel { row: place.0, column: place.1 })
            &&& looking == 0 && !finished && kind != 3 ==> match step {
                PointerStep::Mouse { action, button: pressed, row, column } => {
                    &&& action == MouseAction::Press <==> kind == 0
                    &&& action == MouseAction::Release <==> kind == 1
                    &&& pressed == MouseButton::Left <==> button == 0
                    &&& pressed == MouseButton::Middle <==> button == 1
                    &&& pressed == MouseButton::Right <==> button == 2
                    &&& place.0 < size.0 ==> row == place.0
                    &&& place.1 < size.1 ==> column == place.1
                    &&& place.0 >= size.0 && size.0 > 0 ==> row == size.0 - 1
                    &&& place.1 >= size.1 && size.1 > 0 ==> column == size.1 - 1
                },
                _ => false,
            }
        }),
{
}

/// The writer is asked before a tab goes exactly where a shell that runs would end and the
/// writer wants to be asked, its output goes to a file, or a panel has unsaved
/// changes or takes something in.
pub proof fn a_tab_is_held_for_a_reason(tab: PaneTabModel, shells: Shells, logging: Seq<u64>)
    ensures
        leaving::is_held(tab, shells, logging) <==> (shells.confirm
            && crate::terminal_panels::steps::is_running(shells, tab.terminal)) || (tab.terminal
            is Some && logging.contains(tab.terminal->0)) || (shells.confirm
            && crate::terminal_panels::steps::is_running(shells, tab.below.shell)) || exists|i: int|
            0 <= i < tab.below.entries.len() && ((#[trigger] tab.below.entries[i]).edited()
                || tab.below.entries[i].capture is Some || (shells.confirm
                && crate::terminal_panels::steps::is_running(shells, tab.below.entries[i].shell))),
{
    if exists|i: int|
        0 <= i < tab.below.entries.len() && leaving::has_something(
            #[trigger] tab.below.entries[i],
            shells,
        ) {
        let i = choose|i: int|
            0 <= i < tab.below.entries.len() && leaving::has_something(
                #[trigger] tab.below.entries[i],
                shells,
            );
        assert(tab.below.entries[i].edited() || tab.below.entries[i].capture is Some
            || leaving::is_asked_for(shells, tab.below.entries[i].shell));
    }
    assert forall|i: int|
        0 <= i < tab.below.entries.len() && ((#[trigger] tab.below.entries[i]).edited()
            || tab.below.entries[i].capture is Some || (shells.confirm
            && crate::terminal_panels::steps::is_running(
            shells,
            tab.below.entries[i].shell,
        ))) implies leaving::has_something(tab.below.entries[i], shells) by {}
}

/// The panels with unsaved changes are those that are named, each in its order.
pub proof fn unsaved_panels_are_named(entries: Seq<PanelModel>, n: int)
    requires
        0 <= n <= entries.len(),
    ensures
        forall|i: int|
            0 <= i < n && (#[trigger] entries[i]).edited() ==> leaving::unsaved_to(
                entries,
                n,
            ).contains(entries[i].id),
        forall|id: u64| #[trigger]
            leaving::unsaved_to(entries, n).contains(id) ==> exists|i: int|
                0 <= i < n && (#[trigger] entries[i]).edited() && entries[i].id == id,
    decreases n,
{
    if n > 0 {
        unsaved_panels_are_named(entries, n - 1);
        let before = leaving::unsaved_to(entries, n - 1);
        let after = leaving::unsaved_to(entries, n);
        assert forall|i: int| 0 <= i < n && (#[trigger] entries[i]).edited() implies after.contains(
            entries[i].id,
        ) by {
            if i < n - 1 {
                let k = choose|k: int| 0 <= k < before.len() && before[k] == entries[i].id;
                assert(after[k] == entries[i].id);
            } else {
                assert(after[before.len() as int] == entries[i].id);
            }
        }
        assert forall|id: u64| #[trigger] after.contains(id) implies exists|i: int|
            0 <= i < n && (#[trigger] entries[i]).edited() && entries[i].id == id by {
            let k = choose|k: int| 0 <= k < after.len() && after[k] == id;
            if k < before.len() {
                assert(before[k] == id);
                assert(before.contains(id));
            } else {
                assert(entries[n - 1].edited() && entries[n - 1].id == id);
            }
        }
    }
}

/// A tab is found in the first pane that has it, at its place there.
pub proof fn a_tab_is_found_where_it_is(
    strips: Seq<StripModel>,
    id: u64,
    pane: int,
    at: int,
    from: int,
)
    requires
        0 <= from <= pane < strips.len(),
        0 <= at < strips[pane].tabs.len(),
        strips[pane].tabs[at].id == id,
        forall|k: int| 0 <= k < at ==> (#[trigger] strips[pane].tabs[k]).id != id,
        forall|p: int, k: int|
            from <= p < pane && 0 <= k < strips[p].tabs.len()
                ==> (#[trigger] strips[p].tabs[k]).id != id,
    ensures
        leaving::place_in_panes(strips, id, from) == Some((pane, at)),
    decreases pane - from,
{
    if from < pane {
        no_tab_is_found(strips[from].tabs, id, 0);
        a_tab_is_found_where_it_is(strips, id, pane, at, from + 1);
    } else {
        the_tab_is_found(strips[pane].tabs, id, at, 0);
    }
}

proof fn the_tab_is_found(tabs: Seq<PaneTabModel>, id: u64, at: int, from: int)
    requires
        0 <= from <= at < tabs.len(),
        tabs[at].id == id,
        forall|k: int| from <= k < at ==> (#[trigger] tabs[k]).id != id,
    ensures
        leaving::tab_place(tabs, id, from) == Some(at),
    decreases at - from,
{
    if from < at {
        assert(tabs[from].id != id);
        the_tab_is_found(tabs, id, at, from + 1);
    }
}

proof fn no_tab_is_found(tabs: Seq<PaneTabModel>, id: u64, from: int)
    requires
        0 <= from <= tabs.len(),
        forall|k: int| from <= k < tabs.len() ==> (#[trigger] tabs[k]).id != id,
    ensures
        leaving::tab_place(tabs, id, from) is None,
    decreases tabs.len() - from,
{
    if from < tabs.len() {
        assert(tabs[from].id != id);
        no_tab_is_found(tabs, id, from + 1);
    }
}

/// What is selected is at the first place among what was found that is the same.
pub proof fn a_selection_has_its_place(
    found: Seq<(Place, Place)>,
    selected: (Place, Place),
    at: int,
)
    requires
        0 <= at < found.len(),
        found[at] == selected,
        forall|k: int| 0 <= k < at ==> #[trigger] found[k] != selected,
    ensures
        search::current_among(found, Some(selected)) == Some(at),
        search::current_among(found, None) is None,
{
    the_place_is_found(found, selected, at, 0);
}

proof fn the_place_is_found(
    found: Seq<(Place, Place)>,
    selected: (Place, Place),
    at: int,
    from: int,
)
    requires
        0 <= from <= at < found.len(),
        found[at] == selected,
        forall|k: int| 0 <= k < at ==> #[trigger] found[k] != selected,
    ensures
        search::place_among(found, selected, from) == Some(at),
    decreases at - from,
{
    if from < at {
        assert(found[from] != selected);
        the_place_is_found(found, selected, at, from + 1);
    }
}

/// The output of a tab is taken in where it goes to a file or one of its panels takes it
/// in.
pub proof fn output_is_taken_in_somewhere(tab: PaneTabModel, logging: Seq<u64>)
    ensures
        leaving::takes_in(tab, logging) <==> (tab.terminal is Some && logging.contains(
            tab.terminal->0,
        )) || exists|k: int|
            0 <= k < tab.below.entries.len() && (#[trigger] tab.below.entries[k]).capture is Some,
{
}

} // verus!
