//! What a session promises as a whole.
use crate::saving::document::CopyName;
use crate::session::opening::{self, Found, Opening, Source, SourceModel};
use crate::session::tab::{PaneModel, TabModel};
use vstd::prelude::*;

verus! {

/// A name that is held stands at that place, and one that is not is nowhere.
pub proof fn a_held_name_stands_there(documents: Seq<SourceModel>, name: CopyName, n: int)
    requires
        0 <= n <= documents.len(),
    ensures
        match opening::held_at(documents, name, n) {
            Some(at) => 0 <= at < n && documents[at].name == name,
            None => forall|i: int| 0 <= i < n ==> (#[trigger] documents[i]).name != name,
        },
    decreases n,
{
    if n > 0 {
        a_held_name_stands_there(documents, name, n - 1);
    }
}

proof fn a_listed_name_stands_there(names: Seq<CopyName>, name: CopyName, n: int)
    requires
        0 <= n <= names.len(),
    ensures
        match opening::name_at(names, name, n) {
            Some(at) => 0 <= at < n && names[at] == name,
            None => forall|i: int| 0 <= i < n ==> names[i] != name,
        },
    decreases n,
{
    if n > 0 {
        a_listed_name_stands_there(names, name, n - 1);
    }
}

/// Two documents never have the same name.
pub open spec fn one_each(documents: Seq<SourceModel>) -> bool {
    forall|i: int, j: int|
        0 <= i < j < documents.len() ==> (#[trigger] documents[i]).name != (
        #[trigger] documents[j]).name
}

/// In front of every pane stands a tab that is there.
pub open spec fn fronts_hold(session: Opening) -> bool {
    forall|i: int|
        0 <= i < session.strips.len() ==> (#[trigger] session.strips[i]).active == 0
            || session.strips[i].active < session.strips[i].tabs.len()
}

proof fn a_tab_keeps_order(
    before: Opening,
    tab: TabModel,
    pane: int,
    restored: Seq<CopyName>,
    files: Seq<Seq<Seq<char>>>,
)
    requires
        0 <= pane < before.strips.len(),
        before.documents.len() < usize::MAX,
        opening::tabs_hold(before),
        one_each(before.documents),
        fronts_hold(before),
    ensures
        ({
            let after = opening::placed_tab(before, tab, pane, restored, files);
            &&& opening::tabs_hold(after)
            &&& one_each(after.documents)
            &&& fronts_hold(after)
            &&& after.strips.len() == before.strips.len()
            &&& before.documents.len() <= after.documents.len() <= before.documents.len() + 1
        }),
{
    let after = opening::placed_tab(before, tab, pane, restored, files);
    a_held_name_stands_there(before.documents, tab.name(), before.documents.len() as int);
    assert forall|i: int, j: int|
        #![trigger after.strips[i].tabs[j]]
        0 <= i < after.strips.len() && 0 <= j < after.strips[i].tabs.len() implies
        after.strips[i].tabs[j].document < after.documents.len() by {
        if i != pane || j < before.strips[i].tabs.len() {
            assert(before.strips[i].tabs[j].document < before.documents.len());
        }
    }
    assert forall|i: int| 0 <= i < after.strips.len() implies (
    #[trigger] after.strips[i]).active == 0 || after.strips[i].active
        < after.strips[i].tabs.len() by {
        let was = before.strips[i];
    }
}

proof fn tabs_keep_order(
    before: Opening,
    tabs: Seq<TabModel>,
    pane: int,
    restored: Seq<CopyName>,
    files: Seq<Seq<Seq<char>>>,
    n: int,
)
    requires
        0 <= n <= tabs.len(),
        0 <= pane < before.strips.len(),
        before.documents.len() + n <= usize::MAX,
        opening::tabs_hold(before),
        one_each(before.documents),
        fronts_hold(before),
    ensures
        ({
            let after = opening::placed_tabs(before, tabs, pane, restored, files, n);
            &&& opening::tabs_hold(after)
            &&& one_each(after.documents)
            &&& fronts_hold(after)
            &&& after.strips.len() == before.strips.len()
            &&& before.documents.len() <= after.documents.len() <= before.documents.len() + n
        }),
    decreases n,
{
    if n > 0 {
        tabs_keep_order(before, tabs, pane, restored, files, n - 1);
        a_tab_keeps_order(
            opening::placed_tabs(before, tabs, pane, restored, files, n - 1),
            tabs[n - 1],
            pane,
            restored,
            files,
        );
    }
}

/// How many tabs the first `n` stored panes have.
pub open spec fn tab_count(panes: Seq<PaneModel>, n: int) -> int
    decreases n,
{
    if n <= 0 {
        0
    } else {
        tab_count(panes, n - 1) + panes[n - 1].tabs.len()
    }
}

proof fn panes_keep_order(
    before: Opening,
    panes: Seq<PaneModel>,
    restored: Seq<CopyName>,
    files: Seq<Seq<Seq<char>>>,
    n: int,
)
    requires
        0 <= n <= panes.len(),
        before.strips.len() > 0,
        before.documents.len() + tab_count(panes, n) <= usize::MAX,
        opening::tabs_hold(before),
        one_each(before.documents),
        fronts_hold(before),
    ensures
        ({
            let after = opening::placed_panes(before, panes, restored, files, n);
            &&& opening::tabs_hold(after)
            &&& one_each(after.documents)
            &&& fronts_hold(after)
            &&& after.strips.len() == before.strips.len()
            &&& after.documents.len() <= before.documents.len() + tab_count(panes, n)
        }),
    decreases n,
{
    if n > 0 {
        counts_grow(panes, n - 1);
        panes_keep_order(before, panes, restored, files, n - 1);
        let held = opening::placed_panes(before, panes, restored, files, n - 1);
        let last = held.strips.len() - 1;
        let pane = if n - 1 < last {
            n - 1
        } else {
            last
        };
        let tabs = panes[n - 1].tabs;
        tabs_keep_order(held, tabs, pane, restored, files, tabs.len() as int);
        let filled = opening::placed_tabs(held, tabs, pane, restored, files, tabs.len() as int);
        let after = opening::placed_panes(before, panes, restored, files, n);
        assert forall|i: int, j: int|
            #![trigger after.strips[i].tabs[j]]
            0 <= i < after.strips.len() && 0 <= j < after.strips[i].tabs.len() implies
            after.strips[i].tabs[j].document < after.documents.len() by {
            assert(filled.strips[i].tabs[j].document < filled.documents.len());
        }
        assert forall|i: int| 0 <= i < after.strips.len() implies (
        #[trigger] after.strips[i]).active == 0 || after.strips[i].active
            < after.strips[i].tabs.len() by {
            let was = filled.strips[i];
        }
    }
}

proof fn counts_grow(panes: Seq<PaneModel>, n: int)
    requires
        0 <= n <= panes.len(),
    ensures
        tab_count(panes, n) >= 0,
    decreases n,
{
    if n > 0 {
        counts_grow(panes, n - 1);
    }
}

proof fn the_rest_keeps_order(
    placed: Opening,
    restored: Seq<CopyName>,
    focused: int,
    n: int,
)
    requires
        0 <= n <= restored.len() <= usize::MAX,
        0 <= focused < placed.strips.len(),
        placed.documents.len() + n <= usize::MAX,
        opening::tabs_hold(placed),
        fronts_hold(placed),
    ensures
        ({
            let after = opening::left_over(
                placed,
                restored,
                focused,
                placed.documents.len() as int,
                n,
            );
            &&& opening::tabs_hold(after)
            &&& fronts_hold(after)
            &&& after.strips.len() == placed.strips.len()
            &&& placed.documents.len() <= after.documents.len() <= placed.documents.len() + n
            &&& after.documents.take(placed.documents.len() as int) == placed.documents
            &&& forall|copy: int|
                0 <= copy < n ==> #[trigger] opening::is_shown(
                    after.documents,
                    copy,
                    after.documents.len() as int,
                )
        }),
    decreases n,
{
    let count = placed.documents.len() as int;
    let after = opening::left_over(placed, restored, focused, count, n);
    if n <= 0 {
        assert(after.documents.take(count) =~= placed.documents);
    } else {
        the_rest_keeps_order(placed, restored, focused, n - 1);
        let before = opening::left_over(placed, restored, focused, count, n - 1);
        let end = before.documents.len() as int;
        assert forall|i: int, j: int|
            #![trigger after.strips[i].tabs[j]]
            0 <= i < after.strips.len() && 0 <= j < after.strips[i].tabs.len() implies
            after.strips[i].tabs[j].document < after.documents.len() by {
            if j < before.strips[i].tabs.len() {
                assert(before.strips[i].tabs[j].document < before.documents.len());
            }
        }
        assert forall|i: int| 0 <= i < after.strips.len() implies (
        #[trigger] after.strips[i]).active == 0 || after.strips[i].active
            < after.strips[i].tabs.len() by {
            let was = before.strips[i];
        }
        assert(after.documents.take(count) =~= before.documents.take(count));
        assert forall|copy: int| 0 <= copy < n implies #[trigger] opening::is_shown(
            after.documents,
            copy,
            after.documents.len() as int,
        ) by {
            if copy < n - 1 {
                assert(opening::is_shown(before.documents, copy, end));
                let i = choose|i: int|
                    0 <= i < end && (#[trigger] before.documents[i]).source == Source::Restored(
                        copy as usize,
                    );
                assert(after.documents[i].source == Source::Restored(copy as usize));
            } else if opening::is_shown(placed.documents, copy, count) {
                let i = choose|i: int|
                    0 <= i < count && (#[trigger] placed.documents[i]).source == Source::Restored(
                        copy as usize,
                    );
                assert(after.documents.take(count)[i] == placed.documents[i]);
                assert(after.documents[i].source == Source::Restored(copy as usize));
            } else {
                assert(after.documents[end].source == Source::Restored(copy as usize));
            }
        }
    }
}

/// However a session reads, it opens in order: every tab shows a document that
/// is there, in front of every pane stands a tab that is there, no two stored
/// tabs make two documents of one file, and every work copy is shown.
pub proof fn a_session_opens_in_order(
    stored: Seq<PaneModel>,
    focused: usize,
    panes: nat,
    restored: Seq<CopyName>,
    files: Seq<Seq<Seq<char>>>,
)
    requires
        panes > 0,
        tab_count(stored, stored.len() as int) + restored.len() <= usize::MAX,
        panes <= usize::MAX,
    ensures
        ({
            let session = opening::opened(stored, focused, panes, restored, files);
            let placed = opening::placed_panes(
                Opening { documents: Seq::empty(), strips: opening::empty_strips(panes) },
                stored,
                restored,
                files,
                stored.len() as int,
            ).documents;
            &&& session.strips.len() == panes
            &&& opening::tabs_hold(session)
            &&& fronts_hold(session)
            &&& one_each(session.documents.take(placed.len() as int))
            &&& session.documents.take(placed.len() as int) == placed
            &&& forall|copy: int|
                0 <= copy < restored.len() ==> #[trigger] opening::is_shown(
                    session.documents,
                    copy,
                    session.documents.len() as int,
                )
        }),
{
    let start = Opening { documents: Seq::empty(), strips: opening::empty_strips(panes) };
    panes_keep_order(start, stored, restored, files, stored.len() as int);
    let placed = opening::placed_panes(start, stored, restored, files, stored.len() as int);
    the_rest_keeps_order(
        placed,
        restored,
        opening::in_front(focused, panes) as int,
        restored.len() as int,
    );
}

/// A name with a work copy or a file that opens.
pub open spec fn can_be_opened(
    name: CopyName,
    restored: Seq<CopyName>,
    files: Seq<Seq<Seq<char>>>,
) -> bool {
    restored.contains(name) || (name is File && files.contains(name->File_0))
}

/// Every stored tab whose document can be opened comes back where it was, in
/// its order, on its own document and looked at as before.
pub proof fn every_tab_comes_back(
    before: Opening,
    tabs: Seq<TabModel>,
    pane: int,
    restored: Seq<CopyName>,
    files: Seq<Seq<Seq<char>>>,
    n: int,
)
    requires
        0 <= n <= tabs.len(),
        0 <= pane < before.strips.len(),
        before.documents.len() + n <= usize::MAX,
        opening::tabs_hold(before),
        one_each(before.documents),
        fronts_hold(before),
        forall|i: int|
            0 <= i < tabs.len() ==> can_be_opened((#[trigger] tabs[i]).name(), restored, files),
    ensures
        ({
            let after = opening::placed_tabs(before, tabs, pane, restored, files, n);
            let was = before.strips[pane].tabs;
            let now = after.strips[pane].tabs;
            &&& now.len() == was.len() + n
            &&& forall|i: int| 0 <= i < was.len() ==> now[i] == was[i]
            &&& forall|i: int|
                0 <= i < before.documents.len() ==> after.documents[i] == before.documents[i]
            &&& forall|i: int|
                #![trigger tabs[i]]
                0 <= i < n ==> {
                    let tab = now[was.len() + i];
                    &&& tab.settings == Some(opening::settings_of(tabs[i]))
                    &&& tab.document < after.documents.len()
                    &&& after.documents[tab.document as int].name == tabs[i].name()
                }
        }),
    decreases n,
{
    if n > 0 {
        every_tab_comes_back(before, tabs, pane, restored, files, n - 1);
        tabs_keep_order(before, tabs, pane, restored, files, n - 1);
        let held = opening::placed_tabs(before, tabs, pane, restored, files, n - 1);
        let after = opening::placed_tabs(before, tabs, pane, restored, files, n);
        let name = tabs[n - 1].name();
        a_held_name_stands_there(held.documents, name, held.documents.len() as int);
        a_listed_name_stands_there(restored, name, restored.len() as int);
        assert(can_be_opened(name, restored, files));
        assert(opening::found(name, held.documents, restored, files) != Found::Nowhere) by {
            if restored.contains(name) {
                let i = choose|i: int| 0 <= i < restored.len() && restored[i] == name;
                assert(restored[i] == name);
            }
        }
        let was = before.strips[pane].tabs;
        assert forall|i: int| #![trigger tabs[i]] 0 <= i < n implies {
            let tab = after.strips[pane].tabs[was.len() + i];
            &&& tab.settings == Some(opening::settings_of(tabs[i]))
            &&& tab.document < after.documents.len()
            &&& after.documents[tab.document as int].name == tabs[i].name()
        } by {
            if i < n - 1 {
                let tab = held.strips[pane].tabs[was.len() + i];
                assert(after.strips[pane].tabs[was.len() + i] == tab);
                assert(tab.document < held.documents.len());
                assert(after.documents[tab.document as int] == held.documents[tab.document as int]);
            }
        }
    }
}

/// The numbers are apart, and no document has one of them.
pub open spec fn nobody_has(documents: Seq<SourceModel>, numbers: Seq<u32>) -> bool {
    &&& forall|i: int, j: int|
        0 <= i < j < numbers.len() ==> #[trigger] numbers[i] != #[trigger] numbers[j]
    &&& forall|i: int, k: int|
        0 <= i < documents.len() && 0 <= k < numbers.len() ==> (
        #[trigger] documents[i]).name != CopyName::Untitled(#[trigger] numbers[k])
}

/// Once the panes were filled, every pane has a tab, and every tab shows a document
/// that is there. What stood before stands as it was, and each new document has a
/// number that no other document has.
pub proof fn every_pane_has_a_tab(before: Opening, numbers: Seq<u32>)
    requires
        before.documents.len() + before.strips.len() <= usize::MAX,
        before.strips.len() <= numbers.len(),
        opening::tabs_hold(before),
        nobody_has(before.documents, numbers),
    ensures
        ({
            let after = opening::filled_to(before, numbers, before.strips.len() as int);
            &&& after.strips.len() == before.strips.len()
            &&& opening::tabs_hold(after)
            &&& forall|i: int|
                0 <= i < after.strips.len() ==> (#[trigger] after.strips[i]).tabs.len() > 0
            &&& forall|i: int|
                0 <= i < after.strips.len() && before.strips[i].tabs.len() > 0
                    ==> #[trigger] after.strips[i] == before.strips[i]
            &&& after.documents.take(before.documents.len() as int) == before.documents
            &&& forall|i: int, j: int|
                before.documents.len() <= i < after.documents.len() && 0 <= j
                    < after.documents.len() && i != j ==> (#[trigger] after.documents[i]).name
                    != (#[trigger] after.documents[j]).name
            &&& one_each(before.documents) ==> one_each(after.documents)
        }),
{
    let panes = before.strips.len() as int;
    let count = before.documents.len() as int;
    let after = opening::filled_to(before, numbers, panes);
    opening::filling_fills(before, numbers, panes);
    assert(after.documents.take(count) =~= before.documents);
    assert forall|i: int, j: int|
        #![trigger after.strips[i].tabs[j]]
        0 <= i < after.strips.len() && 0 <= j < after.strips[i].tabs.len() implies
        after.strips[i].tabs[j].document < after.documents.len() by {
        if before.strips[i].tabs.len() > 0 {
            assert(after.strips[i] == before.strips[i]);
            assert(before.strips[i].tabs[j].document < before.documents.len());
        } else {
            empties_grow(before, i, panes);
        }
    }
    assert forall|i: int| 0 <= i < after.strips.len() implies (
    #[trigger] after.strips[i]).tabs.len() > 0 by {
        if before.strips[i].tabs.len() > 0 {
            assert(after.strips[i] == before.strips[i]);
        }
    }
    assert forall|i: int, j: int|
        count <= i < after.documents.len() && 0 <= j < after.documents.len() && i != j implies (
    #[trigger] after.documents[i]).name != (#[trigger] after.documents[j]).name by {
        let k = i - count;
        assert(after.documents[count + k].name == CopyName::Untitled(numbers[k]));
        if j >= count {
            let l = j - count;
            assert(after.documents[count + l].name == CopyName::Untitled(numbers[l]));
            if k < l {
                assert(numbers[k] != numbers[l]);
            } else {
                assert(numbers[l] != numbers[k]);
            }
        } else {
            assert(after.documents[j] == before.documents[j]);
            assert(before.documents[j].name != CopyName::Untitled(numbers[k]));
        }
    }
    if one_each(before.documents) {
        assert forall|i: int, j: int| 0 <= i < j < after.documents.len() implies (
        #[trigger] after.documents[i]).name != (#[trigger] after.documents[j]).name by {
            if j < count {
                assert(after.documents[i] == before.documents[i]);
                assert(after.documents[j] == before.documents[j]);
            } else {
                assert(after.documents[j].name != after.documents[i].name);
            }
        }
    }
}

proof fn empties_grow(before: Opening, i: int, n: int)
    requires
        0 <= i < n <= before.strips.len(),
        before.strips[i].tabs.len() == 0,
    ensures
        0 <= opening::empty_among(before.strips, i) < opening::empty_among(before.strips, n),
    decreases n,
{
    if n == i + 1 {
        empties_count(before, i);
    } else {
        empties_grow(before, i, n - 1);
    }
}

proof fn empties_count(before: Opening, n: int)
    ensures
        opening::empty_among(before.strips, n) >= 0,
    decreases n,
{
    if n > 0 {
        empties_count(before, n - 1);
    }
}

/// The number of the document that a tab shows.
pub open spec fn number_shown(session: Opening, pane: int, tab: int) -> u32 {
    opening::number_of(session.documents[session.strips[pane].tabs[tab].document as int])
}

proof fn a_shown_number_is_taken(session: Opening, pane: int, tab: int, n: int)
    requires
        0 <= pane < n <= session.strips.len(),
        0 <= tab < session.strips[pane].tabs.len(),
    ensures
        opening::numbers_of(session.documents, session.strips, n).contains(
            number_shown(session, pane, tab),
        ),
    decreases n,
{
    let before = opening::numbers_of(session.documents, session.strips, n - 1);
    let all = opening::numbers_of(session.documents, session.strips, n);
    if pane < n - 1 {
        a_shown_number_is_taken(session, pane, tab, n - 1);
        let at = choose|at: int|
            0 <= at < before.len() && before[at] == number_shown(session, pane, tab);
        assert(all[at] == before[at]);
    } else {
        assert(all[before.len() + tab] == number_shown(session, pane, tab));
    }
}

/// A pane that was empty gets a document with one of the free numbers, and no tab of
/// another pane shows a document with that number.
pub proof fn new_numbers_are_nobody_elses(
    before: Opening,
    numbers: Seq<u32>,
    pane: int,
    other: int,
    tab: int,
)
    requires
        before.documents.len() + before.strips.len() <= usize::MAX,
        before.strips.len() <= numbers.len(),
        opening::tabs_hold(before),
        opening::are_free(before, numbers),
        0 <= pane < before.strips.len(),
        before.strips[pane].tabs.len() == 0,
        0 <= other < before.strips.len(),
        other != pane,
    ensures
        ({
            let after = opening::filled_to(before, numbers, before.strips.len() as int);
            &&& after.strips[pane].tabs.len() == 1
            &&& numbers.contains(number_shown(after, pane, 0))
            &&& 0 <= tab < after.strips[other].tabs.len() ==> number_shown(after, other, tab)
                != number_shown(after, pane, 0)
        }),
{
    let panes = before.strips.len() as int;
    let count = before.documents.len() as int;
    let after = opening::filled_to(before, numbers, panes);
    opening::filling_fills(before, numbers, panes);
    let one = opening::empty_among(before.strips, pane);
    empties_grow(before, pane, panes);
    assert(after.documents[count + one].name == CopyName::Untitled(numbers[one]));
    assert(number_shown(after, pane, 0) == numbers[one]);
    if 0 <= tab < after.strips[other].tabs.len() {
        if before.strips[other].tabs.len() > 0 {
            assert(after.strips[other] == before.strips[other]);
            let shown = before.strips[other].tabs[tab].document as int;
            assert(before.strips[other].tabs[tab].document < before.documents.len());
            assert(after.documents[shown] == before.documents[shown]);
            a_shown_number_is_taken(before, other, tab, panes);
            let taken = opening::numbers_of(before.documents, before.strips, panes);
            assert(!taken.contains(numbers[one]));
        } else {
            let two = opening::empty_among(before.strips, other);
            empties_grow(before, other, panes);
            assert(after.documents[count + two].name == CopyName::Untitled(numbers[two]));
            if pane < other {
                empties_grow(before, pane, other);
                assert(numbers[one] != numbers[two]);
            } else {
                empties_grow(before, other, pane);
                assert(numbers[two] != numbers[one]);
            }
        }
    }
}

} // verus!
