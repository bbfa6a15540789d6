//! What of a session is kept, and where its documents come from.
use crate::saving::document::CopyName;
use crate::session::capture::{self, HeldStrip, HeldTab, WindowState};
use crate::session::laws;
use crate::session::opening::{self, Found, Opening, Source, SourceModel, StripModel};
use crate::session::tab::{PaneModel, TabModel};
use vstd::prelude::*;

verus! {

/// A tab that is kept: a document of its own that can be edited.
pub open spec fn is_kept(tab: HeldTab) -> bool {
    !tab.stands_in && !tab.read_only
}

/// How many of the first `n` tabs are kept.
pub open spec fn kept_among(tabs: Seq<HeldTab>, n: int) -> int
    decreases n,
{
    if n <= 0 {
        0
    } else {
        kept_among(tabs, n - 1) + if is_kept(tabs[n - 1]) {
            1int
        } else {
            0int
        }
    }
}

proof fn kept_tabs_are_counted(tabs: Seq<HeldTab>, n: int)
    requires
        0 <= n <= tabs.len(),
    ensures
        capture::kept_tabs(tabs, n).len() == kept_among(tabs, n),
        0 <= kept_among(tabs, n) <= n,
        forall|i: int|
            0 <= i < n && is_kept(#[trigger] tabs[i]) ==> kept_among(tabs, i) < kept_among(tabs, n)
                && capture::kept_tabs(tabs, n)[kept_among(tabs, i)] == tabs[i]@,
    decreases n,
{
    if n > 0 {
        kept_tabs_are_counted(tabs, n - 1);
        assert forall|i: int| 0 <= i < n && is_kept(#[trigger] tabs[i]) implies kept_among(tabs, i)
            < kept_among(tabs, n) && capture::kept_tabs(tabs, n)[kept_among(tabs, i)]
            == tabs[i]@ by {
            kept_tabs_are_counted(tabs, i);
        }
    }
}

/// Every tab with a document that can be edited is kept, in its order and with all that
/// is kept of it, and no other; the pane keeps its zoom and its paper. The tab in front
/// stays in front where it is kept.
pub proof fn a_pane_keeps_its_documents(strip: HeldStrip, i: int)
    requires
        0 <= i < strip.tabs@.len(),
        strip.tabs@.len() <= usize::MAX,
    ensures
        ({
            let kept = capture::captured(strip);
            let tabs = strip.tabs@;
            &&& kept.tabs.len() == kept_among(tabs, tabs.len() as int)
            &&& is_kept(tabs[i]) ==> kept.tabs[kept_among(tabs, i)] == tabs[i]@
            &&& is_kept(tabs[i]) && strip.active == i ==> kept.active == kept_among(tabs, i)
            &&& kept.tabs.len() > 0 ==> kept.active < kept.tabs.len()
            &&& kept.zoom == strip.zoom
            &&& kept.paper == strip.paper
        }),
{
    kept_tabs_are_counted(strip.tabs@, strip.tabs@.len() as int);
    kept_tabs_are_counted(strip.tabs@, i);
    if strip.active < strip.tabs@.len() {
        kept_tabs_are_counted(strip.tabs@, strip.active as int);
    }
}

/// What is kept of a tab: its file or its number, and how it is looked at.
pub proof fn a_tab_is_kept_whole(tab: HeldTab)
    ensures
        tab.origin is Some ==> tab@.origin == Some(tab.origin->0@),
        tab.origin is None ==> tab@.origin is None,
        tab@.untitled == tab.untitled,
        tab@.settings == tab.settings,
{
}

/// A window keeps its place exactly while it neither fills the screen nor is put away
/// and has a size.
pub proof fn a_window_keeps_its_place(window: WindowState)
    ensures
        capture::place_of(window) is Some <==> !window.maximized && !window.minimized
            && window.place.width > 0 && window.place.height > 0,
        capture::place_of(window) is Some ==> capture::place_of(window)->0 == window.place,
{
}

proof fn a_listed_name_stands_there(names: Seq<CopyName>, name: CopyName, n: int)
    requires
        0 <= n <= names.len(),
    ensures
        match opening::name_at(names, name, n) {
            Some(at) => 0 <= at < n && names[at] == name,
            None => forall|i: int| 0 <= i < n ==> #[trigger] names[i] != name,
        },
    decreases n,
{
    if n > 0 {
        a_listed_name_stands_there(names, name, n - 1);
    }
}

/// A document that is open already is shared; else its unsaved work is taken, and only
/// where there is none is its file read. A document without a file that nobody has
/// is nowhere.
pub proof fn unsaved_work_comes_before_the_file(
    name: CopyName,
    placed: Seq<SourceModel>,
    restored: Seq<CopyName>,
    files: Seq<Seq<Seq<char>>>,
)
    requires
        placed.len() <= usize::MAX,
        restored.len() <= usize::MAX,
    ensures
        ({
            let open = exists|i: int| 0 <= i < placed.len() && (#[trigger] placed[i]).name == name;
            match opening::found(name, placed, restored, files) {
                Found::Held(at) => at < placed.len() && placed[at as int].name == name,
                Found::Restored(at) => !open && at < restored.len() && restored[at as int] == name,
                Found::Disk => !open && !restored.contains(name) && name is File && files.contains(
                    name->File_0,
                ),
                Found::Nowhere => !open && !restored.contains(name) && (name is File
                    ==> !files.contains(name->File_0)),
            }
        }),
{
    laws::a_held_name_stands_there(placed, name, placed.len() as int);
    a_listed_name_stands_there(restored, name, restored.len() as int);
}

/// A tab comes back looked at as it was; without an anchor the caret is it.
pub proof fn a_tab_is_looked_at_as_before(tab: TabModel)
    ensures
        ({
            let now = opening::settings_of(tab);
            let was = tab.settings;
            &&& now.caret == was.caret
            &&& was.anchor is Some ==> now.anchor == was.anchor
            &&& was.anchor is None ==> now.anchor == was.caret
            &&& now.word_mode == was.word_mode
            &&& now.vertical == was.vertical
            &&& now.preview == was.preview
            &&& now.scroll == was.scroll
            &&& now.top == was.top
        }),
{
}

/// Without a session there is one pane: the work copies, each in a tab, in order, or a
/// new first document where there are none.
pub proof fn a_first_run_has_one_pane(restored: Seq<CopyName>)
    requires
        restored.len() <= usize::MAX,
    ensures
        ({
            let first = opening::opened_afresh(restored);
            &&& first.strips.len() == 1
            &&& first.strips[0].active == 0
            &&& first.strips[0].tabs.len() == first.documents.len()
            &&& forall|i: int|
                0 <= i < first.documents.len() ==> (
                #[trigger] first.strips[0].tabs[i]).document == i
            &&& restored.len() == 0 ==> first.documents.len() == 1 && first.documents[0].name
                == CopyName::Untitled(1) && first.documents[0].source == Source::New
            &&& restored.len() > 0 ==> first.documents.len() == restored.len() && forall|i: int|
                0 <= i < restored.len() ==> (#[trigger] first.documents[i]).name == restored[i]
                    && first.documents[i].source == Source::Restored(i as usize)
        }),
{
}

/// A stored pane goes into the pane of its number, or into the last; it brings its paper,
/// and in front stands the tab that did, or the last where there are fewer.
pub proof fn a_pane_comes_back_in_its_place(
    before: Opening,
    stored: PaneModel,
    position: int,
    restored: Seq<CopyName>,
    files: Seq<Seq<Seq<char>>>,
)
    requires
        before.strips.len() > 0,
        0 <= position,
        before.documents.len() + stored.tabs.len() <= usize::MAX,
        opening::tabs_hold(before),
        laws::one_each(before.documents),
        laws::fronts_hold(before),
        forall|i: int|
            0 <= i < stored.tabs.len() ==> laws::can_be_opened(
                (#[trigger] stored.tabs[i]).name(),
                restored,
                files,
            ),
    ensures
        ({
            let after = opening::placed_pane(before, stored, position, restored, files);
            let last = before.strips.len() - 1;
            let pane = if position <= last {
                position
            } else {
                last
            };
            let count = before.strips[pane].tabs.len() + stored.tabs.len();
            &&& after.strips[pane].paper == stored.paper
            &&& after.strips[pane].tabs.len() == count
            &&& stored.active < count ==> after.strips[pane].active == stored.active
            &&& stored.active >= count && count > 0 ==> after.strips[pane].active == count - 1
        }),
{
    let last = before.strips.len() - 1;
    let pane = if position <= last {
        position
    } else {
        last
    };
    laws::every_tab_comes_back(
        before,
        stored.tabs,
        pane,
        restored,
        files,
        stored.tabs.len() as int,
    );
    placing_keeps_the_panes(before, stored.tabs, pane, restored, files, stored.tabs.len() as int);
}

proof fn placing_keeps_the_panes(
    before: Opening,
    tabs: Seq<TabModel>,
    pane: int,
    restored: Seq<CopyName>,
    files: Seq<Seq<Seq<char>>>,
    n: int,
)
    requires
        0 <= n <= tabs.len(),
        0 <= pane < before.strips.len(),
    ensures
        opening::placed_tabs(before, tabs, pane, restored, files, n).strips.len()
            == before.strips.len(),
    decreases n,
{
    if n > 0 {
        placing_keeps_the_panes(before, tabs, pane, restored, files, n - 1);
    }
}

/// The word mode of a pane is that of the tab in front.
pub proof fn the_mode_is_that_of_the_front(strip: StripModel)
    ensures
        strip.active < strip.tabs.len() && strip.tabs[strip.active as int].settings is Some
            ==> opening::mode_of(strip) == strip.tabs[strip.active as int].settings->0.word_mode,
        strip.active >= strip.tabs.len() || strip.tabs[strip.active as int].settings is None
            ==> opening::mode_of(strip) == 0,
{
}

} // verus!
