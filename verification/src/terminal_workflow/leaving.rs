//! What is asked before a terminal and its panels go.
use crate::terminal_panels::page;
use crate::terminal_panels::steps::{self, Shells};
use crate::terminal_panels::tab::{self, PaneTab, PaneTabModel, PanelModel, Strip, StripModel};
use vstd::prelude::*;

verus! {

/// A shell that the writer is asked about before it ends.
pub open spec fn is_asked_for(shells: Shells, shell: Option<u64>) -> bool {
    shells.confirm && steps::is_running(shells, shell)
}

fn asks_for(shells: &Shells, shell: Option<u64>) -> (out: bool)
    ensures
        out == is_asked_for(*shells, shell),
{
    match shell {
        Some(id) => shells.confirm && !tab::is_among(&shells.finished, id),
        None => false,
    }
}

/// A panel that has something to lose.
pub open spec fn has_something(entry: PanelModel, shells: Shells) -> bool {
    entry.edited() || entry.capture is Some || is_asked_for(shells, entry.shell)
}

/// The terminal of a tab writes to a file.
pub open spec fn writes_log(tab: PaneTabModel, logging: Seq<u64>) -> bool {
    tab.terminal is Some && logging.contains(tab.terminal->0)
}

/// The writer is asked before a tab goes: a shell would end, or a panel has
/// something to lose.
pub open spec fn is_held(tab: PaneTabModel, shells: Shells, logging: Seq<u64>) -> bool {
    ||| is_asked_for(shells, tab.terminal)
    ||| writes_log(tab, logging)
    ||| is_asked_for(shells, tab.below.shell)
    ||| exists|i: int|
        0 <= i < tab.below.entries.len() && has_something(#[trigger] tab.below.entries[i], shells)
}

/// [`is_held`]: whether the writer is asked before a tab goes. `logging` holds
/// the shells whose output goes to a file.
pub fn needs_close(tab: &PaneTab, shells: &Shells, logging: &Vec<u64>) -> (out: bool)
    ensures
        out == is_held(tab@, *shells, logging@),
{
    if asks_for(shells, tab.terminal) || asks_for(shells, tab.below.shell) {
        return true;
    }
    if let Some(id) = tab.terminal {
        if tab::is_among(logging, id) {
            return true;
        }
    }
    let mut at: usize = 0;
    while at < tab.below.entries.len()
        invariant
            at <= tab.below.entries@.len(),
            !is_asked_for(*shells, tab@.terminal),
            !is_asked_for(*shells, tab@.below.shell),
            !writes_log(tab@, logging@),
            forall|i: int|
                0 <= i < at ==> !has_something(#[trigger] tab@.below.entries[i], *shells),
        decreases tab.below.entries@.len() - at,
    {
        let entry = &tab.below.entries[at];
        assert(tab@.below.entries[at as int] == entry@);
        if entry.document.state.edited || entry.capture.is_some() || asks_for(shells, entry.shell) {
            return true;
        }
        at += 1;
    }
    false
}

/// The output of the tab goes to a file, or into a panel.
pub open spec fn takes_in(tab: PaneTabModel, logging: Seq<u64>) -> bool {
    writes_log(tab, logging) || page::any_captures(
        tab.below.entries,
        tab.below.entries.len() as int,
    )
}

pub open spec fn close_words(capturing: bool, english: bool) -> Seq<char> {
    if capturing {
        if english {
            "Close this tab and its panels?\n\nThis tab's shells and capture will stop. Other tabs keep capturing. Save any unsaved panel contents."@
        } else {
            "このTABと付属のPanelを閉じますか？\n\nこのTABのシェルとログ取り込みが終了します。別のTABの取り込みは継続します。Panelの未保存内容は保存してください。"@
        }
    } else {
        if english {
            "Close this tab and its panels?\n\nThis tab's shells will stop. Save any unsaved panel contents."@
        } else {
            "このTABと付属のPanelを閉じますか？\n\nこのTABのシェルが終了します。Panelの未保存内容は保存してください。"@
        }
    }
}

/// What the writer is asked before a tab goes. The tab may have gone already:
/// then nothing of it takes in output.
pub fn ask_close(tab: Option<&PaneTab>, logging: &Vec<u64>, english: bool) -> (out: &'static str)
    ensures
        out@ == close_words(
            match tab {
                Some(tab) => takes_in(tab@, logging@),
                None => false,
            },
            english,
        ),
{
    let mut capturing: bool = false;
    if let Some(tab) = tab {
        if let Some(id) = tab.terminal {
            if tab::is_among(logging, id) {
                capturing = true;
            }
        }
        let ghost log = capturing;
        let mut at: usize = 0;
        while at < tab.below.entries.len()
            invariant
                at <= tab.below.entries@.len(),
                log == writes_log(tab@, logging@),
                capturing == (log || page::any_captures(tab@.below.entries, at as int)),
            decreases tab.below.entries@.len() - at,
        {
            assert(tab@.below.entries[at as int] == tab.below.entries@[at as int]@);
            if tab.below.entries[at].capture.is_some() {
                capturing = true;
            }
            at += 1;
        }
    }
    if capturing {
        if english {
            "Close this tab and its panels?\n\nThis tab's shells and capture will stop. Other tabs keep capturing. Save any unsaved panel contents."
        } else {
            "このTABと付属のPanelを閉じますか？\n\nこのTABのシェルとログ取り込みが終了します。別のTABの取り込みは継続します。Panelの未保存内容は保存してください。"
        }
    } else {
        if english {
            "Close this tab and its panels?\n\nThis tab's shells will stop. Save any unsaved panel contents."
        } else {
            "このTABと付属のPanelを閉じますか？\n\nこのTABのシェルが終了します。Panelの未保存内容は保存してください。"
        }
    }
}

/// What the writer can answer.
pub fn close_choices(english: bool) -> (out: [&'static str; 3])
    ensures
        out@[0]@ == (if english {
            "Save Panels and Continue"@
        } else {
            "Panelを保存して続行"@
        }),
        out@[1]@ == (if english {
            "Continue Without Saving"@
        } else {
            "保存せず続行"@
        }),
        out@[2]@ == (if english {
            "Cancel"@
        } else {
            "キャンセル"@
        }),
{
    if english {
        ["Save Panels and Continue", "Continue Without Saving", "Cancel"]
    } else {
        ["Panelを保存して続行", "保存せず続行", "キャンセル"]
    }
}

/// The first of the tabs from a place on that has a number.
pub open spec fn tab_place(tabs: Seq<PaneTabModel>, id: u64, from: int) -> Option<int>
    decreases tabs.len() - from,
{
    if from < 0 || from >= tabs.len() {
        None
    } else if tabs[from].id == id {
        Some(from)
    } else {
        tab_place(tabs, id, from + 1)
    }
}

/// The first of the panes from one on that has a tab, and the tab's place in it.
pub open spec fn place_in_panes(strips: Seq<StripModel>, id: u64, from: int) -> Option<(int, int)>
    decreases strips.len() - from,
{
    if from < 0 || from >= strips.len() {
        None
    } else {
        match tab_place(strips[from].tabs, id, 0) {
            Some(at) => Some((from, at)),
            None => place_in_panes(strips, id, from + 1),
        }
    }
}

fn find_tab(strip: &Strip, id: u64) -> (out: Option<usize>)
    ensures
        match out {
            Some(at) => tab_place(strip@.tabs, id, 0) == Some(at as int) && at
                < strip@.tabs.len(),
            None => tab_place(strip@.tabs, id, 0) is None,
        },
{
    let mut at: usize = 0;
    while at < strip.tabs.len()
        invariant
            at <= strip.tabs@.len(),
            tab_place(strip@.tabs, id, 0) == tab_place(strip@.tabs, id, at as int),
        decreases strip.tabs@.len() - at,
    {
        assert(strip@.tabs[at as int] == strip.tabs@[at as int]@);
        if strip.tabs[at].id == id {
            return Some(at);
        }
        at += 1;
    }
    None
}

/// Where a tab is by now: its pane and its place.
pub fn close_target(strips: &Vec<Strip>, id: u64) -> (out: Option<(usize, usize)>)
    ensures
        match out {
            Some(place) => place_in_panes(tab::strip_models(strips@), id, 0) == Some(
                (place.0 as int, place.1 as int),
            ) && place.0 < strips@.len() && place.1 < strips@[place.0 as int]@.tabs.len(),
            None => place_in_panes(tab::strip_models(strips@), id, 0) is None,
        },
{
    let ghost all = tab::strip_models(strips@);
    let mut at: usize = 0;
    while at < strips.len()
        invariant
            at <= strips@.len(),
            all == tab::strip_models(strips@),
            place_in_panes(all, id, 0) == place_in_panes(all, id, at as int),
        decreases strips@.len() - at,
    {
        assert(all[at as int] == strips@[at as int]@);
        if let Some(place) = find_tab(&strips[at], id) {
            return Some((at, place));
        }
        at += 1;
    }
    None
}

/// The panels with changes, of the first `n`.
pub open spec fn unsaved_to(entries: Seq<PanelModel>, n: int) -> Seq<u64>
    decreases n,
{
    if n <= 0 {
        Seq::empty()
    } else if entries[n - 1].edited() {
        unsaved_to(entries, n - 1).push(entries[n - 1].id)
    } else {
        unsaved_to(entries, n - 1)
    }
}

/// The panels of a tab that are saved before it goes, in order. The tab stays
/// where one of them cannot be saved.
pub fn unsaved_panels(tab: &PaneTab) -> (out: Vec<u64>)
    ensures
        out@ == unsaved_to(tab@.below.entries, tab@.below.entries.len() as int),
{
    let mut out: Vec<u64> = Vec::new();
    let mut at: usize = 0;
    while at < tab.below.entries.len()
        invariant
            at <= tab.below.entries@.len(),
            out@ == unsaved_to(tab@.below.entries, at as int),
        decreases tab.below.entries@.len() - at,
    {
        assert(tab@.below.entries[at as int] == tab.below.entries@[at as int]@);
        if tab.below.entries[at].document.state.edited {
            out.push(tab.below.entries[at].id);
        }
        at += 1;
    }
    out
}

} // verus!
