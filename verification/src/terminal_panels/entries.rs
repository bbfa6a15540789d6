//! All panels of all tabs.
use crate::terminal_panels::tab::{self, PaneTabModel, PanelDocument, PanelModel, Strip, StripModel};
use crate::text;
use vstd::prelude::*;

verus! {

/// The panels of the first `n` tabs, one behind the other.
pub open spec fn in_tabs(tabs: Seq<PaneTabModel>, n: int) -> Seq<PanelModel>
    decreases n,
{
    if n <= 0 {
        Seq::empty()
    } else {
        in_tabs(tabs, n - 1) + tabs[n - 1].below.entries
    }
}

/// The panels of the first `n` panes, one behind the other.
pub open spec fn in_strips(strips: Seq<StripModel>, n: int) -> Seq<PanelModel>
    decreases n,
{
    if n <= 0 {
        Seq::empty()
    } else {
        in_strips(strips, n - 1) + in_tabs(strips[n - 1].tabs, strips[n - 1].tabs.len() as int)
    }
}

pub open spec fn all_panels(strips: Seq<StripModel>) -> Seq<PanelModel> {
    in_strips(strips, strips.len() as int)
}

pub open spec fn seen(held: Seq<&PanelDocument>) -> Seq<PanelModel> {
    Seq::new(held.len(), |i: int| held[i]@)
}

fn add_strip<'a>(out: &mut Vec<&'a PanelDocument>, strip: &'a Strip)
    ensures
        seen(final(out)@) == seen(old(out)@) + in_tabs(strip@.tabs, strip@.tabs.len() as int),
{
    let ghost first = seen(out@);
    let mut at: usize = 0;
    assert(first + in_tabs(strip@.tabs, 0) =~= first);
    while at < strip.tabs.len()
        invariant
            at <= strip.tabs@.len(),
            seen(out@) == first + in_tabs(strip@.tabs, at as int),
        decreases strip.tabs@.len() - at,
    {
        let tab = &strip.tabs[at];
        let ghost before = seen(out@);
        let mut i: usize = 0;
        assert(before + tab@.below.entries.take(0) =~= before);
        while i < tab.below.entries.len()
            invariant
                i <= tab.below.entries@.len(),
                seen(out@) == before + tab@.below.entries.take(i as int),
            decreases tab.below.entries@.len() - i,
        {
            let ghost held = seen(out@);
            out.push(&tab.below.entries[i]);
            assert(seen(out@) =~= held.push(tab@.below.entries[i as int]));
            assert(seen(out@) =~= before + tab@.below.entries.take(i + 1));
            i += 1;
        }
        proof {
            assert(tab@.below.entries.take(i as int) =~= tab@.below.entries);
            assert(strip@.tabs[at as int] == tab@);
            assert(seen(out@) =~= first + in_tabs(strip@.tabs, at + 1));
        }
        at += 1;
    }
}

/// All panels, pane by pane and tab by tab.
pub fn entries(strips: &Vec<Strip>) -> (out: Vec<&PanelDocument>)
    ensures
        seen(out@) == all_panels(tab::strip_models(strips@)),
{
    let ghost all = tab::strip_models(strips@);
    let mut out: Vec<&PanelDocument> = Vec::new();
    let mut at: usize = 0;
    assert(seen(out@) =~= in_strips(all, 0));
    while at < strips.len()
        invariant
            at <= strips@.len(),
            all == tab::strip_models(strips@),
            seen(out@) == in_strips(all, at as int),
        decreases strips@.len() - at,
    {
        assert(all[at as int] == strips@[at as int]@);
        add_strip(&mut out, &strips[at]);
        at += 1;
    }
    out
}

/// The number of an untitled document, 0 where it has a file: those of a tab and
/// its panels, for the first `n` tabs.
pub open spec fn numbers_in_tabs(tabs: Seq<PaneTabModel>, n: int) -> Seq<u32>
    decreases n,
{
    if n <= 0 {
        Seq::empty()
    } else {
        numbers_in_tabs(tabs, n - 1).push(tabs[n - 1].document.untitled) + Seq::new(
            tabs[n - 1].below.entries.len(),
            |i: int| tabs[n - 1].below.entries[i].document.untitled,
        )
    }
}

pub open spec fn numbers_in_strips(strips: Seq<StripModel>, n: int) -> Seq<u32>
    decreases n,
{
    if n <= 0 {
        Seq::empty()
    } else {
        numbers_in_strips(strips, n - 1) + numbers_in_tabs(
            strips[n - 1].tabs,
            strips[n - 1].tabs.len() as int,
        )
    }
}

fn add_numbers(out: &mut Vec<u32>, strip: &Strip)
    ensures
        final(out)@ == old(out)@ + numbers_in_tabs(strip@.tabs, strip@.tabs.len() as int),
{
    let ghost first = out@;
    let mut at: usize = 0;
    assert(first + numbers_in_tabs(strip@.tabs, 0) =~= first);
    while at < strip.tabs.len()
        invariant
            at <= strip.tabs@.len(),
            out@ == first + numbers_in_tabs(strip@.tabs, at as int),
        decreases strip.tabs@.len() - at,
    {
        let tab = &strip.tabs[at];
        let ghost before = out@;
        out.push(tab.document.untitled);
        let ghost all = Seq::new(
            tab@.below.entries.len(),
            |i: int| tab@.below.entries[i].document.untitled,
        );
        let mut i: usize = 0;
        assert(before.push(tab.document.untitled) + all.take(0) =~= out@);
        while i < tab.below.entries.len()
            invariant
                i <= tab.below.entries@.len(),
                all == Seq::new(
                    tab@.below.entries.len(),
                    |i: int| tab@.below.entries[i].document.untitled,
                ),
                out@ == before.push(tab.document.untitled) + all.take(i as int),
            decreases tab.below.entries@.len() - i,
        {
            out.push(tab.below.entries[i].document.untitled);
            assert(all[i as int] == tab@.below.entries[i as int].document.untitled);
            assert(out@ =~= before.push(tab.document.untitled) + all.take(i + 1));
            i += 1;
        }
        proof {
            assert(all.take(i as int) =~= all);
            assert(strip@.tabs[at as int] == tab@);
            assert(out@ =~= first + numbers_in_tabs(strip@.tabs, at + 1));
        }
        at += 1;
    }
}

/// The numbers that untitled documents have already, those of panels included.
pub fn taken_numbers(strips: &Vec<Strip>) -> (out: Vec<u32>)
    ensures
        out@ == numbers_in_strips(tab::strip_models(strips@), strips@.len() as int),
{
    let ghost all = tab::strip_models(strips@);
    let mut out: Vec<u32> = Vec::new();
    let mut at: usize = 0;
    assert(out@ =~= numbers_in_strips(all, 0));
    while at < strips.len()
        invariant
            at <= strips@.len(),
            all == tab::strip_models(strips@),
            out@ == numbers_in_strips(all, at as int),
        decreases strips@.len() - at,
    {
        assert(all[at as int] == strips@[at as int]@);
        add_numbers(&mut out, &strips[at]);
        at += 1;
    }
    out
}

/// The output of a shell is taken in by some panel.
pub open spec fn captured(all: Seq<PanelModel>, session: u64) -> bool {
    exists|i: int| 0 <= i < all.len() && (#[trigger] all[i]).capture == Some(session)
}

/// [`captured`], of the panels.
pub fn is_captured(all: &Vec<&PanelDocument>, session: u64) -> (out: bool)
    ensures
        out == captured(seen(all@), session),
{
    let mut at: usize = 0;
    while at < all.len()
        invariant
            at <= all@.len(),
            forall|i: int| 0 <= i < at ==> (#[trigger] seen(all@)[i]).capture != Some(session),
        decreases all@.len() - at,
    {
        assert(seen(all@)[at as int] == all@[at as int]@);
        if all[at].capture == Some(session) {
            return true;
        }
        at += 1;
    }
    false
}

/// A file is open in some panel.
pub open spec fn has_file(all: Seq<PanelModel>, path: Seq<char>) -> bool {
    exists|i: int| 0 <= i < all.len() && (#[trigger] all[i]).document.is_at(path)
}

/// [`has_file`], of the panels.
pub fn holds_file(all: &Vec<&PanelDocument>, path: &str) -> (out: bool)
    ensures
        out == has_file(seen(all@), path@),
{
    let mut at: usize = 0;
    while at < all.len()
        invariant
            at <= all@.len(),
            forall|i: int|
                0 <= i < at ==> !(#[trigger] seen(all@)[i]).document.is_at(path@),
        decreases all@.len() - at,
    {
        assert(seen(all@)[at as int] == all@[at as int]@);
        if all[at].document.is_at(path) {
            return true;
        }
        at += 1;
    }
    false
}

/// A panel writes its output to a file: the file is called so, whatever its
/// case, or is the same on the disk.
pub open spec fn writes_to(entry: PanelModel, path: Seq<char>, same: Seq<u64>) -> bool {
    entry.file_log && entry.file_path is Some && (text::alike(entry.file_path->0, path)
        || same.contains(entry.id))
}

/// Some panel writes its output to a file.
pub open spec fn is_written(all: Seq<PanelModel>, path: Seq<char>, same: Seq<u64>) -> bool {
    exists|i: int| 0 <= i < all.len() && writes_to(#[trigger] all[i], path, same)
}

/// [`is_written`]: whether output is being written to a file. `same` holds the
/// panels whose file is the same on the disk, by whatever name.
pub fn logging_to(all: &Vec<&PanelDocument>, path: &str, same: &Vec<u64>) -> (out: bool)
    ensures
        out == is_written(seen(all@), path@, same@),
{
    let mut at: usize = 0;
    while at < all.len()
        invariant
            at <= all@.len(),
            forall|i: int| 0 <= i < at ==> !writes_to(#[trigger] seen(all@)[i], path@, same@),
        decreases all@.len() - at,
    {
        assert(seen(all@)[at as int] == all@[at as int]@);
        let entry = all[at];
        if entry.file_log {
            if let Some(held) = &entry.file_path {
                if text::is_alike(held.as_str(), path) || tab::is_among(same, entry.id) {
                    return true;
                }
            }
        }
        at += 1;
    }
    false
}

/// A panel with this number is there.
pub open spec fn is_there(all: Seq<PanelModel>, id: u64) -> bool {
    exists|i: int| 0 <= i < all.len() && (#[trigger] all[i]).id == id
}

/// The place of the panel with this number.
pub fn place_of(all: &Vec<&PanelDocument>, id: u64) -> (out: Option<usize>)
    ensures
        match out {
            Some(at) => at < all@.len() && seen(all@)[at as int].id == id && forall|i: int|
                0 <= i < at ==> (#[trigger] seen(all@)[i]).id != id,
            None => !is_there(seen(all@), id),
        },
{
    let mut at: usize = 0;
    while at < all.len()
        invariant
            at <= all@.len(),
            forall|i: int| 0 <= i < at ==> (#[trigger] seen(all@)[i]).id != id,
        decreases all@.len() - at,
    {
        assert(seen(all@)[at as int] == all@[at as int]@);
        if all[at].id == id {
            return Some(at);
        }
        at += 1;
    }
    None
}

} // verus!
