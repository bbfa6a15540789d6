//! What the panels promise as a whole.
use crate::terminal_appearance::style::StyleModel;
use crate::terminal_panels::changes;
use crate::terminal_panels::steps::{self, CloseAsk, Shells};
use crate::terminal_panels::tab::{BelowModel, PanelModel};
use vstd::prelude::*;

verus! {

/// What a panel has taken in so far: the text that it began with, what has gone
/// to its file since, and the tail that may still change.
pub open spec fn holds(entry: PanelModel, first: Seq<char>, written: Seq<char>) -> bool {
    &&& entry.capture is Some
    &&& 0 <= entry.pending_tail <= entry.text.len()
    &&& entry.text == first + written + entry.tail()
}

/// As output begins to be taken in, all of the text is what it began with.
pub proof fn taking_in_begins(entry: PanelModel, session: u64, log_name: Seq<char>)
    ensures
        holds(entry.capturing(session, log_name), entry.text, Seq::empty()),
{
    let after = entry.capturing(session, log_name);
    assert(after.tail() =~= Seq::empty());
    assert(after.text =~= entry.text + Seq::<char>::empty() + after.tail());
}

/// Whatever is taken in, the file gets exactly the lines that will not change any
/// more.
pub proof fn the_file_gets_what_is_settled(
    entry: PanelModel,
    first: Seq<char>,
    written: Seq<char>,
    completed: Seq<char>,
    pending: Seq<char>,
)
    requires
        holds(entry, first, written),
    ensures
        holds(entry.taken_in(completed, pending), first, written + completed),
        entry.taken_in(completed, pending).tail() == pending,
{
    let after = entry.taken_in(completed, pending);
    let kept = entry.text.take(entry.settled());
    assert(kept =~= first + written);
    if entry.is_news(completed, pending) {
        assert(after.text =~= first + written + completed + pending);
        assert(after.tail() =~= pending);
    } else {
        assert(completed =~= Seq::empty());
        assert(after.text =~= entry.text);
        assert(after.tail() =~= pending);
    }
    assert(after.text =~= first + (written + completed) + after.tail());
}

/// Once the taking in has ended and the tail is written, the file holds all that
/// the panel took in.
pub proof fn the_file_ends_as_the_panel(
    entry: PanelModel,
    first: Seq<char>,
    written: Seq<char>,
)
    requires
        holds(entry, first, written),
    ensures
        entry.stopped().text == first + (written + entry.tail()),
        entry.stopped().viewer == entry.before_read_only,
        entry.stopped().capture is None,
{
    assert(entry.text =~= first + (written + entry.tail()));
}

/// A file that cannot be written takes nothing from the panel: its text stays,
/// and goes on growing.
pub proof fn a_lost_file_keeps_the_text(
    entry: PanelModel,
    error: Seq<char>,
    completed: Seq<char>,
    pending: Seq<char>,
)
    ensures
        entry.unlogged(error).text == entry.text,
        entry.unlogged(error).capture == entry.capture,
        entry.unlogged(error).taken_in(completed, pending).text == entry.taken_in(
            completed,
            pending,
        ).text,
{
}

/// A panel that output is taken into is never closed without a question.
pub proof fn taking_in_is_never_lost_unasked(entry: PanelModel, shells: Shells)
    requires
        entry.capture is Some || entry.edited(),
    ensures
        steps::close_ask(entry, shells) == (CloseAsk::Ask { save: true }),
{
}

proof fn others_are_others(entries: Seq<PanelModel>, id: u64, n: int)
    requires
        0 <= n <= entries.len(),
    ensures
        forall|i: int|
            0 <= i < changes::others(entries, id, n).len() ==> (#[trigger] changes::others(
                entries,
                id,
                n,
            )[i]).id != id && entries.contains(changes::others(entries, id, n)[i]),
        forall|k: int|
            0 <= k < n && (#[trigger] entries[k]).id != id ==> changes::others(
                entries,
                id,
                n,
            ).contains(entries[k]),
    decreases n,
{
    if n > 0 {
        others_are_others(entries, id, n - 1);
        let before = changes::others(entries, id, n - 1);
        let after = changes::others(entries, id, n);
        assert forall|k: int| 0 <= k < n && (#[trigger] entries[k]).id != id implies after.contains(
            entries[k],
        ) by {
            if k < n - 1 {
                let i = choose|i: int| 0 <= i < before.len() && before[i] == entries[k];
                assert(after[i] == entries[k]);
            } else {
                assert(after[after.len() - 1] == entries[k]);
            }
        }
        assert forall|i: int| 0 <= i < after.len() implies (#[trigger] after[i]).id != id
            && entries.contains(after[i]) by {
            if i < before.len() {
                assert(after[i] == before[i]);
            } else {
                assert(after[i] == entries[n - 1]);
            }
        }
    }
}

/// Closing a panel takes that panel and no other, and what is below shows one
/// that is left.
pub proof fn closing_takes_one_panel(below: BelowModel, id: u64)
    requires
        0 <= below.active,
    ensures
        !below.closed(id).has(id),
        forall|k: int|
            0 <= k < below.entries.len() && (#[trigger] below.entries[k]).id != id ==> below.closed(
                id,
            ).entries.contains(below.entries[k]),
        below.closed(id).entries.len() > 0 ==> below.closed(id).current() is Some,
        below.closed(id).entries.len() == 0 ==> !below.closed(id).open,
{
    others_are_others(below.entries, id, below.entries.len() as int);
    let left = changes::others(below.entries, id, below.entries.len() as int);
    assert(below.closed(id).entries == left);
}

/// Taking the papers away leaves the rest of a look, and done twice does no more.
pub proof fn papers_go_alone(
    look: Option<StyleModel>,
)
    ensures
        changes::unpapered(changes::unpapered(look)) == changes::unpapered(look),
        look is Some ==> ({
            let after = changes::unpapered(look)->0;
            after.bold == look->0.bold && after.italic == look->0.italic && after.transparency
                == look->0.transparency && after.family == look->0.family && !after.paper_own
        }),
{
}

} // verus!
