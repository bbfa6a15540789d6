//! What becomes of the panels below a terminal, said of their texts and marks.
use crate::saving::document::{DocumentModel, ExternalChange};
use crate::terminal_appearance::style::StyleModel;
use crate::terminal_panels::capture;
use crate::terminal_panels::changes;
use crate::terminal_panels::entries;
use crate::terminal_panels::page;
use crate::terminal_panels::steps::{self, CloseAsk, ImportStep, Moment, PanelStep, Shells};
use crate::terminal_panels::tab::{BelowModel, PaneTabModel, PanelModel, StripModel};
use crate::text;
use vstd::prelude::*;

verus! {

/// While output is taken in, the text is only read. Once that ends it is as it
/// was before, and nothing of the text is gone.
pub proof fn taking_in_only_reads(entry: PanelModel, session: u64, log_name: Seq<char>)
    ensures
        entry.capturing(session, log_name).viewer,
        entry.capturing(session, log_name).capture == Some(session),
        entry.capturing(session, log_name).log_name == Some(log_name),
        entry.capturing(session, log_name).text == entry.text,
        entry.capturing(session, log_name).stopped().viewer == entry.viewer,
        entry.capturing(session, log_name).stopped().capture is None,
        entry.capturing(session, log_name).stopped().text == entry.text,
        !entry.stopped().file_log,
        entry.capture is None ==> entry.stopped().viewer == entry.viewer,
{
}

/// What has settled of a text stays in front. Behind it stand the lines that are
/// complete, and last the one that may still change.
pub proof fn output_comes_in_behind(
    entry: PanelModel,
    settled: Seq<char>,
    before: Seq<char>,
    completed: Seq<char>,
    pending: Seq<char>,
)
    requires
        entry.capture is Some,
        entry.text == settled + before,
        entry.pending_tail == before.len(),
    ensures
        entry.collected(Some((completed, pending))).text == settled + completed + pending,
        entry.collected(Some((completed, pending))).pending_tail == pending.len(),
        entry.collected(Some((completed, pending))).edited() <==> entry.edited() || completed.len()
            > 0 || pending != before,
        entry.collected(Some((completed, pending))).viewer == entry.viewer,
        entry.collected(Some((completed, pending))).capture == entry.capture,
{
    assert(entry.text.take(entry.settled()) =~= settled);
    assert(entry.tail() =~= before);
    if !entry.is_news(completed, pending) {
        assert(completed =~= Seq::empty());
        assert(settled + completed + pending =~= entry.text);
    }
}

/// Where there is no output, and in a panel that takes none in, nothing changes.
pub proof fn no_output_changes_nothing(entry: PanelModel, completed: Seq<char>, pending: Seq<char>)
    ensures
        entry.collected(None) == entry,
        entry.capture is None ==> entry.collected(Some((completed, pending))) == entry,
{
}

/// A place that is said in bytes is in front of the character that goes beyond
/// it.
pub proof fn a_place_is_in_front_of_its_bytes(text: Seq<char>, byte: int)
    requires
        byte >= 0,
    ensures
        ({
            let at = capture::floor_place(text, byte);
            &&& 0 <= at <= text.len()
            &&& text::size(text.take(at)) <= byte
            &&& at < text.len() ==> text::size(text.take(at + 1)) > byte
        }),
    decreases text.len(),
{
    let at = capture::floor_place(text, byte);
    if text.len() > 0 {
        let first = text.take(1);
        assert(first.drop_last() =~= Seq::empty());
        assert(text::size(first) == text::size(first.drop_last()) + text::utf8_len(text[0]));
    }
    if text.len() > 0 && byte >= text::utf8_len(text[0]) {
        let rest = text.skip(1);
        a_place_is_in_front_of_its_bytes(rest, byte - text::utf8_len(text[0]));
        assert(text.take(at) =~= text.take(1) + rest.take(at - 1));
        text::size_adds(text.take(1), rest.take(at - 1));
        if at < text.len() {
            assert(text.take(at + 1) =~= text.take(1) + rest.take(at));
            text::size_adds(text.take(1), rest.take(at));
        }
    } else {
        assert(text.take(0) =~= Seq::empty());
    }
}

/// Each order has its number. One that is for the panel needs a panel.
pub proof fn orders_have_their_numbers(
    strip: StripModel,
    action: i32,
    wanted: Seq<char>,
    shells: Shells,
)
    ensures
        ({
            let step = steps::step_for(strip, action, wanted, shells);
            let at = strip.active;
            let has_tab = 0 <= at < strip.tabs.len();
            let tab = strip.tabs[at];
            let has_panel = has_tab && 0 <= tab.below.active < tab.below.entries.len();
            let panel = tab.below.entries[tab.below.active];
            &&& step is RequestClose <==> action == 2
            &&& step is Add <==> action == 1
            &&& action == 1 ==> step == (PanelStep::Add {
                shell: !(has_tab && tab.terminal is Some),
            })
            &&& step is Save <==> (action == 3 || action == 6) && has_panel
            &&& step is Save ==> step == (PanelStep::Save { ask: action == 6 })
            &&& step is Stop <==> has_panel && (action == 5 || (action == 4 && panel.capture
                is Some))
            &&& step is Stop ==> step == (PanelStep::Stop { write: action == 4 })
            &&& step is Import <==> action == 7 || action == 8 || action == 9
            &&& step is StartFile <==> action == 10
            &&& step is OpenFile <==> action == 11
            &&& step is Switch ==> action == 12 && has_panel && panel.shell is Some
            &&& action == 0 ==> step is Show
            &&& action < 0 || action > 12 ==> step is Nothing
        }),
{
}

/// A shell is replaced by one of another name only. The writer is asked where
/// that ends one that still runs.
pub proof fn a_shell_gives_way_to_another(entry: PanelModel, wanted: Seq<char>, shells: Shells)
    ensures
        ({
            let step = steps::switch_step(entry, wanted, shells);
            &&& step is Switch <==> entry.shell is Some && page::shell_name(
                shells.names@,
                entry.shell->0,
            ) != wanted
            &&& step is Switch ==> step == (PanelStep::Switch {
                ask: shells.confirm && !shells.finished@.contains(entry.shell->0),
            })
        }),
{
}

/// A shell is called what the first entry with its number says.
pub proof fn a_shell_has_its_name(names: Seq<(u64, String)>, at: int)
    requires
        0 <= at < names.len(),
        forall|k: int| 0 <= k < at ==> (#[trigger] names[k]).0 != names[at].0,
    ensures
        page::shell_name(names, names[at].0) == names[at].1@,
{
    the_first_name_counts(names, at, 0);
}

proof fn the_first_name_counts(names: Seq<(u64, String)>, at: int, from: int)
    requires
        0 <= from <= at < names.len(),
        forall|k: int| 0 <= k < at ==> (#[trigger] names[k]).0 != names[at].0,
    ensures
        page::named(names, names[at].0, from) == names[at].1@,
    decreases at - from,
{
    if from < at {
        the_first_name_counts(names, at, from + 1);
    }
}

/// Turning to a panel shows that one, and changes none.
pub proof fn turning_shows_the_panel(strip: StripModel, index: i32)
    requires
        0 <= strip.active < strip.tabs.len(),
        0 <= index < strip.tabs[strip.active].below.entries.len(),
    ensures
        ({
            let after = steps::changed_by(strip, 0, index);
            let below = strip.tabs[strip.active].below;
            &&& after.active == strip.active
            &&& after.tabs.len() == strip.tabs.len()
            &&& after.tabs[strip.active].below.active == index
            &&& after.tabs[strip.active].below.current() == Some(below.entries[index as int])
            &&& after.tabs[strip.active].below.entries == below.entries
            &&& forall|k: int|
                0 <= k < strip.tabs.len() && k != strip.active ==> #[trigger] after.tabs[k]
                    == strip.tabs[k]
        }),
{
}

/// Whether the text of a panel is written changes to and fro, and leaves the
/// other panels alone; while output is taken in it does not change.
pub proof fn reading_turns_to_and_fro(strip: StripModel, index: i32)
    requires
        0 <= strip.active < strip.tabs.len(),
        0 <= strip.tabs[strip.active].below.active < strip.tabs[strip.active].below.entries.len(),
    ensures
        ({
            let below = strip.tabs[strip.active].below;
            let entry = below.entries[below.active];
            let after = steps::changed_by(strip, 4, index);
            let next = after.tabs[strip.active].below;
            &&& entry.capture is Some ==> after == strip
            &&& entry.capture is None ==> next.entries[below.active].viewer == !entry.viewer
            &&& next.entries[below.active].text == entry.text
            &&& next.entries.len() == below.entries.len()
            &&& forall|k: int|
                0 <= k < below.entries.len() && k != below.active ==> #[trigger] next.entries[k]
                    == below.entries[k]
            &&& entry.capture is None ==> steps::changed_by(after, 4, index).tabs[strip.active].below.entries
                == below.entries
        }),
{
    let below = strip.tabs[strip.active].below;
    let after = steps::changed_by(strip, 4, index);
    if below.entries[below.active].capture is None {
        assert(steps::changed_by(after, 4, index).tabs[strip.active].below.entries
            =~= below.entries);
    }
}

/// The output of a terminal is taken in by one panel at most.
pub proof fn output_goes_to_one_panel(strip: StripModel, all: Seq<PanelModel>, text: Seq<char>)
    requires
        0 <= strip.active < strip.tabs.len(),
        strip.tabs[strip.active].terminal is Some,
    ensures
        ({
            let source = strip.tabs[strip.active].terminal->0;
            let taken = exists|i: int|
                0 <= i < all.len() && (#[trigger] all[i]).capture == Some(source);
            &&& taken ==> steps::import_step(strip, all, 7, text) is TellCaptured
            &&& !taken ==> steps::import_step(strip, all, 7, text) == ImportStep::Capture(source)
        }),
{
}

/// All there is goes to a panel of its own; what is selected goes to the panel
/// that is shown, unless that is only read. Nothing comes of an empty text.
pub proof fn copies_have_their_place(
    strip: StripModel,
    all: Seq<PanelModel>,
    text: Seq<char>,
)
    requires
        0 <= strip.active < strip.tabs.len(),
        strip.tabs[strip.active].terminal is Some,
    ensures
        ({
            let below = strip.tabs[strip.active].below;
            let shown = 0 <= below.active < below.entries.len();
            let every = steps::import_step(strip, all, 8, text);
            let chosen = steps::import_step(strip, all, 9, text);
            &&& text.len() == 0 ==> every is Nothing && chosen is Nothing
            &&& text.len() > 0 ==> every is AddText
            &&& text.len() > 0 && shown && !below.entries[below.active].viewer ==> chosen
                is InsertText
            &&& text.len() > 0 && shown && below.entries[below.active].viewer ==> chosen
                is TellReadOnly
        }),
{
}

/// A panel closes unasked just where nothing of it is lost: its text is saved, no
/// output is taken in, and no shell of its own is ended that is asked about.
pub proof fn closing_asks_where_something_is_lost(entry: PanelModel, shells: Shells)
    ensures
        ({
            let unsaved = entry.document.state.edited || entry.capture is Some;
            let runs = entry.shell is Some && !shells.finished@.contains(entry.shell->0);
            &&& steps::close_ask(entry, shells) is Close <==> !unsaved && !(shells.confirm && runs)
            &&& unsaved ==> steps::close_ask(entry, shells) == (CloseAsk::Ask { save: true })
            &&& !unsaved && shells.confirm && runs ==> steps::close_ask(entry, shells) == (
            CloseAsk::Ask { save: false })
        }),
{
}

/// The panels that stay when one closes are those with other numbers, in the
/// order they were in.
pub proof fn the_others_stay_in_order(entries: Seq<PanelModel>, id: u64)
    ensures
        ({
            let left = changes::others(entries, id, entries.len() as int);
            &&& forall|k: int| 0 <= k < left.len() ==> (#[trigger] left[k]).id != id
            &&& (forall|k: int| 0 <= k < entries.len() ==> (#[trigger] entries[k]).id != id)
                ==> left == entries
            &&& forall|at: int|
                0 <= at < entries.len() && (forall|k: int|
                    0 <= k < entries.len() && k != at ==> (#[trigger] entries[k]).id != id)
                    && entries[at].id == id ==> left == #[trigger] entries.remove(at)
        }),
{
    let n = entries.len() as int;
    others_are_the_others(entries, id, n);
    if forall|k: int| 0 <= k < entries.len() ==> (#[trigger] entries[k]).id != id {
        none_goes(entries, id, n);
        assert(entries.take(n) =~= entries);
    }
    assert forall|at: int|
        0 <= at < entries.len() && (forall|k: int|
            0 <= k < entries.len() && k != at ==> (#[trigger] entries[k]).id != id)
            && entries[at].id == id implies changes::others(entries, id, n)
        == #[trigger] entries.remove(at) by {
        one_goes(entries, id, at, n);
    }
}

proof fn others_are_the_others(entries: Seq<PanelModel>, id: u64, n: int)
    requires
        0 <= n <= entries.len(),
    ensures
        forall|k: int|
            0 <= k < changes::others(entries, id, n).len() ==> (#[trigger] changes::others(
                entries,
                id,
                n,
            )[k]).id != id,
    decreases n,
{
    if n > 0 {
        others_are_the_others(entries, id, n - 1);
    }
}

proof fn none_goes(entries: Seq<PanelModel>, id: u64, n: int)
    requires
        0 <= n <= entries.len(),
        forall|k: int| 0 <= k < n ==> (#[trigger] entries[k]).id != id,
    ensures
        changes::others(entries, id, n) == entries.take(n),
    decreases n,
{
    if n > 0 {
        none_goes(entries, id, n - 1);
        assert(entries.take(n) =~= entries.take(n - 1).push(entries[n - 1]));
    } else {
        assert(entries.take(0) =~= Seq::empty());
    }
}

proof fn one_goes(entries: Seq<PanelModel>, id: u64, at: int, n: int)
    requires
        0 <= at < n <= entries.len(),
        entries[at].id == id,
        forall|k: int| 0 <= k < entries.len() && k != at ==> (#[trigger] entries[k]).id != id,
    ensures
        changes::others(entries, id, n) == entries.take(n).remove(at),
        n == entries.len() ==> changes::others(entries, id, n) == entries.remove(at),
    decreases n,
{
    if n == at + 1 {
        none_goes(entries, id, at);
        assert(entries.take(n).remove(at) =~= entries.take(at));
    } else {
        one_goes(entries, id, at, n - 1);
        assert(entries.take(n).remove(at) =~= entries.take(n - 1).remove(at).push(entries[n - 1]));
    }
    if n == entries.len() {
        assert(entries.take(n) =~= entries);
    }
}

/// A panel that is added is the last one, and is shown with its text.
pub proof fn an_added_panel_is_shown(strip: StripModel, entry: PanelModel)
    requires
        0 <= strip.active < strip.tabs.len(),
    ensures
        ({
            let below = strip.tabs[strip.active].below;
            let after = strip.with_panel(entry).tabs[strip.active].below;
            &&& after.entries == below.entries.push(entry)
            &&& after.active == below.entries.len()
            &&& after.draft == entry.text
            &&& after.shell == entry.shell
        }),
{
}

/// What is written below a terminal is what its panel holds, but where the panel
/// is only read.
pub proof fn what_is_written_is_held(tab: PaneTabModel)
    requires
        0 <= tab.below.active < tab.below.entries.len(),
    ensures
        ({
            let at = tab.below.active;
            let before = tab.below.entries[at];
            let after = tab.synced().below.entries[at];
            &&& after.shell == tab.below.shell
            &&& tab.terminal is Some && !before.viewer ==> after.text == tab.below.draft
            &&& tab.terminal is None || before.viewer ==> after.text == before.text
            &&& after.text != before.text ==> after.document.state.edited
            &&& forall|k: int|
                0 <= k < tab.below.entries.len() && k != at ==> #[trigger] tab.synced().below.entries[k]
                    == tab.below.entries[k]
            &&& tab.terminal is Some ==> tab.drafted().below.draft == before.text
        }),
{
}

/// A shell or a look is given to the panel that it is for, and to no other.
pub proof fn a_change_is_for_one_panel(
    tab: PaneTabModel,
    id: u64,
    session: u64,
    look: Option<StyleModel>,
    k: int,
)
    requires
        0 <= k < tab.below.entries.len(),
    ensures
        ({
            let before = tab.below.entries[k];
            let shelled = changes::reshelled(tab, id, session).below.entries[k];
            let styled = changes::restyled(tab, id, look).below.entries[k];
            &&& before.id != id ==> shelled == before && styled == before
            &&& before.id == id ==> shelled.shell == Some(session) && styled.style == look
            &&& shelled.text == before.text && styled.text == before.text
            &&& shelled.style == before.style && styled.shell == before.shell
        }),
{
}

/// A file that the output of a panel goes to is one that is written.
pub proof fn a_path_is_written_by_a_panel(
    all: Seq<PanelModel>,
    path: Seq<char>,
    same: Seq<u64>,
    at: int,
)
    requires
        0 <= at < all.len(),
        all[at].file_log,
        all[at].file_path == Some(path),
    ensures
        entries::is_written(all, path, same),
{
    assert(entries::writes_to(all[at], path, same));
}

/// The title of a panel begins with what it is called; a star says that it is
/// changed, and a mark that output is taken in.
pub proof fn a_title_tells_the_marks(entry: PanelModel, names: Seq<(u64, String)>)
    ensures
        ({
            let base = if entry.file_log && entry.file_name is Some {
                entry.file_name->0
            } else if entry.shell is Some {
                page::shell_name(names, entry.shell->0)
            } else {
                entry.title
            };
            let title = page::panel_title(entry, names);
            &&& title.len() >= base.len()
            &&& title.take(base.len() as int) == base
            &&& !entry.document.state.edited && entry.capture is None ==> title == base
            &&& entry.document.state.edited ==> title.len() > base.len() && title[base.len() as int]
                == '*'
            &&& entry.capture is Some ==> title.skip(
                base.len() as int + if entry.document.state.edited {
                    1int
                } else {
                    0
                },
            ) == if entry.file_log {
                " ● File"@
            } else {
                " ● Panel"@
            }
        }),
{
    let base = if entry.file_log && entry.file_name is Some {
        entry.file_name->0
    } else if entry.shell is Some {
        page::shell_name(names, entry.shell->0)
    } else {
        entry.title
    };
    let title = page::panel_title(entry, names);
    assert(title.take(base.len() as int) =~= base);
    let mark = if entry.file_log {
        " ● File"@
    } else {
        " ● Panel"@
    };
    if entry.capture is Some {
        if entry.document.state.edited {
            assert(title =~= base.push('*') + mark);
            assert(title.skip(base.len() as int + 1) =~= mark);
        } else {
            assert(title =~= base + mark);
            assert(title.skip(base.len() as int) =~= mark);
        }
    }
}

/// The panels of all panes stand one behind the other: none is missing.
pub proof fn every_panel_is_listed(strips: Seq<StripModel>, pane: int, tab: int, at: int)
    requires
        0 <= pane < strips.len(),
        0 <= tab < strips[pane].tabs.len(),
        0 <= at < strips[pane].tabs[tab].below.entries.len(),
    ensures
        entries::all_panels(strips).contains(strips[pane].tabs[tab].below.entries[at]),
{
    let entry = strips[pane].tabs[tab].below.entries[at];
    let tabs = strips[pane].tabs;
    panels_of_tabs(tabs, tab, at, tabs.len() as int);
    panels_of_strips(strips, pane, entry, strips.len() as int);
}

proof fn panels_of_tabs(tabs: Seq<PaneTabModel>, tab: int, at: int, n: int)
    requires
        0 <= tab < n <= tabs.len(),
        0 <= at < tabs[tab].below.entries.len(),
    ensures
        entries::in_tabs(tabs, n).contains(tabs[tab].below.entries[at]),
    decreases n,
{
    let entry = tabs[tab].below.entries[at];
    let before = entries::in_tabs(tabs, n - 1);
    let after = entries::in_tabs(tabs, n);
    if tab < n - 1 {
        panels_of_tabs(tabs, tab, at, n - 1);
        let k = choose|k: int| 0 <= k < before.len() && before[k] == entry;
        assert(after[k] == entry);
    } else {
        assert(after[before.len() + at] == entry);
    }
}

proof fn panels_of_strips(strips: Seq<StripModel>, pane: int, entry: PanelModel, n: int)
    requires
        0 <= pane < n <= strips.len(),
        entries::in_tabs(strips[pane].tabs, strips[pane].tabs.len() as int).contains(entry),
    ensures
        entries::in_strips(strips, n).contains(entry),
    decreases n,
{
    let before = entries::in_strips(strips, n - 1);
    let after = entries::in_strips(strips, n);
    if pane < n - 1 {
        panels_of_strips(strips, pane, entry, n - 1);
        let k = choose|k: int| 0 <= k < before.len() && before[k] == entry;
        assert(after[k] == entry);
    } else {
        let here = entries::in_tabs(strips[pane].tabs, strips[pane].tabs.len() as int);
        let k = choose|k: int| 0 <= k < here.len() && here[k] == entry;
        assert(after[before.len() + k] == entry);
    }
}

/// A file that changed outside is not written over, nor one that another document has;
/// every other is written.
pub proof fn a_save_is_checked(
    entry: PanelModel,
    all: Seq<PanelModel>,
    documents: Seq<DocumentModel>,
    target: Seq<char>,
)
    ensures
        ({
            let check = steps::save_check(entry, all, documents, target);
            let changed = entry.document.is_at(target) && entry.document.state.change
                != ExternalChange::Unchanged;
            let panel = exists|i: int|
                0 <= i < all.len() && (#[trigger] all[i]).document.state.id
                    != entry.document.state.id && all[i].document.is_at(target);
            &&& changed <==> check is TellChanged
            &&& !changed && panel ==> check is TellTaken
            &&& !changed && !panel && documents.len() == 0 ==> check is Write
        }),
{
}

/// The first panel of a tab takes over what is written below it, and its shell.
pub proof fn a_first_panel_takes_over(
    below: BelowModel,
    id: u64,
    document: DocumentModel,
    title: Seq<char>,
    style: Option<StyleModel>,
)
    ensures
        ({
            let panel = changes::first_panel(below, id, document, title, style);
            &&& panel.id == id
            &&& panel.title == title
            &&& panel.text == below.draft
            &&& panel.shell == below.shell
            &&& panel.style == style
            &&& panel.capture is None
            &&& !panel.viewer
            &&& below.draft.len() > 0 ==> panel.document.state.edited
        }),
{
    if below.draft.len() == 0 {
        assert(below.draft =~= Seq::empty());
    }
}

/// A panel is closed in the first pane that has it.
pub proof fn a_panel_is_closed_where_it_is(
    strips: Seq<StripModel>,
    id: u64,
    at: int,
    from: int,
    asked: int,
)
    requires
        0 <= from <= at < strips.len(),
        strips[at].has(id),
        forall|k: int| from <= k < at ==> !(#[trigger] strips[k]).has(id),
    ensures
        changes::pane_of(strips, id, from, asked) == at,
    decreases at - from,
{
    if from < at {
        assert(!strips[from].has(id));
        a_panel_is_closed_where_it_is(strips, id, at, from + 1, asked);
    }
}

/// What output is called that is saved: the day and the time, each part with its zeros.
pub proof fn a_log_is_called_by_its_moment(now: Moment)
    requires
        now.year < 10000,
        now.month < 100,
        now.day < 100,
        now.hour < 100,
        now.minute < 100,
        now.second < 100,
    ensures
        ({
            let title = steps::log_title(now);
            &&& title.len() == 28
            &&& title[9] as u32 - 48 == now.year / 1000
            &&& title[10] as u32 - 48 == now.year / 100 % 10
            &&& title[11] as u32 - 48 == now.year / 10 % 10
            &&& title[12] as u32 - 48 == now.year % 10
            &&& title[13] as u32 - 48 == now.month / 10
            &&& title[14] as u32 - 48 == now.month % 10
            &&& title[15] as u32 - 48 == now.day / 10
            &&& title[16] as u32 - 48 == now.day % 10
            &&& title[17] == '-'
            &&& title[18] as u32 - 48 == now.hour / 10
            &&& title[19] as u32 - 48 == now.hour % 10
            &&& title[20] as u32 - 48 == now.minute / 10
            &&& title[21] as u32 - 48 == now.minute % 10
            &&& title[22] as u32 - 48 == now.second / 10
            &&& title[23] as u32 - 48 == now.second % 10
        }),
{
    reveal_strlit("Terminal-");
    reveal_strlit("-");
    reveal_strlit(".txt");
    two_digits_are_two(now.month as nat);
    two_digits_are_two(now.day as nat);
    two_digits_are_two(now.hour as nat);
    two_digits_are_two(now.minute as nat);
    two_digits_are_two(now.second as nat);
    four_digits_are_four(now.year as nat);
}

proof fn two_digits_are_two(number: nat)
    requires
        number < 100,
    ensures
        steps::two_digits(number).len() == 2,
        steps::two_digits(number)[0] as u32 - 48 == number / 10,
        steps::two_digits(number)[1] as u32 - 48 == number % 10,
{
    reveal_with_fuel(text::decimal, 3);
}

proof fn four_digits_are_four(number: nat)
    requires
        number < 10000,
    ensures
        steps::four_digits(number).len() == 4,
        steps::four_digits(number)[0] as u32 - 48 == number / 1000,
        steps::four_digits(number)[1] as u32 - 48 == number / 100 % 10,
        steps::four_digits(number)[2] as u32 - 48 == number / 10 % 10,
        steps::four_digits(number)[3] as u32 - 48 == number % 10,
{
    reveal_with_fuel(text::decimal, 5);
}

/// A shell is still to be replaced where its panel is there and has not the wanted one.
pub proof fn a_panel_is_still_to_switch(
    all: Seq<PanelModel>,
    id: u64,
    wanted: Seq<char>,
    names: Seq<(u64, String)>,
    at: int,
    from: int,
)
    requires
        0 <= from <= at < all.len(),
        all[at].id == id,
        forall|k: int| from <= k < at ==> (#[trigger] all[k]).id != id,
    ensures
        all[at].shell is None ==> steps::still_to_switch(all, id, wanted, names, from),
        all[at].shell is Some ==> (steps::still_to_switch(all, id, wanted, names, from)
            <==> page::shell_name(names, all[at].shell->0) != wanted),
    decreases at - from,
{
    if from < at {
        assert(all[from].id != id);
        a_panel_is_still_to_switch(all, id, wanted, names, at, from + 1);
    }
}

/// The numbers that are taken are those of every tab and of every panel.
pub proof fn every_number_is_taken(tabs: Seq<PaneTabModel>, tab: int, n: int)
    requires
        0 <= tab < n <= tabs.len(),
    ensures
        entries::numbers_in_tabs(tabs, n).contains(tabs[tab].document.untitled),
        forall|k: int|
            0 <= k < tabs[tab].below.entries.len() ==> entries::numbers_in_tabs(
                tabs,
                n,
            ).contains((#[trigger] tabs[tab].below.entries[k]).document.untitled),
    decreases n,
{
    let before = entries::numbers_in_tabs(tabs, n - 1);
    let after = entries::numbers_in_tabs(tabs, n);
    if tab < n - 1 {
        every_number_is_taken(tabs, tab, n - 1);
        assert forall|number: u32| before.contains(number) implies #[trigger] after.contains(
            number,
        ) by {
            let j = choose|j: int| 0 <= j < before.len() && before[j] == number;
            assert(after[j] == number);
        }
        assert forall|k: int| 0 <= k < tabs[tab].below.entries.len() implies after.contains(
            (#[trigger] tabs[tab].below.entries[k]).document.untitled,
        ) by {
            assert(before.contains(tabs[tab].below.entries[k].document.untitled));
        }
    } else {
        assert(after[before.len() as int] == tabs[tab].document.untitled);
        assert forall|k: int| 0 <= k < tabs[tab].below.entries.len() implies after.contains(
            (#[trigger] tabs[tab].below.entries[k]).document.untitled,
        ) by {
            assert(after[before.len() + 1 + k]
                == tabs[tab].below.entries[k].document.untitled);
        }
    }
}

} // verus!
