//! What happens to the panels of a tab.
use crate::saving::document::{self, Document, DocumentModel};
use crate::session::Paper;
use crate::terminal_appearance::style::{self, PanelStyle, StyleModel};
use crate::terminal_panels::capture::{self, Stopped};
use crate::terminal_panels::tab::{
    self, BelowModel, PaneTab, PaneTabModel, PanelDocument, PanelModel, Strip, StripModel,
    TabBelow,
};
use crate::text;
use vstd::prelude::*;

verus! {

/// The first panel of a tab: it takes over the text and the shell that the tab
/// shows below.
pub open spec fn first_panel(
    below: BelowModel,
    id: u64,
    document: DocumentModel,
    title: Seq<char>,
    style: Option<StyleModel>,
) -> PanelModel {
    let fresh = PanelModel::fresh(id, document, title, Seq::empty(), below.shell, style);
    if below.draft.len() > 0 {
        fresh.with_text(below.draft)
    } else {
        fresh
    }
}

impl StripModel {
    /// The tab that is shown has no panel yet.
    pub open spec fn needs_panel(self) -> bool {
        self.current() is Some && self.current()->0.below.entries.len() == 0
    }
}

/// Whether the tab that is shown has no panel yet.
pub fn needs_panel(strip: &Strip) -> (out: bool)
    ensures
        out == strip@.needs_panel(),
{
    strip.active < strip.tabs.len() && strip.tabs[strip.active].below.entries.len() == 0
}

/// Gives the tab that is shown a panel, where it has none.
pub fn ensure(
    strip: &mut Strip,
    id: u64,
    document: Document,
    title: String,
    style: Option<PanelStyle>,
)
    ensures
        !old(strip)@.needs_panel() ==> *final(strip) == *old(strip),
        old(strip)@.needs_panel() ==> ({
            let below = old(strip)@.current()->0.below;
            final(strip)@ == old(strip)@.with_below(
                old(strip)@.active,
                BelowModel {
                    entries: seq![
                        first_panel(below, id, document@, title@, style::optional(style)),
                    ],
                    active: 0,
                    ..below
                },
            )
        }),
{
    if !needs_panel(strip) {
        return;
    }
    let ghost before = strip@;
    let at: usize = strip.active;
    let ghost below = before.tabs[at as int].below;
    let draft = strip.tabs[at].below.draft.clone();
    let shell: Option<u64> = strip.tabs[at].below.shell;
    let none = String::new();
    assert(none@ =~= Seq::empty());
    let mut entry = PanelDocument::new(id, document, title, none, shell, style);
    proof {
        reveal_strlit("");
        assert(draft@.len() == 0 ==> draft@ =~= ""@);
    }
    if !text::same_text(draft.as_str(), "") {
        entry.set_text(draft);
    }
    let ghost new = entry@;
    assert(new == first_panel(below, id, document@, title@, style::optional(style)));
    strip.tabs[at].below.entries.push(entry);
    strip.tabs[at].below.active = 0;
    proof {
        assert(strip@.tabs[at as int].below.entries =~= seq![new]);
        assert(strip@.tabs =~= before.with_below(
            before.active,
            BelowModel { entries: seq![new], active: 0, ..below },
        ).tabs);
    }
}

impl PaneTabModel {
    /// The tab with its panel brought in line with what it shows below: the panel
    /// has its shell, and its text where that is written.
    pub open spec fn synced(self) -> PaneTabModel {
        match self.below.current() {
            Some(entry) => {
                let shelled = PanelModel { shell: self.below.shell, ..entry };
                let next = if self.terminal is Some && !entry.viewer && entry.text
                    != self.below.draft {
                    shelled.with_text(self.below.draft)
                } else {
                    shelled
                };
                PaneTabModel { below: self.below.with_change(self.below.active, next), ..self }
            },
            None => self,
        }
    }

    /// The tab with what it shows below brought in line with its panel, where it
    /// shows a terminal.
    pub open spec fn drafted(self) -> PaneTabModel {
        match self.below.current() {
            Some(entry) => if self.terminal is Some {
                PaneTabModel { below: BelowModel { draft: entry.text, ..self.below }, ..self }
            } else {
                self
            },
            None => self,
        }
    }

    /// The tab shows another text below than its panel has.
    pub open spec fn is_behind(self) -> bool {
        self.terminal is Some && match self.below.current() {
            Some(entry) => self.below.draft != entry.text,
            None => false,
        }
    }
}

/// Brings the panel of a tab in line with what the tab shows below.
pub fn sync_entry(tab: &mut PaneTab)
    ensures
        final(tab)@ == old(tab)@.synced(),
{
    let ghost before = tab@;
    let at: usize = tab.below.active;
    if at < tab.below.entries.len() {
        let shell: Option<u64> = tab.below.shell;
        let draft = tab.below.draft.clone();
        let write: bool = tab.terminal.is_some() && !tab.below.entries[at].viewer
            && !text::same_text(tab.below.entries[at].text.as_str(), draft.as_str());
        tab.below.entries[at].shell = shell;
        if write {
            tab.below.entries[at].set_text(draft);
        }
        proof {
            let entry = tab@.below.entries[at as int];
            assert(tab@.below.entries =~= before.below.entries.update(at as int, entry));
        }
    }
}

fn draft_tab(tab: &mut PaneTab) -> (out: bool)
    ensures
        final(tab)@ == old(tab)@.drafted(),
        out == old(tab)@.is_behind(),
{
    let at: usize = tab.below.active;
    if at < tab.below.entries.len() && tab.terminal.is_some() {
        let held = tab.below.entries[at].text.clone();
        if !text::same_text(tab.below.draft.as_str(), held.as_str()) {
            tab.below.draft = held;
            return true;
        }
    }
    false
}

/// Brings what every tab of a pane shows below in line with its panel. `true`
/// where the tab that is shown has another text.
pub fn draw_drafts(strip: &mut Strip) -> (out: bool)
    ensures
        final(strip)@ == (StripModel {
            tabs: Seq::new(old(strip)@.tabs.len(), |i: int| old(strip)@.tabs[i].drafted()),
            ..old(strip)@
        }),
        out == (old(strip)@.current() is Some && old(strip)@.current()->0.is_behind()),
{
    let ghost before = strip@;
    let mut out: bool = false;
    let mut at: usize = 0;
    while at < strip.tabs.len()
        invariant
            at <= strip.tabs@.len(),
            strip@.active == before.active,
            strip@.tabs.len() == before.tabs.len(),
            forall|i: int| 0 <= i < at ==> (#[trigger] strip@.tabs[i]) == before.tabs[i].drafted(),
            forall|i: int|
                at <= i < before.tabs.len() ==> (#[trigger] strip@.tabs[i]) == before.tabs[i],
            out == (0 <= before.active < at && before.tabs[before.active].is_behind()),
        decreases strip.tabs@.len() - at,
    {
        let ghost held = strip@.tabs;
        assert(strip@.tabs[at as int] == before.tabs[at as int]);
        let behind = draft_tab(&mut strip.tabs[at]);
        if behind && at == strip.active {
            out = true;
        }
        proof {
            assert(strip@.tabs =~= held.update(at as int, before.tabs[at as int].drafted()));
        }
        at += 1;
    }
    proof {
        assert(strip@.tabs =~= Seq::new(before.tabs.len(), |i: int| before.tabs[i].drafted()));
    }
    out
}

/// Turns to another panel of the tab that is shown, where there is one.
pub open spec fn selected(strip: StripModel, index: i32) -> StripModel {
    match strip.current() {
        Some(tab) => if 0 <= index < tab.below.entries.len() {
            strip.with_below(strip.active, BelowModel { active: index as int, ..tab.below })
        } else {
            strip
        },
        None => strip,
    }
}

/// [`selected`], of a pane.
pub fn select(strip: &mut Strip, index: i32)
    ensures
        final(strip)@ == selected(old(strip)@, index),
{
    let ghost before = strip@;
    let at: usize = strip.active;
    if at < strip.tabs.len() && index >= 0 && (index as usize) < strip.tabs[at].below.entries.len() {
        strip.tabs[at].below.active = index as usize;
        proof {
            assert(strip@.tabs =~= selected(before, index).tabs);
        }
    }
}

/// The first `n` panels but the one with a number.
pub open spec fn others(entries: Seq<PanelModel>, id: u64, n: int) -> Seq<PanelModel>
    decreases n,
{
    if n <= 0 {
        Seq::empty()
    } else if entries[n - 1].id == id {
        others(entries, id, n - 1)
    } else {
        others(entries, id, n - 1).push(entries[n - 1])
    }
}

impl BelowModel {
    /// What is below once a panel is closed: the next one is shown, or nothing
    /// where it was the last.
    pub open spec fn closed(self, id: u64) -> BelowModel {
        let left = others(self.entries, id, self.entries.len() as int);
        let active = if self.active < left.len() {
            self.active
        } else if left.len() == 0 {
            0
        } else {
            left.len() - 1
        };
        let next = BelowModel { entries: left, active, ..self };
        if left.len() > 0 {
            next.shown()
        } else {
            BelowModel { draft: Seq::empty(), shell: None, open: false, ..next }
        }
    }
}

fn drop_entry(below: &mut TabBelow, id: u64)
    ensures
        final(below)@ == old(below)@.closed(id),
{
    let ghost before = below@;
    let mut at: usize = 0;
    let ghost mut read: int = 0;
    assert(others(before.entries, id, 0) + before.entries.skip(0) =~= below@.entries);
    while at < below.entries.len()
        invariant
            0 <= read <= before.entries.len(),
            at == others(before.entries, id, read).len(),
            below@.entries == others(before.entries, id, read) + before.entries.skip(read),
            below@.front_style == before.front_style,
            below@.active == before.active,
            below@.draft == before.draft,
            below@.shell == before.shell,
            below@.open == before.open,
        decreases before.entries.len() - read,
    {
        let ghost done = others(before.entries, id, read);
        proof {
            assert(below@.entries.len() == done.len() + before.entries.len() - read);
            assert(below@.entries[at as int] == before.entries.skip(read)[0]);
            assert(below@.entries[at as int].id == below.entries@[at as int].id);
        }
        if below.entries[at].id == id {
            let ghost held = below@.entries;
            below.entries.remove(at);
            proof {
                assert(below@.entries =~= held.remove(at as int));
                assert(below@.entries =~= done + before.entries.skip(read + 1));
                read = read + 1;
            }
        } else {
            proof {
                assert(done.push(before.entries[read]) + before.entries.skip(read + 1)
                    =~= below@.entries);
                read = read + 1;
            }
            at += 1;
        }
    }
    proof {
        assert(read == before.entries.len());
        assert(before.entries.skip(read) =~= Seq::empty());
        assert(below@.entries =~= others(before.entries, id, before.entries.len() as int));
    }
    if below.entries.len() == 0 {
        below.active = 0;
        below.draft = String::new();
        below.shell = None;
        below.open = false;
        assert(below@.draft =~= Seq::empty());
        assert(below@ == before.closed(id));
    } else {
        if below.active >= below.entries.len() {
            below.active = below.entries.len() - 1;
        }
        below.show();
    }
}

impl StripModel {
    /// A panel with this number is below one of the first `n` tabs: the last such
    /// tab.
    pub open spec fn tab_of(self, id: u64, n: int) -> Option<int>
        decreases n,
    {
        if n <= 0 {
            None
        } else if self.tabs[n - 1].below.has(id) {
            Some(n - 1)
        } else {
            self.tab_of(id, n - 1)
        }
    }

    pub open spec fn has(self, id: u64) -> bool {
        self.tab_of(id, self.tabs.len() as int) is Some
    }

    /// The pane once a panel is closed.
    pub open spec fn closed(self, id: u64) -> StripModel {
        StripModel {
            tabs: Seq::new(
                self.tabs.len(),
                |i: int|
                    if self.tabs[i].below.has(id) {
                        PaneTabModel { below: self.tabs[i].below.closed(id), ..self.tabs[i] }
                    } else {
                        self.tabs[i]
                    },
            ),
            ..self
        }
    }
}

fn holds_panel(strip: &Strip, id: u64) -> (out: bool)
    ensures
        out == strip@.has(id),
{
    let mut at: usize = strip.tabs.len();
    while at > 0
        invariant
            at <= strip.tabs@.len(),
            strip@.tab_of(id, at as int) == strip@.tab_of(id, strip@.tabs.len() as int),
        decreases at,
    {
        assert(strip@.tabs[at - 1] == strip.tabs@[at - 1]@);
        if strip.tabs[at - 1].below.place_of(id).is_some() {
            return true;
        }
        at -= 1;
    }
    false
}

fn close_in(strip: &mut Strip, id: u64) -> (out: bool)
    ensures
        final(strip)@ == old(strip)@.closed(id),
        out == (old(strip)@.tab_of(id, old(strip)@.tabs.len() as int) == Some(
            old(strip)@.active,
        )),
{
    let ghost before = strip@;
    let mut out: bool = false;
    let mut at: usize = 0;
    while at < strip.tabs.len()
        invariant
            at <= strip.tabs@.len(),
            strip@.active == before.active,
            strip@.tabs.len() == before.tabs.len(),
            forall|i: int|
                0 <= i < at ==> (#[trigger] strip@.tabs[i]) == before.closed(id).tabs[i],
            forall|i: int|
                at <= i < before.tabs.len() ==> (#[trigger] strip@.tabs[i]) == before.tabs[i],
            out == (before.tab_of(id, at as int) == Some(before.active)),
        decreases strip.tabs@.len() - at,
    {
        let ghost held = strip@.tabs;
        assert(strip@.tabs[at as int] == before.tabs[at as int]);
        assert(strip.tabs@[at as int]@ == before.tabs[at as int]);
        if strip.tabs[at].below.place_of(id).is_some() {
            drop_entry(&mut strip.tabs[at].below, id);
            out = at == strip.active;
            assert(before.tabs[at as int].below.has(id));
            assert(strip@.tabs =~= held.update(at as int, before.closed(id).tabs[at as int]));
        } else {
            assert(!before.tabs[at as int].below.has(id));
        }
        at += 1;
    }
    proof {
        assert(strip@.tabs =~= before.closed(id).tabs);
    }
    out
}

/// Where a panel is closed: the first pane that has it, or the one it was asked
/// of.
pub open spec fn pane_of(strips: Seq<StripModel>, id: u64, from: int, asked: int) -> int
    decreases strips.len() - from,
{
    if from < 0 || from >= strips.len() {
        asked
    } else if strips[from].has(id) {
        from
    } else {
        pane_of(strips, id, from + 1, asked)
    }
}

/// Closes a panel, in whatever pane it is by now. Says which pane that was, and
/// whether its tab is the one that is shown.
pub fn close(strips: &mut Vec<Strip>, pane: usize, id: u64) -> (out: (usize, bool))
    requires
        pane < old(strips)@.len(),
    ensures
        ({
            let before = tab::strip_models(old(strips)@);
            let at = pane_of(before, id, 0, pane as int);
            &&& out.0 as int == at
            &&& 0 <= at < before.len()
            &&& tab::strip_models(final(strips)@) == before.update(at, before[at].closed(id))
            &&& out.1 == (before[at].tab_of(id, before[at].tabs.len() as int) == Some(
                before[at].active,
            ))
        }),
{
    let ghost before = tab::strip_models(strips@);
    let mut found: usize = pane;
    let mut at: usize = 0;
    let mut done: bool = false;
    while at < strips.len() && !done
        invariant
            at <= strips@.len(),
            pane < strips@.len(),
            before == tab::strip_models(strips@),
            found < strips@.len(),
            !done ==> found == pane && pane_of(before, id, 0, pane as int) == pane_of(
                before,
                id,
                at as int,
                pane as int,
            ),
            done ==> found as int == pane_of(before, id, 0, pane as int),
        decreases strips@.len() - at, if done {
            0int
        } else {
            1int
        },
    {
        assert(before[at as int] == strips@[at as int]@);
        if holds_panel(&strips[at], id) {
            found = at;
            done = true;
        } else {
            at += 1;
        }
    }
    assert(before[found as int] == strips@[found as int]@);
    let visible = close_in(&mut strips[found], id);
    proof {
        assert(tab::strip_models(strips@) =~= before.update(
            found as int,
            before[found as int].closed(id),
        ));
    }
    (found, visible)
}

/// The shell of a panel has been replaced: a tab that shows the panel shows the
/// new shell.
pub open spec fn reshelled(tab: PaneTabModel, id: u64, session: u64) -> PaneTabModel {
    let entries = Seq::new(
        tab.below.entries.len(),
        |i: int|
            if tab.below.entries[i].id == id {
                PanelModel { shell: Some(session), ..tab.below.entries[i] }
            } else {
                tab.below.entries[i]
            },
    );
    PaneTabModel {
        below: BelowModel {
            entries,
            shell: if tab.below.current() is Some && tab.below.current()->0.id == id {
                Some(session)
            } else {
                tab.below.shell
            },
            ..tab.below
        },
        ..tab
    }
}

fn reshell_tab(tab: &mut PaneTab, id: u64, session: u64)
    ensures
        final(tab)@ == reshelled(old(tab)@, id, session),
{
    let ghost before = tab@;
    let shown: bool = tab.below.active < tab.below.entries.len()
        && tab.below.entries[tab.below.active].id == id;
    let ghost wanted = reshelled(before, id, session).below.entries;
    let mut at: usize = 0;
    while at < tab.below.entries.len()
        invariant
            at <= tab.below.entries@.len(),
            tab@.below.entries.len() == before.below.entries.len(),
            tab@ == (PaneTabModel {
                below: BelowModel { entries: tab@.below.entries, ..before.below },
                ..before
            }),
            wanted == reshelled(before, id, session).below.entries,
            forall|i: int| 0 <= i < at ==> (#[trigger] tab@.below.entries[i]) == wanted[i],
            forall|i: int|
                at <= i < before.below.entries.len() ==> (#[trigger] tab@.below.entries[i])
                    == before.below.entries[i],
        decreases tab.below.entries@.len() - at,
    {
        let ghost held = tab@.below.entries;
        assert(tab@.below.entries[at as int] == before.below.entries[at as int]);
        assert(tab.below.entries@[at as int].id == before.below.entries[at as int].id);
        if tab.below.entries[at].id == id {
            tab.below.entries[at].shell = Some(session);
            assert(tab@.below.entries =~= held.update(at as int, wanted[at as int]));
        }
        at += 1;
    }
    proof {
        assert(tab@.below.entries =~= wanted);
    }
    if shown {
        tab.below.shell = Some(session);
    }
}

/// Puts a new shell into a panel.
pub fn switched(strip: &mut Strip, id: u64, session: u64)
    ensures
        final(strip)@ == (StripModel {
            tabs: Seq::new(
                old(strip)@.tabs.len(),
                |i: int| reshelled(old(strip)@.tabs[i], id, session),
            ),
            ..old(strip)@
        }),
{
    let ghost before = strip@;
    let mut at: usize = 0;
    while at < strip.tabs.len()
        invariant
            at <= strip.tabs@.len(),
            strip@.active == before.active,
            strip@.tabs.len() == before.tabs.len(),
            forall|i: int|
                0 <= i < at ==> (#[trigger] strip@.tabs[i]) == reshelled(
                    before.tabs[i],
                    id,
                    session,
                ),
            forall|i: int|
                at <= i < before.tabs.len() ==> (#[trigger] strip@.tabs[i]) == before.tabs[i],
        decreases strip.tabs@.len() - at,
    {
        let ghost held = strip@.tabs;
        assert(strip@.tabs[at as int] == before.tabs[at as int]);
        reshell_tab(&mut strip.tabs[at], id, session);
        proof {
            assert(strip@.tabs =~= held.update(
                at as int,
                reshelled(before.tabs[at as int], id, session),
            ));
        }
        at += 1;
    }
    proof {
        assert(strip@.tabs =~= Seq::new(
            before.tabs.len(),
            |i: int| reshelled(before.tabs[i], id, session),
        ));
    }
}

/// A look that keeps everything but its own paper.
pub open spec fn unpapered(look: Option<StyleModel>) -> Option<StyleModel> {
    match look {
        Some(style) => Some(StyleModel { paper_own: false, ..style }),
        None => None,
    }
}

fn unpaper(look: &mut Option<PanelStyle>)
    ensures
        style::optional(*final(look)) == unpapered(style::optional(*old(look))),
{
    if let Some(held) = look {
        held.paper_own = false;
    }
}

/// Takes the papers of its own from a tab and its panels, and leaves the rest of
/// their looks.
pub fn clear_paper(tab: &mut PaneTab)
    ensures
        final(tab)@ == (PaneTabModel {
            below: BelowModel {
                front_style: unpapered(old(tab)@.below.front_style),
                entries: Seq::new(
                    old(tab)@.below.entries.len(),
                    |i: int|
                        PanelModel {
                            style: unpapered(old(tab)@.below.entries[i].style),
                            ..old(tab)@.below.entries[i]
                        },
                ),
                ..old(tab)@.below
            },
            ..old(tab)@
        }),
{
    let ghost before = tab@;
    let ghost wanted = Seq::new(
        before.below.entries.len(),
        |i: int|
            PanelModel {
                style: unpapered(before.below.entries[i].style),
                ..before.below.entries[i]
            },
    );
    unpaper(&mut tab.below.front_style);
    let mut at: usize = 0;
    while at < tab.below.entries.len()
        invariant
            at <= tab.below.entries@.len(),
            tab@.below.entries.len() == before.below.entries.len(),
            tab@ == (PaneTabModel {
                below: BelowModel {
                    front_style: unpapered(before.below.front_style),
                    entries: tab@.below.entries,
                    ..before.below
                },
                ..before
            }),
            wanted == Seq::new(
                before.below.entries.len(),
                |i: int|
                    PanelModel {
                        style: unpapered(before.below.entries[i].style),
                        ..before.below.entries[i]
                    },
            ),
            forall|i: int| 0 <= i < at ==> (#[trigger] tab@.below.entries[i]) == wanted[i],
            forall|i: int|
                at <= i < before.below.entries.len() ==> (#[trigger] tab@.below.entries[i])
                    == before.below.entries[i],
        decreases tab.below.entries@.len() - at,
    {
        let ghost held = tab@.below.entries;
        assert(tab@.below.entries[at as int] == before.below.entries[at as int]);
        unpaper(&mut tab.below.entries[at].style);
        proof {
            assert(tab@.below.entries =~= held.update(at as int, wanted[at as int]));
        }
        at += 1;
    }
    proof {
        assert(tab@.below.entries =~= wanted);
    }
}

/// A tab once its terminal has another look: its own paper goes.
pub open spec fn fronted(tab: PaneTabModel, id: u64, look: Option<StyleModel>) -> PaneTabModel {
    if tab.id == id {
        PaneTabModel {
            paper: Paper { ground: None, ink: None },
            below: BelowModel { front_style: look, ..tab.below },
            ..tab
        }
    } else {
        tab
    }
}

/// Gives the terminal of a tab another look, or takes its own from it.
pub fn set_front_style(strip: &mut Strip, id: u64, look: &Option<PanelStyle>)
    ensures
        final(strip)@ == (StripModel {
            tabs: Seq::new(
                old(strip)@.tabs.len(),
                |i: int| fronted(old(strip)@.tabs[i], id, style::optional(*look)),
            ),
            ..old(strip)@
        }),
{
    let ghost before = strip@;
    let mut at: usize = 0;
    while at < strip.tabs.len()
        invariant
            at <= strip.tabs@.len(),
            strip@.active == before.active,
            strip@.tabs.len() == before.tabs.len(),
            forall|i: int|
                0 <= i < at ==> (#[trigger] strip@.tabs[i]) == fronted(
                    before.tabs[i],
                    id,
                    style::optional(*look),
                ),
            forall|i: int|
                at <= i < before.tabs.len() ==> (#[trigger] strip@.tabs[i]) == before.tabs[i],
        decreases strip.tabs@.len() - at,
    {
        let ghost held = strip@.tabs;
        assert(strip@.tabs[at as int] == before.tabs[at as int]);
        assert(strip.tabs@[at as int]@ == before.tabs[at as int]);
        if strip.tabs[at].id == id {
            strip.tabs[at].paper = Paper { ground: None, ink: None };
            strip.tabs[at].below.front_style = style::copy_style(look);
            proof {
                assert(strip@.tabs =~= held.update(
                    at as int,
                    fronted(before.tabs[at as int], id, style::optional(*look)),
                ));
            }
        }
        at += 1;
    }
    proof {
        assert(strip@.tabs =~= Seq::new(
            before.tabs.len(),
            |i: int| fronted(before.tabs[i], id, style::optional(*look)),
        ));
    }
}

/// The panels of a tab once one of them has another look.
pub open spec fn restyled(tab: PaneTabModel, id: u64, look: Option<StyleModel>) -> PaneTabModel {
    PaneTabModel {
        below: BelowModel {
            entries: Seq::new(
                tab.below.entries.len(),
                |i: int|
                    if tab.below.entries[i].id == id {
                        PanelModel { style: look, ..tab.below.entries[i] }
                    } else {
                        tab.below.entries[i]
                    },
            ),
            ..tab.below
        },
        ..tab
    }
}

fn restyle_tab(tab: &mut PaneTab, id: u64, look: &Option<PanelStyle>)
    ensures
        final(tab)@ == restyled(old(tab)@, id, style::optional(*look)),
{
    let ghost before = tab@;
    let ghost wanted = restyled(before, id, style::optional(*look)).below.entries;
    let mut at: usize = 0;
    while at < tab.below.entries.len()
        invariant
            at <= tab.below.entries@.len(),
            tab@.below.entries.len() == before.below.entries.len(),
            tab@ == (PaneTabModel {
                below: BelowModel { entries: tab@.below.entries, ..before.below },
                ..before
            }),
            wanted == restyled(before, id, style::optional(*look)).below.entries,
            forall|i: int| 0 <= i < at ==> (#[trigger] tab@.below.entries[i]) == wanted[i],
            forall|i: int|
                at <= i < before.below.entries.len() ==> (#[trigger] tab@.below.entries[i])
                    == before.below.entries[i],
        decreases tab.below.entries@.len() - at,
    {
        let ghost held = tab@.below.entries;
        assert(tab@.below.entries[at as int] == before.below.entries[at as int]);
        assert(tab.below.entries@[at as int].id == before.below.entries[at as int].id);
        if tab.below.entries[at].id == id {
            tab.below.entries[at].style = style::copy_style(look);
            assert(tab@.below.entries =~= held.update(at as int, wanted[at as int]));
        }
        at += 1;
    }
    proof {
        assert(tab@.below.entries =~= wanted);
    }
}

/// Gives a panel another look, or takes its own from it.
pub fn set_panel_style(strip: &mut Strip, id: u64, look: &Option<PanelStyle>)
    ensures
        final(strip)@ == (StripModel {
            tabs: Seq::new(
                old(strip)@.tabs.len(),
                |i: int| restyled(old(strip)@.tabs[i], id, style::optional(*look)),
            ),
            ..old(strip)@
        }),
{
    let ghost before = strip@;
    let mut at: usize = 0;
    while at < strip.tabs.len()
        invariant
            at <= strip.tabs@.len(),
            strip@.active == before.active,
            strip@.tabs.len() == before.tabs.len(),
            forall|i: int|
                0 <= i < at ==> (#[trigger] strip@.tabs[i]) == restyled(
                    before.tabs[i],
                    id,
                    style::optional(*look),
                ),
            forall|i: int|
                at <= i < before.tabs.len() ==> (#[trigger] strip@.tabs[i]) == before.tabs[i],
        decreases strip.tabs@.len() - at,
    {
        let ghost held = strip@.tabs;
        assert(strip@.tabs[at as int] == before.tabs[at as int]);
        restyle_tab(&mut strip.tabs[at], id, look);
        proof {
            assert(strip@.tabs =~= held.update(
                at as int,
                restyled(before.tabs[at as int], id, style::optional(*look)),
            ));
        }
        at += 1;
    }
    proof {
        assert(strip@.tabs =~= Seq::new(
            before.tabs.len(),
            |i: int| restyled(before.tabs[i], id, style::optional(*look)),
        ));
    }
}

impl StripModel {
    /// The pane once the tab that is shown has another panel, which is shown.
    pub open spec fn with_panel(self, entry: PanelModel) -> StripModel {
        match self.current() {
            Some(tab) => self.with_below(self.active, tab.below.with_entry(entry).shown()),
            None => self,
        }
    }

    /// The pane once the panel that is shown is another, and is shown so.
    pub open spec fn with_current(self, entry: PanelModel) -> StripModel {
        match self.current() {
            Some(tab) => if tab.below.current() is Some {
                self.with_below(
                    self.active,
                    tab.below.with_change(tab.below.active, entry).shown(),
                )
            } else {
                self
            },
            None => self,
        }
    }
}

/// Adds a panel to the tab that is shown, and shows it.
pub fn add_panel(strip: &mut Strip, entry: PanelDocument)
    ensures
        final(strip)@ == old(strip)@.with_panel(entry@),
{
    let at: usize = strip.active;
    if at < strip.tabs.len() {
        let ghost before = strip@;
        let ghost new = entry@;
        strip.tabs[at].below.add_entry(entry);
        strip.tabs[at].below.show();
        proof {
            assert(strip@.tabs =~= before.with_panel(new).tabs);
        }
    }
}

/// Adds a panel to the tab that is shown, into which the output of a shell is
/// taken.
pub fn begin_capture(strip: &mut Strip, entry: PanelDocument, session: u64, log_name: String)
    ensures
        final(strip)@ == old(strip)@.with_panel(entry@.capturing(session, log_name@)),
{
    let mut entry = entry;
    entry.start_capture(session, log_name);
    add_panel(strip, entry);
}

/// Adds a panel to the tab that is shown, with text in it.
pub fn add_text(strip: &mut Strip, entry: PanelDocument, more: &str)
    requires
        !entry@.viewer,
    ensures
        final(strip)@ == old(strip)@.with_panel(entry@.with_text(entry@.text + more@)),
{
    let mut entry = entry;
    let ghost before = entry@;
    entry.insert_text(more, None);
    proof {
        let length = before.text.len() as int;
        assert(before.text.take(length) + more@ + before.text.skip(length) =~= before.text
            + more@);
    }
    add_panel(strip, entry);
}

/// Puts text into the panel that is shown, at a byte offset; nothing where its
/// text is only read.
pub fn insert_into(strip: &mut Strip, more: &str, caret: usize) -> (out: bool)
    ensures
        out == (old(strip)@.current() is Some && old(strip)@.current()->0.below.current() is Some
            && !old(strip)@.current()->0.below.current()->0.viewer),
        !out ==> final(strip)@ == old(strip)@,
        out ==> ({
            let entry = old(strip)@.current()->0.below.current()->0;
            let at = capture::floor_place(entry.text, caret as int);
            final(strip)@ == old(strip)@.with_current(
                entry.with_text(entry.text.take(at) + more@ + entry.text.skip(at)),
            )
        }),
{
    let tab_at: usize = strip.active;
    if tab_at >= strip.tabs.len() {
        return false;
    }
    let at: usize = strip.tabs[tab_at].below.active;
    if at >= strip.tabs[tab_at].below.entries.len() || strip.tabs[tab_at].below.entries[at].viewer {
        return false;
    }
    let ghost before = strip@;
    let ghost below = before.tabs[tab_at as int].below;
    strip.tabs[tab_at].below.entries[at].insert_text(more, Some(caret));
    let ghost entry = strip@.tabs[tab_at as int].below.entries[at as int];
    proof {
        assert(strip@.tabs[tab_at as int].below.entries =~= below.entries.update(
            at as int,
            entry,
        ));
        assert(strip@.tabs[tab_at as int].below == below.with_change(at as int, entry));
    }
    strip.tabs[tab_at].below.show();
    proof {
        assert(strip@.tabs =~= before.with_current(entry).tabs);
    }
    true
}

/// Ends the taking in of output by the panel that is shown, once what is left of
/// it has been collected. `write` says that its text is written from then on.
pub fn stop_current(strip: &mut Strip, write: bool) -> (out: Option<Stopped>)
    ensures
        match old(strip)@.current() {
            Some(tab) => match tab.below.current() {
                Some(entry) => {
                    let stopped = entry.stopped();
                    &&& out is Some
                    &&& out->0.session == entry.capture
                    &&& document::optional_text(out->0.tail) == if entry.file_log {
                        Some(entry.tail())
                    } else {
                        None
                    }
                    &&& final(strip)@ == old(strip)@.with_current(
                        PanelModel { viewer: stopped.viewer && !write, ..stopped },
                    )
                },
                None => out is None && final(strip)@ == old(strip)@,
            },
            None => out is None && final(strip)@ == old(strip)@,
        },
{
    let tab_at: usize = strip.active;
    if tab_at >= strip.tabs.len() {
        return None;
    }
    let at: usize = strip.tabs[tab_at].below.active;
    if at >= strip.tabs[tab_at].below.entries.len() {
        return None;
    }
    let ghost before = strip@;
    let ghost below = before.tabs[tab_at as int].below;
    assert(below.current() == Some(strip.tabs@[tab_at as int].below.entries@[at as int]@));
    let out = strip.tabs[tab_at].below.entries[at].stop();
    if write {
        strip.tabs[tab_at].below.entries[at].viewer = false;
    }
    let ghost entry = strip@.tabs[tab_at as int].below.entries[at as int];
    proof {
        assert(strip@.tabs[tab_at as int].below.entries =~= below.entries.update(
            at as int,
            entry,
        ));
        assert(strip@.tabs[tab_at as int].below == below.with_change(at as int, entry));
    }
    strip.tabs[tab_at].below.show();
    proof {
        assert(strip@.tabs =~= before.with_current(entry).tabs);
    }
    Some(out)
}

} // verus!
