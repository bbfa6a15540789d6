//! What is on screen, in the form a session keeps it.
use crate::saving::document;
use crate::session::tab::{
    self, PaneModel, Paper, Session, SessionPane, SessionTab, Surroundings, TabModel, TabSettings,
    WindowPlace,
};
use vstd::prelude::*;

verus! {

/// A tab on screen.
pub struct HeldTab {
    pub origin: Option<String>,
    pub untitled: u32,
    pub settings: TabSettings,
    /// A shell or the settings stand in it, and no document of the writer's.
    pub stands_in: bool,
    /// It shows a snapshot of another version.
    pub read_only: bool,
}

impl View for HeldTab {
    type V = TabModel;

    open spec fn view(&self) -> TabModel {
        TabModel {
            origin: document::optional_text(self.origin),
            untitled: self.untitled,
            settings: self.settings,
        }
    }
}

/// The tabs of a pane on screen.
pub struct HeldStrip {
    pub tabs: Vec<HeldTab>,
    pub active: usize,
    pub zoom: i32,
    pub paper: Paper,
}

/// A tab that is worth remembering.
pub open spec fn remembered(tab: HeldTab) -> bool {
    !tab.stands_in && !tab.read_only
}

/// The remembered tabs among the first `n`.
pub open spec fn kept_tabs(tabs: Seq<HeldTab>, n: int) -> Seq<TabModel>
    decreases n,
{
    if n <= 0 {
        Seq::empty()
    } else if remembered(tabs[n - 1]) {
        kept_tabs(tabs, n - 1).push(tabs[n - 1]@)
    } else {
        kept_tabs(tabs, n - 1)
    }
}

/// A pane as the session keeps it: only the remembered tabs, and in front the
/// one that stood in front, or the nearest that is left.
pub open spec fn captured(strip: HeldStrip) -> PaneModel {
    let tabs = kept_tabs(strip.tabs@, strip.tabs@.len() as int);
    let before = if strip.active < strip.tabs@.len() {
        kept_tabs(strip.tabs@, strip.active as int).len()
    } else {
        tabs.len()
    };
    PaneModel {
        tabs,
        active: if tabs.len() == 0 {
            0
        } else if before < tabs.len() {
            before as usize
        } else {
            (tabs.len() - 1) as usize
        },
        zoom: strip.zoom,
        paper: strip.paper,
    }
}

/// One tab, as the session keeps it.
pub fn session_tab(tab: &HeldTab) -> (out: SessionTab)
    ensures
        out@ == tab@,
{
    let origin: Option<String> = match &tab.origin {
        Some(path) => Some(path.clone()),
        None => None,
    };
    SessionTab { origin, untitled: tab.untitled, settings: tab.settings }
}

fn capture_pane(strip: &HeldStrip) -> (out: SessionPane)
    ensures
        out@ == captured(*strip),
{
    let mut tabs: Vec<SessionTab> = Vec::new();
    let mut before: usize = 0;
    let mut at: usize = 0;
    assert(tab::tab_models(tabs@) =~= Seq::empty());
    while at < strip.tabs.len()
        invariant
            at <= strip.tabs@.len(),
            tab::tab_models(tabs@) == kept_tabs(strip.tabs@, at as int),
            before <= at,
            before == if strip.active < at {
                kept_tabs(strip.tabs@, strip.active as int).len()
            } else {
                kept_tabs(strip.tabs@, at as int).len()
            },
        decreases strip.tabs@.len() - at,
    {
        let one = &strip.tabs[at];
        if !one.stands_in && !one.read_only {
            let ghost held = tab::tab_models(tabs@);
            let kept = session_tab(one);
            tabs.push(kept);
            assert(tab::tab_models(tabs@) =~= held.push(kept@));
            if at < strip.active {
                before += 1;
            }
        }
        at += 1;
    }
    let active: usize = if tabs.len() == 0 {
        0
    } else if before < tabs.len() {
        before
    } else {
        tabs.len() - 1
    };
    SessionPane { tabs, active, zoom: strip.zoom, paper: strip.paper }
}

fn capture_panes(strips: &Vec<HeldStrip>) -> (out: Vec<SessionPane>)
    ensures
        tab::pane_models(out@) == Seq::new(strips@.len(), |i: int| captured(strips@[i])),
{
    let mut out: Vec<SessionPane> = Vec::new();
    let mut at: usize = 0;
    while at < strips.len()
        invariant
            at <= strips@.len(),
            out@.len() == at,
            forall|i: int| 0 <= i < at ==> (#[trigger] out@[i])@ == captured(strips@[i]),
        decreases strips@.len() - at,
    {
        let pane = capture_pane(&strips[at]);
        out.push(pane);
        at += 1;
    }
    assert(tab::pane_models(out@) =~= Seq::new(strips@.len(), |i: int| captured(strips@[i])));
    out
}

/// The window as the system reports it.
#[derive(Clone, Copy, Debug, PartialEq, Eq, Structural)]
pub struct WindowState {
    pub maximized: bool,
    pub minimized: bool,
    pub place: WindowPlace,
}

/// The place that a window is in: none while it fills the screen or is put away,
/// for then it reports a size that it would not go back to, or while it has no
/// size.
pub open spec fn place_of(window: WindowState) -> Option<WindowPlace> {
    if window.maximized || window.minimized || window.place.width == 0 || window.place.height
        == 0 {
        None
    } else {
        Some(window.place)
    }
}

/// [`place_of`].
pub fn window_place(window: &WindowState) -> (out: Option<WindowPlace>)
    ensures
        out == place_of(*window),
{
    if window.maximized || window.minimized || window.place.width == 0 || window.place.height == 0 {
        None
    } else {
        Some(window.place)
    }
}

/// The open folders that the workspace remembers: those of the tree on screen
/// where it shows the workspace, else those it showed last.
pub fn workspace_expanded(
    workspace_view: bool,
    shown: &Vec<String>,
    remembered: &Vec<String>,
) -> (out: Vec<String>)
    ensures
        out@.len() == (if workspace_view { shown@ } else { remembered@ }).len(),
        forall|i: int|
            0 <= i < out@.len() ==> (#[trigger] out@[i])@ == (if workspace_view {
                shown@
            } else {
                remembered@
            })[i]@,
{
    let from: &Vec<String> = if workspace_view {
        shown
    } else {
        remembered
    };
    let mut out: Vec<String> = Vec::new();
    let mut at: usize = 0;
    while at < from.len()
        invariant
            at <= from@.len(),
            out@.len() == at,
            forall|i: int| 0 <= i < at ==> (#[trigger] out@[i])@ == from@[i]@,
        decreases from@.len() - at,
    {
        out.push(from[at].clone());
        at += 1;
    }
    out
}

/// The pane that the session calls the one in use: a panel stands for the pane
/// that owns it.
pub fn focused_to_keep(pane: usize, panel_owner: Option<usize>) -> (out: usize)
    ensures
        out == match panel_owner {
            Some(owner) => owner,
            None => pane,
        },
{
    match panel_owner {
        Some(owner) => owner,
        None => pane,
    }
}

/// What is on screen, in the form the session keeps it. `kept` is the place that
/// the last session kept, which stays while the window has none of its own;
/// `panel_owner` the pane to which a panel in use belongs.
pub fn capture_session(
    strips: &Vec<HeldStrip>,
    window: &WindowState,
    kept: Option<WindowPlace>,
    pane: usize,
    panel_owner: Option<usize>,
    layout: String,
    around: Surroundings,
) -> (out: Session)
    ensures
        tab::pane_models(out.panes@) == Seq::new(strips@.len(), |i: int| captured(strips@[i])),
        out.place == match place_of(*window) {
            Some(place) => Some(place),
            None => kept,
        },
        out.maximized == window.maximized,
        out.focused == match panel_owner {
            Some(owner) => owner,
            None => pane,
        },
        out.layout == layout,
        out.around == around,
{
    let place: Option<WindowPlace> = match window_place(window) {
        Some(place) => Some(place),
        None => kept,
    };
    Session {
        layout,
        place,
        maximized: window.maximized,
        focused: focused_to_keep(pane, panel_owner),
        panes: capture_panes(strips),
        around,
    }
}

} // verus!
