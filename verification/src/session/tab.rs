//! What a session keeps of a tab, a pane and the window.
use crate::paths;
use crate::saving::document::{self, CopyName, WorkIdentity};
use vstd::prelude::*;

verus! {

/// A colour, by its red, green and blue.
#[derive(Clone, Copy, Debug, PartialEq, Eq, Structural)]
pub struct Rgb {
    pub red: u8,
    pub green: u8,
    pub blue: u8,
}

/// The colour of the paper and that of the ink, where they are set.
#[derive(Clone, Copy, Debug, PartialEq, Eq, Structural)]
pub struct Paper {
    pub ground: Option<Rgb>,
    pub ink: Option<Rgb>,
}

/// How a tab looks at its document.
#[derive(Clone, Copy, Debug, PartialEq, Eq, Structural)]
pub struct TabSettings {
    pub word_mode: usize,
    pub vertical: bool,
    pub preview: u32,
    /// In whole pixels.
    pub scroll: i32,
    pub top: usize,
    pub caret: Option<usize>,
    pub anchor: Option<usize>,
    /// The strip below the text is open, and how high it is.
    pub below: bool,
    pub below_height: i32,
    /// The tab has not been asked yet what it is for.
    pub empty: bool,
    pub paper: Paper,
    pub tab_colour: Option<Rgb>,
}

/// A tab as a session keeps it. The document is named the way its work copy is.
pub struct SessionTab {
    pub origin: Option<String>,
    pub untitled: u32,
    pub settings: TabSettings,
}

/// [`SessionTab`] with its text as characters.
pub ghost struct TabModel {
    pub origin: Option<Seq<char>>,
    pub untitled: u32,
    pub settings: TabSettings,
}

impl TabModel {
    /// The name of the document.
    pub open spec fn name(self) -> CopyName {
        match self.origin {
            Some(path) => CopyName::File(paths::parts(path)),
            None => CopyName::Untitled(self.untitled),
        }
    }
}

impl View for SessionTab {
    type V = TabModel;

    open spec fn view(&self) -> TabModel {
        TabModel {
            origin: document::optional_text(self.origin),
            untitled: self.untitled,
            settings: self.settings,
        }
    }
}

pub open spec fn tab_models(tabs: Seq<SessionTab>) -> Seq<TabModel> {
    Seq::new(tabs.len(), |i: int| tabs[i]@)
}

impl SessionTab {
    /// The name of the document that the tab shows.
    pub fn name(&self) -> (out: WorkIdentity)
        ensures
            out@ == self@.name(),
    {
        match &self.origin {
            Some(path) => WorkIdentity::File(path.clone()),
            None => WorkIdentity::Untitled(self.untitled),
        }
    }
}

/// A pane as a session keeps it.
pub struct SessionPane {
    pub tabs: Vec<SessionTab>,
    pub active: usize,
    /// In percent.
    pub zoom: i32,
    pub paper: Paper,
}

/// [`SessionPane`] with its texts as characters.
pub ghost struct PaneModel {
    pub tabs: Seq<TabModel>,
    pub active: usize,
    pub zoom: i32,
    pub paper: Paper,
}

impl View for SessionPane {
    type V = PaneModel;

    open spec fn view(&self) -> PaneModel {
        PaneModel {
            tabs: tab_models(self.tabs@),
            active: self.active,
            zoom: self.zoom,
            paper: self.paper,
        }
    }
}

pub open spec fn pane_models(panes: Seq<SessionPane>) -> Seq<PaneModel> {
    Seq::new(panes.len(), |i: int| panes[i]@)
}

/// Where the window is and how big, in physical pixels.
#[derive(Clone, Copy, Debug, PartialEq, Eq, Structural)]
pub struct WindowPlace {
    pub x: i32,
    pub y: i32,
    pub width: u32,
    pub height: u32,
}

/// What else a session keeps: the folders, the searches and the tree beside the
/// text.
#[derive(Debug)]
pub struct Surroundings {
    pub folder: Option<String>,
    pub search_folder: Option<String>,
    pub search_exclusions: String,
    pub shortcut_bindings: String,
    pub expanded: Vec<String>,
    pub tree_shown: bool,
    pub tree_width: u32,
    pub recent: Vec<String>,
    pub folders: Vec<String>,
    pub needles: Vec<String>,
    pub replacements: Vec<String>,
}

/// Everything that one run leaves for the next.
pub struct Session {
    /// How the panes divide the window, as it is written down.
    pub layout: String,
    pub place: Option<WindowPlace>,
    pub maximized: bool,
    /// The pane in use.
    pub focused: usize,
    pub panes: Vec<SessionPane>,
    pub around: Surroundings,
}

} // verus!
