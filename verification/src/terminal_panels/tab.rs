//! The panels of a tab.
//!
//! A tab that shows a terminal, or text with a shell below it, has panels of its
//! own. A shell, a tab and a panel are each known by a number that no other has.
use crate::saving::document::{self, Document, DocumentModel, DocumentState};
use crate::session::Paper;
use crate::terminal_appearance::style::{self, PanelStyle, StyleModel};
use crate::text;
use vstd::prelude::*;

verus! {

/// One panel: its document, and what is written into it.
pub struct PanelDocument {
    pub id: u64,
    pub document: Document,
    /// What its document is called.
    pub title: String,
    pub text: String,
    pub shell: Option<u64>,
    /// Its text is read, not written.
    pub viewer: bool,
    pub style: Option<PanelStyle>,
    /// The shell whose output is taken in.
    pub capture: Option<u64>,
    /// Whether its text was only read before the output was taken in.
    pub before_read_only: bool,
    /// How many characters at the end of the text may still change.
    pub pending_tail: usize,
    /// The output is also written to a file.
    pub file_log: bool,
    /// That file, and its name.
    pub file_path: Option<String>,
    pub file_name: Option<String>,
    /// Why the file could not be written.
    pub file_error: Option<String>,
    /// What the text is to be called when it is saved.
    pub log_name: Option<String>,
    /// What comes in until the panel closes is saved as well.
    pub save_tail_on_close: bool,
}

/// [`PanelDocument`] with its texts as characters.
pub ghost struct PanelModel {
    pub id: u64,
    pub document: DocumentModel,
    pub title: Seq<char>,
    pub text: Seq<char>,
    pub shell: Option<u64>,
    pub viewer: bool,
    pub style: Option<StyleModel>,
    pub capture: Option<u64>,
    pub before_read_only: bool,
    pub pending_tail: int,
    pub file_log: bool,
    pub file_path: Option<Seq<char>>,
    pub file_name: Option<Seq<char>>,
    pub file_error: Option<Seq<char>>,
    pub log_name: Option<Seq<char>>,
    pub save_tail_on_close: bool,
}

impl View for PanelDocument {
    type V = PanelModel;

    open spec fn view(&self) -> PanelModel {
        PanelModel {
            id: self.id,
            document: self.document@,
            title: self.title@,
            text: self.text@,
            shell: self.shell,
            viewer: self.viewer,
            style: style::optional(self.style),
            capture: self.capture,
            before_read_only: self.before_read_only,
            pending_tail: self.pending_tail as int,
            file_log: self.file_log,
            file_path: document::optional_text(self.file_path),
            file_name: document::optional_text(self.file_name),
            file_error: document::optional_text(self.file_error),
            log_name: document::optional_text(self.log_name),
            save_tail_on_close: self.save_tail_on_close,
        }
    }
}

pub open spec fn panels(held: Seq<PanelDocument>) -> Seq<PanelModel> {
    Seq::new(held.len(), |i: int| held[i]@)
}

impl PanelModel {
    /// A panel that has just been opened.
    pub open spec fn fresh(
        id: u64,
        document: DocumentModel,
        title: Seq<char>,
        text: Seq<char>,
        shell: Option<u64>,
        style: Option<StyleModel>,
    ) -> PanelModel {
        PanelModel {
            id,
            document,
            title,
            text,
            shell,
            viewer: false,
            style,
            capture: None,
            before_read_only: false,
            pending_tail: 0,
            file_log: false,
            file_path: None,
            file_name: None,
            file_error: None,
            log_name: None,
            save_tail_on_close: false,
        }
    }

    /// Its text has changes that are not in its file.
    pub open spec fn edited(self) -> bool {
        self.document.state.edited
    }

    /// The panel with another text, which is then an edited one.
    pub open spec fn with_text(self, text: Seq<char>) -> PanelModel {
        PanelModel {
            text,
            document: self.document.with(DocumentState { edited: true, ..self.document.state }),
            ..self
        }
    }
}

impl PanelDocument {
    pub fn new(
        id: u64,
        document: Document,
        title: String,
        text: String,
        shell: Option<u64>,
        style: Option<PanelStyle>,
    ) -> (out: Self)
        ensures
            out@ == PanelModel::fresh(
                id,
                document@,
                title@,
                text@,
                shell,
                style::optional(style),
            ),
    {
        PanelDocument {
            id,
            document,
            title,
            text,
            shell,
            viewer: false,
            style,
            capture: None,
            before_read_only: false,
            pending_tail: 0,
            file_log: false,
            file_path: None,
            file_name: None,
            file_error: None,
            log_name: None,
            save_tail_on_close: false,
        }
    }

    pub(crate) fn set_text(&mut self, text: String)
        ensures
            final(self)@ == old(self)@.with_text(text@),
    {
        self.text = text;
        self.document.state.edited = true;
    }
}

/// What a tab has below it.
pub struct TabBelow {
    /// The look of the terminal in front, where the tab has one of its own.
    pub front_style: Option<PanelStyle>,
    pub entries: Vec<PanelDocument>,
    pub active: usize,
    /// The text that is shown below.
    pub draft: String,
    /// The shell that is shown below.
    pub shell: Option<u64>,
    pub open: bool,
}

pub ghost struct BelowModel {
    pub front_style: Option<StyleModel>,
    pub entries: Seq<PanelModel>,
    pub active: int,
    pub draft: Seq<char>,
    pub shell: Option<u64>,
    pub open: bool,
}

impl View for TabBelow {
    type V = BelowModel;

    open spec fn view(&self) -> BelowModel {
        BelowModel {
            front_style: style::optional(self.front_style),
            entries: panels(self.entries@),
            active: self.active as int,
            draft: self.draft@,
            shell: self.shell,
            open: self.open,
        }
    }
}

impl BelowModel {
    /// The panel that is shown.
    pub open spec fn current(self) -> Option<PanelModel> {
        if 0 <= self.active < self.entries.len() {
            Some(self.entries[self.active])
        } else {
            None
        }
    }

    /// A panel with this number is below the tab.
    pub open spec fn has(self, id: u64) -> bool {
        exists|i: int| 0 <= i < self.entries.len() && (#[trigger] self.entries[i]).id == id
    }

    /// What is below shows what its panel has.
    pub open spec fn shown(self) -> BelowModel {
        match self.current() {
            Some(entry) => BelowModel { draft: entry.text, shell: entry.shell, ..self },
            None => self,
        }
    }

    /// Another panel, which is shown from then on.
    pub open spec fn with_entry(self, entry: PanelModel) -> BelowModel {
        BelowModel {
            entries: self.entries.push(entry),
            active: self.entries.len() as int,
            ..self
        }
    }

    /// The panels after one of them has been changed.
    pub open spec fn with_change(self, at: int, entry: PanelModel) -> BelowModel {
        BelowModel { entries: self.entries.update(at, entry), ..self }
    }
}

impl TabBelow {
    /// The place of the panel with this number.
    pub fn place_of(&self, id: u64) -> (out: Option<usize>)
        ensures
            match out {
                Some(at) => at < self@.entries.len() && self@.entries[at as int].id == id
                    && forall|i: int| 0 <= i < at ==> (#[trigger] self@.entries[i]).id != id,
                None => !self@.has(id),
            },
    {
        let mut at: usize = 0;
        while at < self.entries.len()
            invariant
                at <= self.entries@.len(),
                forall|i: int| 0 <= i < at ==> (#[trigger] self@.entries[i]).id != id,
            decreases self.entries@.len() - at,
        {
            if self.entries[at].id == id {
                assert(self@.entries[at as int].id == id);
                return Some(at);
            }
            at += 1;
        }
        None
    }

    /// Shows what its panel has.
    pub fn show(&mut self)
        ensures
            final(self)@ == old(self)@.shown(),
    {
        if self.active < self.entries.len() {
            self.draft = self.entries[self.active].text.clone();
            self.shell = self.entries[self.active].shell;
        }
    }

    /// Adds a panel, and turns to it.
    pub fn add_entry(&mut self, entry: PanelDocument)
        ensures
            final(self)@ == old(self)@.with_entry(entry@),
    {
        let ghost before = self@;
        let ghost new = entry@;
        self.active = self.entries.len();
        self.entries.push(entry);
        assert(self@.entries =~= before.entries.push(new));
    }
}

/// A tab, as far as its panels are concerned.
pub struct PaneTab {
    pub id: u64,
    pub document: Document,
    /// The shell that the tab itself shows.
    pub terminal: Option<u64>,
    pub paper: Paper,
    pub below: TabBelow,
}

pub ghost struct PaneTabModel {
    pub id: u64,
    pub document: DocumentModel,
    pub terminal: Option<u64>,
    pub paper: Paper,
    pub below: BelowModel,
}

impl View for PaneTab {
    type V = PaneTabModel;

    open spec fn view(&self) -> PaneTabModel {
        PaneTabModel {
            id: self.id,
            document: self.document@,
            terminal: self.terminal,
            paper: self.paper,
            below: self.below@,
        }
    }
}

pub open spec fn tab_models(tabs: Seq<PaneTab>) -> Seq<PaneTabModel> {
    Seq::new(tabs.len(), |i: int| tabs[i]@)
}

/// The tabs of a pane.
pub struct Strip {
    pub tabs: Vec<PaneTab>,
    pub active: usize,
}

pub ghost struct StripModel {
    pub tabs: Seq<PaneTabModel>,
    pub active: int,
}

impl View for Strip {
    type V = StripModel;

    open spec fn view(&self) -> StripModel {
        StripModel { tabs: tab_models(self.tabs@), active: self.active as int }
    }
}

pub open spec fn strip_models(strips: Seq<Strip>) -> Seq<StripModel> {
    Seq::new(strips.len(), |i: int| strips[i]@)
}

impl StripModel {
    /// The tab that is shown.
    pub open spec fn current(self) -> Option<PaneTabModel> {
        if 0 <= self.active < self.tabs.len() {
            Some(self.tabs[self.active])
        } else {
            None
        }
    }

    /// The strip with what is below one of its tabs changed.
    pub open spec fn with_below(self, at: int, below: BelowModel) -> StripModel {
        StripModel {
            tabs: self.tabs.update(at, PaneTabModel { below, ..self.tabs[at] }),
            ..self
        }
    }
}

/// A number is in a list.
pub(crate) fn is_among(list: &Vec<u64>, id: u64) -> (out: bool)
    ensures
        out == list@.contains(id),
{
    let mut at: usize = 0;
    while at < list.len()
        invariant
            at <= list@.len(),
            forall|i: int| 0 <= i < at ==> #[trigger] list@[i] != id,
        decreases list@.len() - at,
    {
        if list[at] == id {
            return true;
        }
        at += 1;
    }
    false
}

} // verus!
