//! What is shown of the panels of a tab.
use crate::lines;
use crate::saving::document;
use crate::terminal_panels::tab::{PanelDocument, PanelModel, TabBelow};
use crate::text;
use vstd::prelude::*;

verus! {

pub open spec fn named(names: Seq<(u64, String)>, id: u64, from: int) -> Seq<char>
    decreases names.len() - from,
{
    if from < 0 || from >= names.len() {
        Seq::empty()
    } else if names[from].0 == id {
        names[from].1@
    } else {
        named(names, id, from + 1)
    }
}

/// What a shell is called.
pub open spec fn shell_name(names: Seq<(u64, String)>, id: u64) -> Seq<char> {
    named(names, id, 0)
}

pub(crate) fn find_name(names: &Vec<(u64, String)>, id: u64) -> (out: String)
    ensures
        out@ == shell_name(names@, id),
{
    let mut at: usize = 0;
    while at < names.len()
        invariant
            at <= names@.len(),
            named(names@, id, 0) == named(names@, id, at as int),
        decreases names@.len() - at,
    {
        if names[at].0 == id {
            return names[at].1.clone();
        }
        at += 1;
    }
    let out = String::new();
    assert(out@ =~= Seq::empty());
    out
}

/// What a panel is called on its tab: its shell or its document, or the file that
/// its output goes to; a star where it has changes, and a mark where output is
/// taken in.
pub open spec fn panel_title(entry: PanelModel, names: Seq<(u64, String)>) -> Seq<char> {
    let own = match entry.shell {
        Some(id) => shell_name(names, id),
        None => entry.title,
    };
    let base = if entry.file_log && entry.file_name is Some {
        entry.file_name->0
    } else {
        own
    };
    let starred = if entry.edited() {
        base.push('*')
    } else {
        base
    };
    if entry.capture is Some {
        starred + if entry.file_log {
            " ● File"@
        } else {
            " ● Panel"@
        }
    } else {
        starred
    }
}

/// [`panel_title`], of a panel.
pub fn title_of(entry: &PanelDocument, names: &Vec<(u64, String)>) -> (out: String)
    ensures
        out@ == panel_title(entry@, names@),
{
    let mut out = match entry.shell {
        Some(id) => find_name(names, id),
        None => entry.title.clone(),
    };
    if entry.file_log {
        if let Some(name) = &entry.file_name {
            out = name.clone();
        }
    }
    if entry.document.state.edited {
        out.push('*');
    }
    if entry.capture.is_some() {
        text::push_text(
            &mut out,
            if entry.file_log {
                " ● File"
            } else {
                " ● Panel"
            },
        );
    }
    out
}

/// What is shown of the panels of a tab.
pub struct PanelPage {
    pub names: Vec<String>,
    /// What their documents are called.
    pub file_names: Vec<String>,
    pub active: usize,
    pub read_only: bool,
    /// The panel that is shown takes in output.
    pub capturing: bool,
    /// Some panel does.
    pub source_capturing: bool,
    /// The file that the output of the panel goes to, or nothing.
    pub destination: String,
}

/// Some panel takes in output.
pub open spec fn any_captures(entries: Seq<PanelModel>, n: int) -> bool {
    exists|i: int| 0 <= i < n && (#[trigger] entries[i]).capture is Some
}

/// What is shown of the panels of a tab.
pub fn publish(below: &TabBelow, names: &Vec<(u64, String)>) -> (out: PanelPage)
    ensures
        lines::texts(out.names@) == Seq::new(
            below@.entries.len(),
            |i: int| panel_title(below@.entries[i], names@),
        ),
        lines::texts(out.file_names@) == Seq::new(
            below@.entries.len(),
            |i: int| below@.entries[i].title,
        ),
        out.active as int == below@.active,
        out.read_only == (below@.current() is Some && below@.current()->0.viewer),
        out.capturing == (below@.current() is Some && below@.current()->0.capture is Some),
        out.source_capturing == any_captures(below@.entries, below@.entries.len() as int),
        out.destination@ == match below@.current() {
            Some(entry) => if entry.file_log && entry.file_path is Some {
                entry.file_path->0
            } else {
                Seq::empty()
            },
            None => Seq::empty(),
        },
{
    let mut titles: Vec<String> = Vec::new();
    let mut files: Vec<String> = Vec::new();
    let mut source_capturing: bool = false;
    let mut at: usize = 0;
    while at < below.entries.len()
        invariant
            at <= below.entries@.len(),
            titles@.len() == at,
            files@.len() == at,
            forall|i: int|
                0 <= i < at ==> (#[trigger] titles@[i])@ == panel_title(
                    below@.entries[i],
                    names@,
                ),
            forall|i: int| 0 <= i < at ==> (#[trigger] files@[i])@ == below@.entries[i].title,
            source_capturing == any_captures(below@.entries, at as int),
        decreases below.entries@.len() - at,
    {
        assert(below@.entries[at as int] == below.entries@[at as int]@);
        titles.push(title_of(&below.entries[at], names));
        files.push(below.entries[at].title.clone());
        if below.entries[at].capture.is_some() {
            source_capturing = true;
        }
        at += 1;
    }
    assert(lines::texts(titles@) =~= Seq::new(
        below@.entries.len(),
        |i: int| panel_title(below@.entries[i], names@),
    ));
    assert(lines::texts(files@) =~= Seq::new(
        below@.entries.len(),
        |i: int| below@.entries[i].title,
    ));
    let mut destination = String::new();
    assert(destination@ =~= Seq::empty());
    let mut read_only: bool = false;
    let mut capturing: bool = false;
    if below.active < below.entries.len() {
        let entry = &below.entries[below.active];
        assert(below@.current() == Some(entry@));
        read_only = entry.viewer;
        capturing = entry.capture.is_some();
        if entry.file_log {
            if let Some(path) = &entry.file_path {
                destination = path.clone();
            }
        }
    }
    PanelPage {
        names: titles,
        file_names: files,
        active: below.active,
        read_only,
        capturing,
        source_capturing,
        destination,
    }
}

} // verus!
