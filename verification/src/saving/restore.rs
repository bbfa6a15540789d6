//! The documents that the last run left behind.
use crate::saving::document::{self, Document, DocumentState, ExternalChange, Stamp};
use crate::text;
use vstd::prelude::*;

verus! {

/// A work copy as it is read back from disk.
pub struct WorkCopy {
    pub origin: Option<String>,
    pub untitled: u32,
    pub caret: Option<usize>,
    /// The version of the file that the text was written against.
    pub stamp: Option<Stamp>,
    pub text: String,
    pub protected: bool,
}

/// The file that a work copy belongs to, as it could be read.
pub struct OpenedFile {
    pub text: String,
    pub agreed: Option<Stamp>,
}

/// A document put together from its work copy.
pub struct RestoredTab {
    /// Its file; where `present` is false the file could not be opened, and the
    /// name is kept so that it stays apart from others.
    pub origin: Option<String>,
    pub present: bool,
    pub untitled: u32,
    pub text: String,
    /// The saved text that unsaved changes are measured against, where it is
    /// the version that the copy was written against.
    pub saved_text: Option<String>,
    pub caret: Option<usize>,
    pub agreed: Option<Stamp>,
    pub protected: bool,
}

/// [`RestoredTab`] with its texts as characters.
pub ghost struct RestoredModel {
    pub origin: Option<Seq<char>>,
    pub present: bool,
    pub untitled: u32,
    pub text: Seq<char>,
    pub saved_text: Option<Seq<char>>,
    pub caret: Option<usize>,
    pub agreed: Option<Stamp>,
    pub protected: bool,
}

impl View for RestoredTab {
    type V = RestoredModel;

    open spec fn view(&self) -> RestoredModel {
        RestoredModel {
            origin: document::optional_text(self.origin),
            present: self.present,
            untitled: self.untitled,
            text: self.text@,
            saved_text: document::optional_text(self.saved_text),
            caret: self.caret,
            agreed: self.agreed,
            protected: self.protected,
        }
    }
}

/// The document that a work copy and its file make.
pub open spec fn restored(copy: WorkCopy, opened: Option<OpenedFile>) -> RestoredModel {
    RestoredModel {
        origin: document::optional_text(copy.origin),
        present: copy.origin is None || opened is Some,
        untitled: if copy.untitled == 0 {
            1
        } else {
            copy.untitled
        },
        text: copy.text@,
        saved_text: if copy.origin is None {
            Some(Seq::empty())
        } else if opened is Some && copy.stamp is Some && copy.stamp == opened->0.agreed {
            Some(opened->0.text@)
        } else {
            None
        },
        caret: match copy.caret {
            Some(byte) => Some(text::floor_at(copy.text@, byte as int) as usize),
            None => None,
        },
        agreed: if copy.stamp is None && copy.origin is Some && opened is Some {
            opened->0.agreed
        } else {
            copy.stamp
        },
        protected: copy.protected,
    }
}

fn restore_tab(copy: &WorkCopy, opened: &Option<OpenedFile>) -> (out: RestoredTab)
    ensures
        out@ == restored(*copy, *opened),
{
    let untitled: u32 = if copy.untitled == 0 {
        1
    } else {
        copy.untitled
    };
    let caret: Option<usize> = match copy.caret {
        Some(byte) => Some(text::floor_char_boundary(copy.text.as_str(), byte)),
        None => None,
    };
    let mut present: bool = true;
    let mut saved_text: Option<String> = None;
    let mut agreed: Option<Stamp> = copy.stamp;
    let mut origin: Option<String> = None;
    match &copy.origin {
        None => {
            let empty = String::new();
            assert(empty@ =~= Seq::empty());
            saved_text = Some(empty);
        },
        Some(path) => {
            origin = Some(path.clone());
            match opened {
                None => {
                    present = false;
                },
                Some(file) => match copy.stamp {
                    None => {
                        agreed = file.agreed;
                    },
                    Some(stamp) => {
                        if let Some(held) = file.agreed {
                            if held == stamp {
                                saved_text = Some(file.text.clone());
                            }
                        }
                    },
                },
            }
        },
    }
    RestoredTab {
        origin,
        present,
        untitled,
        text: copy.text.clone(),
        saved_text,
        caret,
        agreed,
        protected: copy.protected,
    }
}

/// The documents made of the first `n` work copies. While ordinary work copies
/// are switched off, only the protected ones come back.
pub open spec fn restored_to(
    copies: Seq<WorkCopy>,
    opened: Seq<Option<OpenedFile>>,
    ordinary: bool,
    n: int,
) -> Seq<RestoredModel>
    decreases n,
{
    if n <= 0 {
        Seq::empty()
    } else {
        let before = restored_to(copies, opened, ordinary, n - 1);
        if ordinary || copies[n - 1].protected {
            before.push(restored(copies[n - 1], opened[n - 1]))
        } else {
            before
        }
    }
}

pub open spec fn restored_models(tabs: Seq<RestoredTab>) -> Seq<RestoredModel> {
    Seq::new(tabs.len(), |i: int| tabs[i]@)
}

/// The documents left by the last run, in the order of their work copies.
/// `opened` holds, for each copy, its file as far as it could be opened.
pub fn restore_tabs(
    copies: &Vec<WorkCopy>,
    opened: &Vec<Option<OpenedFile>>,
    ordinary: bool,
) -> (out: Vec<RestoredTab>)
    requires
        opened@.len() == copies@.len(),
    ensures
        restored_models(out@) == restored_to(copies@, opened@, ordinary, copies@.len() as int),
{
    let mut out: Vec<RestoredTab> = Vec::new();
    let mut at: usize = 0;
    assert(restored_models(out@) =~= Seq::empty());
    while at < copies.len()
        invariant
            at <= copies@.len(),
            opened@.len() == copies@.len(),
            restored_models(out@) == restored_to(copies@, opened@, ordinary, at as int),
        decreases copies@.len() - at,
    {
        if ordinary || copies[at].protected {
            let ghost held = restored_models(out@);
            let tab = restore_tab(&copies[at], &opened[at]);
            out.push(tab);
            assert(restored_models(out@) =~= held.push(tab@));
        }
        at += 1;
    }
    out
}

/// Marks a restored document by what became of its file meanwhile.
pub fn mark_restored(document: &mut Document, change: ExternalChange)
    ensures
        final(document)@ == old(document)@.with(
            DocumentState {
                change,
                missing: change == ExternalChange::Missing,
                outside: change != ExternalChange::Unchanged,
                ..old(document).state
            },
        ),
{
    document.state.change = change;
    document.state.missing = change == ExternalChange::Missing;
    document.state.outside = change != ExternalChange::Unchanged;
}

} // verus!
