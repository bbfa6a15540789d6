//! An open document, as far as saving is concerned.
use crate::paths;
use vstd::prelude::*;

verus! {

/// What another program did to the file since the document and it agreed.
#[derive(Clone, Copy, Debug, PartialEq, Eq, Structural)]
pub enum ExternalChange {
    Unchanged,
    Modified,
    /// The file is gone, or its stamp cannot be read.
    Missing,
}

/// What tells one version of a file from another.
#[derive(Clone, Copy, Debug, PartialEq, Eq, Structural)]
pub struct Stamp {
    pub modified: u64,
    pub length: u64,
}

/// The form a text is written in: the numbers of its encoding and of its line
/// break in the lists that the writer chooses from.
#[derive(Clone, Copy, Debug, PartialEq, Eq, Structural)]
pub struct TextForm {
    pub encoding: u32,
    pub byte_order_mark: bool,
    pub newline: u32,
}

/// Everything about a document that saving changes, but for its name.
#[derive(Clone, Copy, Debug, PartialEq, Eq, Structural)]
pub struct DocumentState {
    pub id: u64,
    pub edited: bool,
    /// When the text last changed.
    pub changed_at: u64,
    /// Since when changes have been waiting for a work copy.
    pub pending_since: Option<u64>,
    /// A snapshot of another version, never written.
    pub read_only: bool,
    pub form: TextForm,
    /// What another program did to the file, as it is seen at the moment of the
    /// call: it is looked at anew before each save, work copy, batch and pass, and
    /// never held over from one to the next.
    pub change: ExternalChange,
    /// The mark that says the file was changed outside.
    pub outside: bool,
    /// The file was missing when last looked at.
    pub missing: bool,
    /// The version that the writer was last told of.
    pub reported: Option<Stamp>,
    /// The work copy stays even while ordinary work copies are switched off.
    pub protective_recovery: bool,
    /// The last work copy could not be written.
    pub recovery_failed: bool,
}

/// A document: its file, or its number where it has none yet, and its state.
pub struct Document {
    pub origin: Option<String>,
    pub untitled: u32,
    pub state: DocumentState,
}

/// What names the work copy of a document: its file, or its number.
pub enum WorkIdentity {
    File(String),
    Untitled(u32),
}

/// [`WorkIdentity`], with the file as the parts of its path.
pub ghost enum CopyName {
    File(Seq<Seq<char>>),
    Untitled(u32),
}

/// [`Document`] with its text as characters.
pub ghost struct DocumentModel {
    pub origin: Option<Seq<char>>,
    pub untitled: u32,
    pub state: DocumentState,
}

impl DocumentModel {
    /// The name of this document's work copy.
    pub open spec fn copy_name(self) -> CopyName {
        match self.origin {
            Some(path) => CopyName::File(paths::parts(path)),
            None => CopyName::Untitled(self.untitled),
        }
    }

    /// The file of this document is the one at a path.
    pub open spec fn is_at(self, path: Seq<char>) -> bool {
        self.origin is Some && paths::parts(self.origin->0) == paths::parts(path)
    }

    pub open spec fn with(self, state: DocumentState) -> DocumentModel {
        DocumentModel { state, ..self }
    }
}

impl View for WorkIdentity {
    type V = CopyName;

    open spec fn view(&self) -> CopyName {
        match self {
            WorkIdentity::File(path) => CopyName::File(paths::parts(path@)),
            WorkIdentity::Untitled(number) => CopyName::Untitled(*number),
        }
    }
}

pub open spec fn optional_text(text: Option<String>) -> Option<Seq<char>> {
    match text {
        Some(held) => Some(held@),
        None => None,
    }
}

impl View for Document {
    type V = DocumentModel;

    open spec fn view(&self) -> DocumentModel {
        DocumentModel {
            origin: optional_text(self.origin),
            untitled: self.untitled,
            state: self.state,
        }
    }
}

/// The documents as models.
pub open spec fn models(documents: Seq<Document>) -> Seq<DocumentModel> {
    Seq::new(documents.len(), |i: int| documents[i]@)
}

/// No two documents have the same number.
pub open spec fn numbered_apart(documents: Seq<DocumentModel>) -> bool {
    forall|i: int, j: int|
        0 <= i < j < documents.len() ==> (#[trigger] documents[i]).state.id != (
        #[trigger] documents[j]).state.id
}

/// The names of work copies, as models.
pub open spec fn names(copies: Seq<WorkIdentity>) -> Seq<CopyName> {
    Seq::new(copies.len(), |i: int| copies[i]@)
}

impl WorkIdentity {
    /// Two names are the same.
    pub fn same(&self, other: &WorkIdentity) -> (out: bool)
        ensures
            out == (self@ == other@),
    {
        match (self, other) {
            (WorkIdentity::File(one), WorkIdentity::File(two)) => paths::same_path(
                one.as_str(),
                two.as_str(),
            ),
            (WorkIdentity::Untitled(one), WorkIdentity::Untitled(two)) => *one == *two,
            _ => false,
        }
    }

    pub fn copied(&self) -> (out: WorkIdentity)
        ensures
            out@ == self@,
    {
        match self {
            WorkIdentity::File(path) => WorkIdentity::File(path.clone()),
            WorkIdentity::Untitled(number) => WorkIdentity::Untitled(*number),
        }
    }
}

impl Document {
    /// Whether the document's file is this one.
    pub fn is_at(&self, path: &str) -> (out: bool)
        ensures
            out == self@.is_at(path@),
    {
        match &self.origin {
            Some(held) => paths::same_path(held.as_str(), path),
            None => false,
        }
    }
}

/// The place of the first document with a number, among the first `n`.
pub open spec fn place_among(documents: Seq<DocumentModel>, id: u64, n: int) -> Option<int>
    decreases n,
{
    if n <= 0 {
        None
    } else {
        match place_among(documents, id, n - 1) {
            Some(at) => Some(at),
            None => if documents[n - 1].state.id == id {
                Some(n - 1)
            } else {
                None
            },
        }
    }
}

/// The place of the first document with a number.
pub open spec fn place_of(documents: Seq<DocumentModel>, id: u64) -> Option<int> {
    place_among(documents, id, documents.len() as int)
}

/// The place of a document by its number.
pub fn find_document(documents: &Vec<Document>, id: u64) -> (out: Option<usize>)
    ensures
        match out {
            Some(at) => place_of(models(documents@), id) == Some(at as int) && at
                < documents@.len(),
            None => place_of(models(documents@), id) is None,
        },
{
    let mut at: usize = 0;
    while at < documents.len()
        invariant
            at <= documents@.len(),
            place_among(models(documents@), id, at as int) is None,
        decreases documents@.len() - at,
    {
        if documents[at].state.id == id {
            proof {
                found_early(models(documents@), id, at as int, documents@.len() as int);
            }
            return Some(at);
        }
        at += 1;
    }
    None
}

/// The first place found stays the first when looking further.
pub proof fn found_early(documents: Seq<DocumentModel>, id: u64, at: int, n: int)
    requires
        0 <= at < n <= documents.len(),
        place_among(documents, id, at) is None,
        documents[at].state.id == id,
    ensures
        place_among(documents, id, n) == Some(at),
    decreases n - at,
{
    if n > at + 1 {
        found_early(documents, id, at, n - 1);
    }
}

} // verus!
