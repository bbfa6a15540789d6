//! Direct saving of documents under folders that ask for it.
//!
//! A document of such a folder is written straight to its file a while after
//! the last change. Only changes that came after it was taken in count: text
//! that was unsaved before is never written over the file unasked. While the
//! file cannot be written, the text goes to a work copy that is kept whatever
//! the ordinary switch says.
use crate::saving::copies::{self, CopyStep, WORK_COPY_IDLE};
use crate::saving::document::{self, Document, DocumentModel, DocumentState, ExternalChange};
use vstd::prelude::*;

verus! {

/// Why a document is not being written straight to its file.
#[derive(Clone, Copy, Debug, PartialEq, Eq, Structural)]
pub enum AutoSavePause {
    /// The file changed underneath, or is gone.
    Conflict,
    /// The file, the document or the pane that shows it is read-only.
    ReadOnly,
    /// The last attempt failed.
    WriteFailed,
}

/// How a document stands with direct saving.
#[derive(Clone, Copy, Debug, PartialEq, Eq, Structural)]
pub enum AutoSaveStatus {
    Off,
    /// Nothing has changed since it was taken in or last written.
    Idle,
    /// A change waits for the writer to pause.
    Pending,
    Paused(AutoSavePause),
}

/// What is known of one document in direct saving, but for its file.
#[derive(Clone, Copy, Debug, PartialEq, Eq, Structural)]
pub struct EntryState {
    pub document: u64,
    /// Only changes later than this are written.
    pub armed_at: u64,
    /// The change that the work copy already holds, while writing is blocked.
    pub protected_at: Option<u64>,
    pub paused: Option<AutoSavePause>,
}

/// One document in direct saving, with the file it was taken in under.
pub struct AutoSaveEntry {
    pub path: String,
    pub state: EntryState,
}

/// [`AutoSaveEntry`] with its text as characters.
pub ghost struct EntryModel {
    pub path: Seq<char>,
    pub state: EntryState,
}

impl View for AutoSaveEntry {
    type V = EntryModel;

    open spec fn view(&self) -> EntryModel {
        EntryModel { path: self.path@, state: self.state }
    }
}

/// What is known of a document's folder and file at one moment.
#[derive(Clone, Copy, Debug, PartialEq, Eq, Structural)]
pub struct FolderSighting {
    /// Its folder asks for direct saving.
    pub auto_save: bool,
    /// Its path leads to a file.
    pub resolves: bool,
    /// A pane that only reads shows it.
    pub reading_view: bool,
    /// The file is read-only on disk.
    pub disk_read_only: bool,
}

/// What is to be done for one document.
#[derive(Clone, Copy, Debug, PartialEq, Eq, Structural)]
pub enum DriveAct {
    Rest,
    /// The step for its work copy.
    Copy(CopyStep),
    /// It is written straight to its file; [`FolderAutoSave::wrote`] hears what
    /// came of it.
    Write,
}

/// What is to be done for one document, and what the writer is told of it.
#[derive(Clone, Copy, Debug, PartialEq, Eq, Structural)]
pub struct TickStep {
    pub document: u64,
    pub told: Option<AutoSavePause>,
    pub act: DriveAct,
}

/// An entry as it is when a document is taken in.
pub open spec fn fresh(document: u64, path: Seq<char>, now: u64) -> EntryModel {
    EntryModel {
        path,
        state: EntryState { document, armed_at: now, protected_at: None, paused: None },
    }
}

pub open spec fn entries_of(entries: Seq<AutoSaveEntry>) -> Seq<EntryModel> {
    Seq::new(entries.len(), |i: int| entries[i]@)
}

/// Where the entry of a document stands, among the first `n`.
pub open spec fn entry_among(entries: Seq<EntryModel>, id: u64, n: int) -> Option<int>
    decreases n,
{
    if n <= 0 {
        None
    } else {
        match entry_among(entries, id, n - 1) {
            Some(at) => Some(at),
            None => if entries[n - 1].state.document == id {
                Some(n - 1)
            } else {
                None
            },
        }
    }
}

/// Where the entry of a document stands.
pub open spec fn entry_of(entries: Seq<EntryModel>, id: u64) -> Option<int> {
    entry_among(entries, id, entries.len() as int)
}

/// No document has two entries.
pub open spec fn distinct(entries: Seq<EntryModel>) -> bool {
    forall|i: int, j: int|
        0 <= i < j < entries.len() ==> (#[trigger] entries[i]).state.document != (
        #[trigger] entries[j]).state.document
}

pub proof fn entry_holds(entries: Seq<EntryModel>, id: u64, n: int)
    requires
        0 <= n <= entries.len(),
    ensures
        match entry_among(entries, id, n) {
            Some(at) => 0 <= at < n && entries[at].state.document == id,
            None => forall|i: int| 0 <= i < n ==> #[trigger] entries[i].state.document != id,
        },
    decreases n,
{
    if n > 0 {
        entry_holds(entries, id, n - 1);
    }
}

pub proof fn entry_found(entries: Seq<EntryModel>, id: u64, at: int, n: int)
    requires
        0 <= at < n <= entries.len(),
        entry_among(entries, id, at) is None,
        entries[at].state.document == id,
    ensures
        entry_among(entries, id, n) == Some(at),
    decreases n - at,
{
    if n > at + 1 {
        entry_found(entries, id, at, n - 1);
    }
}

/// What keeps a document from being written straight to its file, read anew
/// each time.
pub open spec fn blocking_pause(state: DocumentState, seen: FolderSighting) -> Option<AutoSavePause> {
    if seen.reading_view || state.read_only || seen.disk_read_only {
        Some(AutoSavePause::ReadOnly)
    } else if state.change != ExternalChange::Unchanged {
        Some(AutoSavePause::Conflict)
    } else {
        None
    }
}

/// The work copy while writing is blocked: once for each change, and again
/// where it did not land.
pub open spec fn protected(
    entry: EntryState,
    state: DocumentState,
    place: bool,
) -> (EntryState, DocumentState, DriveAct) {
    if !state.edited {
        (EntryState { protected_at: None, ..entry }, state, DriveAct::Rest)
    } else if entry.protected_at == Some(state.changed_at) && !state.recovery_failed {
        (entry, state, DriveAct::Rest)
    } else {
        let (after, step) = copies::forced_step(state, place);
        (
            if step is NoPlace {
                entry
            } else {
                EntryState { protected_at: Some(state.changed_at), ..entry }
            },
            after,
            DriveAct::Copy(step),
        )
    }
}

/// What one pass makes of an entry and its document.
pub ghost struct Driven {
    pub entry: EntryState,
    pub state: DocumentState,
    pub told: Option<AutoSavePause>,
    pub act: DriveAct,
}

/// One pass over an entry.
pub open spec fn driven(
    entry: EntryModel,
    document: DocumentModel,
    seen: FolderSighting,
    place: bool,
    now: u64,
) -> Driven {
    let state = document.state;
    if !document.is_at(entry.path) {
        Driven { entry: entry.state, state, told: None, act: DriveAct::Rest }
    } else {
        match blocking_pause(state, seen) {
            Some(pause) => {
                let held = EntryState { paused: Some(pause), ..entry.state };
                let (entry_after, after, act) = protected(held, state, place);
                Driven {
                    entry: entry_after,
                    state: after,
                    told: if entry.state.paused == Some(pause) {
                        None
                    } else {
                        Some(pause)
                    },
                    act,
                }
            },
            None => {
                let failed = entry.state.paused == Some(AutoSavePause::WriteFailed);
                let held = EntryState {
                    paused: if failed {
                        Some(AutoSavePause::WriteFailed)
                    } else {
                        None
                    },
                    ..entry.state
                };
                if !state.edited {
                    Driven {
                        entry: EntryState { paused: None, protected_at: None, ..entry.state },
                        state,
                        told: None,
                        act: DriveAct::Rest,
                    }
                } else if state.changed_at <= held.armed_at {
                    if failed {
                        let (entry_after, after, act) = protected(held, state, place);
                        Driven { entry: entry_after, state: after, told: None, act }
                    } else {
                        Driven { entry: held, state, told: None, act: DriveAct::Rest }
                    }
                } else if now - state.changed_at < WORK_COPY_IDLE {
                    Driven { entry: held, state, told: None, act: DriveAct::Rest }
                } else {
                    Driven {
                        entry: EntryState { armed_at: state.changed_at, ..held },
                        state,
                        told: None,
                        act: DriveAct::Write,
                    }
                }
            },
        }
    }
}

/// What a write that was attempted makes of an entry and its document.
pub open spec fn settled(
    entry: EntryState,
    state: DocumentState,
    written: bool,
    place: bool,
) -> (EntryState, DocumentState, DriveAct) {
    if written {
        (EntryState { paused: None, protected_at: None, ..entry }, state, DriveAct::Rest)
    } else {
        protected(
            EntryState { paused: Some(AutoSavePause::WriteFailed), ..entry },
            state,
            place,
        )
    }
}

/// The entries after a document is armed.
pub open spec fn armed(
    entries: Seq<EntryModel>,
    document: DocumentModel,
    now: u64,
) -> Seq<EntryModel> {
    match document.origin {
        None => entries,
        Some(path) => {
            let entry = fresh(document.state.id, path, now);
            match entry_of(entries, document.state.id) {
                Some(at) => entries.update(at, entry),
                None => entries.push(entry),
            }
        },
    }
}

/// The entries and the document's state after a document is observed.
pub open spec fn observed(
    entries: Seq<EntryModel>,
    document: DocumentModel,
    seen: FolderSighting,
    now: u64,
) -> (Seq<EntryModel>, DocumentState) {
    let state = document.state;
    let at = entry_of(entries, state.id);
    if !seen.auto_save {
        if at is Some && (document.origin is None || seen.resolves || !document.is_at(
            entries[at->0].path,
        )) {
            (
                entries.remove(at->0),
                if state.edited {
                    copies::marked_pending(DocumentState { protective_recovery: true, ..state }, now)
                } else {
                    state
                },
            )
        } else {
            (entries, state)
        }
    } else if at is Some && document.is_at(entries[at->0].path) {
        (entries, state)
    } else {
        (armed(entries, document, now), state)
    }
}

/// The entries, the document's state and the step for its work copy after a
/// pass has looked at whether its folder asks for direct saving.
pub open spec fn enrolled(
    entries: Seq<EntryModel>,
    document: DocumentModel,
    seen: FolderSighting,
    place: bool,
    now: u64,
) -> (Seq<EntryModel>, DocumentState, Option<CopyStep>) {
    let state = document.state;
    match document.origin {
        None => (entries, state, None),
        Some(path) => {
            let at = entry_of(entries, state.id);
            let same = at is Some && document.is_at(entries[at->0].path);
            let wanted = if seen.resolves {
                seen.auto_save
            } else {
                same
            };
            if wanted && !same {
                (armed(entries, document, now), state, None)
            } else if !wanted && at is Some {
                let (after, step) = copies::forced_step(state, place);
                (entries.remove(at->0), after, Some(step))
            } else {
                (entries, state, None)
            }
        },
    }
}

/// A pass under way: the entries, the documents and the steps so far.
pub ghost struct Round {
    pub entries: Seq<EntryModel>,
    pub documents: Seq<DocumentModel>,
    pub steps: Seq<TickStep>,
}

/// The entries whose document is still open.
pub open spec fn kept(entries: Seq<EntryModel>, documents: Seq<DocumentModel>) -> Seq<EntryModel>
    decreases entries.len(),
{
    if entries.len() == 0 {
        Seq::empty()
    } else {
        let before = kept(entries.drop_last(), documents);
        if document::place_of(documents, entries.last().state.document) is Some {
            before.push(entries.last())
        } else {
            before
        }
    }
}

/// A pass after the work copies of the first `n` entries have been forced.
pub open spec fn backed_up(round: Round, place: bool, n: int) -> Round
    decreases n,
{
    if n <= 0 {
        round
    } else {
        let before = backed_up(round, place, n - 1);
        let id = round.entries[n - 1].state.document;
        match document::place_of(before.documents, id) {
            None => before,
            Some(at) => {
                let (after, step) = copies::forced_step(before.documents[at].state, place);
                Round {
                    documents: before.documents.update(at, before.documents[at].with(after)),
                    steps: before.steps.push(
                        TickStep { document: id, told: None, act: DriveAct::Copy(step) },
                    ),
                    ..before
                }
            },
        }
    }
}

/// A pass after the first `n` documents have been looked at.
pub open spec fn enrolled_to(
    round: Round,
    seen: Seq<FolderSighting>,
    place: bool,
    now: u64,
    n: int,
) -> Round
    decreases n,
{
    if n <= 0 {
        round
    } else {
        let before = enrolled_to(round, seen, place, now, n - 1);
        let held = before.documents[n - 1];
        let (entries, after, step) = enrolled(before.entries, held, seen[n - 1], place, now);
        Round {
            entries,
            documents: before.documents.update(n - 1, held.with(after)),
            steps: match step {
                Some(copy) => before.steps.push(
                    TickStep { document: held.state.id, told: None, act: DriveAct::Copy(copy) },
                ),
                None => before.steps,
            },
        }
    }
}

/// A pass after the first `n` entries have been driven.
pub open spec fn driven_to(
    round: Round,
    seen: Seq<FolderSighting>,
    place: bool,
    now: u64,
    n: int,
) -> Round
    decreases n,
{
    if n <= 0 {
        round
    } else {
        let before = driven_to(round, seen, place, now, n - 1);
        let entry = before.entries[n - 1];
        match document::place_of(before.documents, entry.state.document) {
            None => before,
            Some(at) => {
                let made = driven(entry, before.documents[at], seen[at], place, now);
                Round {
                    entries: before.entries.update(
                        n - 1,
                        EntryModel { state: made.entry, ..entry },
                    ),
                    documents: before.documents.update(at, before.documents[at].with(made.state)),
                    steps: before.steps.push(
                        TickStep {
                            document: entry.state.document,
                            told: made.told,
                            act: made.act,
                        },
                    ),
                }
            },
        }
    }
}

/// A whole pass.
pub open spec fn ticked(
    entries: Seq<EntryModel>,
    documents: Seq<DocumentModel>,
    seen: Seq<FolderSighting>,
    ledger: bool,
    place: bool,
    now: u64,
) -> Round {
    let start = Round { entries: kept(entries, documents), documents, steps: Seq::empty() };
    if !ledger {
        let done = backed_up(start, place, start.entries.len() as int);
        Round { entries: Seq::empty(), ..done }
    } else {
        let middle = enrolled_to(start, seen, place, now, documents.len() as int);
        driven_to(middle, seen, place, now, middle.entries.len() as int)
    }
}

/// How a document stands.
pub open spec fn status_of(entries: Seq<EntryModel>, state: DocumentState) -> AutoSaveStatus {
    match entry_of(entries, state.id) {
        None => AutoSaveStatus::Off,
        Some(at) => match entries[at].state.paused {
            Some(pause) => AutoSaveStatus::Paused(pause),
            None => if state.edited && state.changed_at > entries[at].state.armed_at {
                AutoSaveStatus::Pending
            } else {
                AutoSaveStatus::Idle
            },
        },
    }
}

/// Direct saving: the documents that are under it.
pub struct FolderAutoSave {
    pub entries: Vec<AutoSaveEntry>,
}

fn find_entry(entries: &Vec<AutoSaveEntry>, id: u64) -> (out: Option<usize>)
    ensures
        match out {
            Some(at) => entry_of(entries_of(entries@), id) == Some(at as int) && at
                < entries@.len(),
            None => entry_of(entries_of(entries@), id) is None,
        },
{
    let mut at: usize = 0;
    while at < entries.len()
        invariant
            at <= entries@.len(),
            entry_among(entries_of(entries@), id, at as int) is None,
        decreases entries@.len() - at,
    {
        if entries[at].state.document == id {
            proof {
                entry_found(entries_of(entries@), id, at as int, entries@.len() as int);
            }
            return Some(at);
        }
        at += 1;
    }
    None
}

fn blocked(state: &DocumentState, seen: &FolderSighting) -> (out: Option<AutoSavePause>)
    ensures
        out == blocking_pause(*state, *seen),
{
    if seen.reading_view || state.read_only || seen.disk_read_only {
        Some(AutoSavePause::ReadOnly)
    } else if state.change != ExternalChange::Unchanged {
        Some(AutoSavePause::Conflict)
    } else {
        None
    }
}

fn protect(entry: &mut AutoSaveEntry, document: &mut Document, place: bool) -> (out: DriveAct)
    ensures
        final(entry).path == old(entry).path,
        final(document)@ == old(document)@.with(final(document).state),
        (final(entry).state, final(document).state, out) == protected(
            old(entry).state,
            old(document).state,
            place,
        ),
{
    if !document.state.edited {
        entry.state.protected_at = None;
        return DriveAct::Rest;
    }
    let changed_at: u64 = document.state.changed_at;
    if let Some(held) = entry.state.protected_at {
        if held == changed_at && !document.state.recovery_failed {
            return DriveAct::Rest;
        }
    }
    let step: CopyStep = copies::force_work_copy_of(document, place);
    match step {
        CopyStep::NoPlace { .. } => {},
        _ => {
            entry.state.protected_at = Some(changed_at);
        },
    }
    DriveAct::Copy(step)
}

fn drive_entry(
    entry: &mut AutoSaveEntry,
    document: &mut Document,
    seen: &FolderSighting,
    place: bool,
    now: u64,
) -> (out: TickStep)
    ensures
        ({
            let made = driven(old(entry)@, old(document)@, *seen, place, now);
            &&& final(entry)@ == EntryModel { state: made.entry, ..old(entry)@ }
            &&& final(document)@ == old(document)@.with(made.state)
            &&& out == (TickStep {
                document: old(entry).state.document,
                told: made.told,
                act: made.act,
            })
        }),
{
    let id: u64 = entry.state.document;
    if !document.is_at(entry.path.as_str()) {
        return TickStep { document: id, told: None, act: DriveAct::Rest };
    }
    if let Some(pause) = blocked(&document.state, seen) {
        let told: Option<AutoSavePause> = match entry.state.paused {
            Some(held) => if held == pause {
                None
            } else {
                Some(pause)
            },
            None => Some(pause),
        };
        entry.state.paused = Some(pause);
        let act: DriveAct = protect(entry, document, place);
        return TickStep { document: id, told, act };
    }
    let failed: bool = match entry.state.paused {
        Some(AutoSavePause::WriteFailed) => true,
        _ => false,
    };
    if !failed {
        entry.state.paused = None;
    }
    if !document.state.edited {
        entry.state.paused = None;
        entry.state.protected_at = None;
        return TickStep { document: id, told: None, act: DriveAct::Rest };
    }
    let changed_at: u64 = document.state.changed_at;
    if changed_at <= entry.state.armed_at {
        let act: DriveAct = if failed {
            protect(entry, document, place)
        } else {
            DriveAct::Rest
        };
        return TickStep { document: id, told: None, act };
    }
    if now.saturating_sub(changed_at) < WORK_COPY_IDLE {
        return TickStep { document: id, told: None, act: DriveAct::Rest };
    }
    entry.state.armed_at = changed_at;
    TickStep { document: id, told: None, act: DriveAct::Write }
}

impl FolderAutoSave {
    /// No document has two entries.
    pub open spec fn wf(self) -> bool {
        distinct(entries_of(self.entries@))
    }

    pub fn new() -> (out: FolderAutoSave)
        ensures
            out.wf(),
            entries_of(out.entries@) == Seq::<EntryModel>::empty(),
    {
        let out = FolderAutoSave { entries: Vec::new() };
        assert(entries_of(out.entries@) =~= Seq::empty());
        out
    }

    /// Takes a document in at once, so that its very first change counts. Only
    /// changes after this are written. A document without a file stays out.
    pub fn arm(&mut self, document: &Document, now: u64)
        requires
            old(self).wf(),
        ensures
            final(self).wf(),
            entries_of(final(self).entries@) == armed(
                entries_of(old(self).entries@),
                document@,
                now,
            ),
    {
        let ghost before = entries_of(self.entries@);
        if let Some(path) = &document.origin {
            let entry = AutoSaveEntry {
                path: path.clone(),
                state: EntryState {
                    document: document.state.id,
                    armed_at: now,
                    protected_at: None,
                    paused: None,
                },
            };
            proof {
                entry_holds(before, document.state.id, before.len() as int);
            }
            match find_entry(&self.entries, document.state.id) {
                Some(at) => {
                    self.entries.set(at, entry);
                    assert(entries_of(self.entries@) =~= before.update(at as int, entry@));
                },
                None => {
                    self.entries.push(entry);
                    assert(entries_of(self.entries@) =~= before.push(entry@));
                },
            }
        }
    }

    fn release(&mut self, at: usize)
        requires
            old(self).wf(),
            at < old(self).entries@.len(),
        ensures
            final(self).wf(),
            entries_of(final(self).entries@) == entries_of(old(self).entries@).remove(at as int),
    {
        let ghost before = entries_of(self.entries@);
        self.entries.remove(at);
        assert(entries_of(self.entries@) =~= before.remove(at as int));
    }

    /// Looks at a document that has just come into view, without arming again
    /// what is already under direct saving.
    pub fn observe(&mut self, document: &mut Document, seen: FolderSighting, now: u64)
        requires
            old(self).wf(),
        ensures
            final(self).wf(),
            final(document)@ == old(document)@.with(final(document).state),
            (entries_of(final(self).entries@), final(document).state) == observed(
                entries_of(old(self).entries@),
                old(document)@,
                seen,
                now,
            ),
    {
        let found = find_entry(&self.entries, document.state.id);
        let same: bool = match found {
            Some(at) => document.is_at(self.entries[at].path.as_str()),
            None => false,
        };
        if !seen.auto_save {
            if let Some(at) = found {
                if document.origin.is_none() || seen.resolves || !same {
                    self.release(at);
                    if document.state.edited {
                        document.state.protective_recovery = true;
                        copies::mark_pending(document, now);
                    }
                }
            }
            return;
        }
        if !same {
            self.arm(document, now);
        }
    }

    /// How a document stands, for the screen.
    pub fn status(&self, document: &Document) -> (out: AutoSaveStatus)
        ensures
            out == status_of(entries_of(self.entries@), document.state),
    {
        match find_entry(&self.entries, document.state.id) {
            None => AutoSaveStatus::Off,
            Some(at) => match self.entries[at].state.paused {
                Some(pause) => AutoSaveStatus::Paused(pause),
                None => if document.state.edited && document.state.changed_at
                    > self.entries[at].state.armed_at {
                    AutoSaveStatus::Pending
                } else {
                    AutoSaveStatus::Idle
                },
            },
        }
    }

    fn enrol(
        &mut self,
        document: &mut Document,
        seen: &FolderSighting,
        place: bool,
        now: u64,
    ) -> (out: Option<CopyStep>)
        requires
            old(self).wf(),
        ensures
            final(self).wf(),
            final(document)@ == old(document)@.with(final(document).state),
            (entries_of(final(self).entries@), final(document).state, out) == enrolled(
                entries_of(old(self).entries@),
                old(document)@,
                *seen,
                place,
                now,
            ),
    {
        if document.origin.is_none() {
            return None;
        }
        let found = find_entry(&self.entries, document.state.id);
        let same: bool = match found {
            Some(at) => document.is_at(self.entries[at].path.as_str()),
            None => false,
        };
        let wanted: bool = if seen.resolves {
            seen.auto_save
        } else {
            same
        };
        if wanted {
            if !same {
                self.arm(document, now);
            }
            return None;
        }
        match found {
            Some(at) => {
                let step: CopyStep = copies::force_work_copy_of(document, place);
                self.release(at);
                Some(step)
            },
            None => None,
        }
    }

    fn keep_open(&mut self, documents: &Vec<Document>)
        requires
            old(self).wf(),
        ensures
            final(self).wf(),
            entries_of(final(self).entries@) == kept(
                entries_of(old(self).entries@),
                document::models(documents@),
            ),
    {
        let ghost all = entries_of(self.entries@);
        let ghost open = document::models(documents@);
        let ghost mut seen: int = 0;
        let mut at: usize = 0;
        assert(all.take(0) =~= Seq::empty());
        assert(all.skip(0) =~= all);
        assert(kept(all.take(0), open) + all.skip(0) =~= all);
        while at < self.entries.len()
            invariant
                0 <= seen <= all.len(),
                at <= self.entries@.len(),
                at == kept(all.take(seen), open).len(),
                open == document::models(documents@),
                self.wf(),
                entries_of(self.entries@) == kept(all.take(seen), open) + all.skip(seen),
            decreases self.entries@.len() - at,
        {
            let ghost now_held = entries_of(self.entries@);
            let ghost before = kept(all.take(seen), open);
            proof {
                assert(now_held[at as int] == all.skip(seen)[0]);
                assert(all.take(seen + 1).drop_last() =~= all.take(seen));
                assert(all.take(seen + 1).last() == now_held[at as int]);
            }
            if document::find_document(documents, self.entries[at].state.document).is_some() {
                assert(before.push(all[seen]) + all.skip(seen + 1) =~= before + all.skip(seen));
                at += 1;
            } else {
                self.release(at);
                assert(now_held.remove(at as int) =~= before + all.skip(seen + 1));
            }
            proof {
                seen = seen + 1;
            }
        }
        proof {
            assert(all.skip(seen) =~= Seq::empty());
            assert(all.take(seen) =~= all);
            assert(kept(all, open) + all.skip(seen) =~= kept(all, open));
        }
    }

    fn back_up(&self, documents: &mut Vec<Document>, place: bool) -> (out: Vec<TickStep>)
        ensures
            ({
                let start = Round {
                    entries: entries_of(self.entries@),
                    documents: document::models(old(documents)@),
                    steps: Seq::empty(),
                };
                let done = backed_up(start, place, self.entries@.len() as int);
                &&& document::models(final(documents)@) == done.documents
                &&& out@ == done.steps
            }),
    {
        let mut out: Vec<TickStep> = Vec::new();
        let ghost start = Round {
            entries: entries_of(self.entries@),
            documents: document::models(documents@),
            steps: Seq::empty(),
        };
        let mut at: usize = 0;
        while at < self.entries.len()
            invariant
                at <= self.entries@.len(),
                start.entries == entries_of(self.entries@),
                document::models(documents@) == backed_up(start, place, at as int).documents,
                out@ == backed_up(start, place, at as int).steps,
            decreases self.entries@.len() - at,
        {
            let id: u64 = self.entries[at].state.document;
            let ghost held = document::models(documents@);
            if let Some(found) = document::find_document(documents, id) {
                let step: CopyStep = copies::force_work_copy_of(&mut documents[found], place);
                assert(document::models(documents@) =~= held.update(
                    found as int,
                    documents@[found as int]@,
                ));
                out.push(TickStep { document: id, told: None, act: DriveAct::Copy(step) });
            }
            at += 1;
        }
        out
    }

    /// One pass: takes in the documents whose folder asks for it, lets go of
    /// those that no longer qualify or have closed, and drives the rest.
    /// `seen` holds what is known of each document; without a `ledger` of
    /// folders every document is put aside and let go.
    ///
    /// Handing a work copy to the writer counts as protecting the text; where
    /// the copy does not land, [`copies::report_write_results`] marks the
    /// document and the next pass puts it aside again.
    pub fn tick(
        &mut self,
        documents: &mut Vec<Document>,
        seen: &Vec<FolderSighting>,
        ledger: bool,
        place: bool,
        now: u64,
    ) -> (out: Vec<TickStep>)
        requires
            old(self).wf(),
            seen@.len() == old(documents)@.len(),
            document::numbered_apart(document::models(old(documents)@)),
        ensures
            final(self).wf(),
            ({
                let done = ticked(
                    entries_of(old(self).entries@),
                    document::models(old(documents)@),
                    seen@,
                    ledger,
                    place,
                    now,
                );
                &&& entries_of(final(self).entries@) == done.entries
                &&& document::models(final(documents)@) == done.documents
                &&& out@ == done.steps
            }),
            document::numbered_apart(document::models(final(documents)@)),
    {
        proof {
            crate::saving::passes::a_pass_keeps_the_numbers(
                entries_of(self.entries@),
                document::models(documents@),
                seen@,
                ledger,
                place,
                now,
            );
        }
        self.keep_open(documents);
        let ghost start = Round {
            entries: entries_of(self.entries@),
            documents: document::models(documents@),
            steps: Seq::empty(),
        };
        if !ledger {
            let out = self.back_up(documents, place);
            self.entries.clear();
            assert(entries_of(self.entries@) =~= Seq::empty());
            return out;
        }
        let mut out: Vec<TickStep> = Vec::new();
        let mut at: usize = 0;
        while at < documents.len()
            invariant
                at <= documents@.len(),
                seen@.len() == documents@.len(),
                start.documents.len() == documents@.len(),
                self.wf(),
                entries_of(self.entries@) == enrolled_to(start, seen@, place, now, at as int).entries,
                document::models(documents@) == enrolled_to(
                    start,
                    seen@,
                    place,
                    now,
                    at as int,
                ).documents,
                out@ == enrolled_to(start, seen@, place, now, at as int).steps,
            decreases documents@.len() - at,
        {
            let ghost held = document::models(documents@);
            let id: u64 = documents[at].state.id;
            let step = self.enrol(&mut documents[at], &seen[at], place, now);
            assert(document::models(documents@) =~= held.update(at as int, documents@[at as int]@));
            if let Some(copy) = step {
                out.push(TickStep { document: id, told: None, act: DriveAct::Copy(copy) });
            }
            at += 1;
        }
        let ghost middle = enrolled_to(start, seen@, place, now, documents@.len() as int);
        assert(middle.entries == entries_of(self.entries@));
        let mut at: usize = 0;
        while at < self.entries.len()
            invariant
                at <= self.entries@.len(),
                seen@.len() == documents@.len(),
                middle.entries.len() == self.entries@.len(),
                self.wf(),
                entries_of(self.entries@) == driven_to(middle, seen@, place, now, at as int).entries,
                document::models(documents@) == driven_to(
                    middle,
                    seen@,
                    place,
                    now,
                    at as int,
                ).documents,
                out@ == driven_to(middle, seen@, place, now, at as int).steps,
            decreases self.entries@.len() - at,
        {
            let ghost held = document::models(documents@);
            let ghost listed = entries_of(self.entries@);
            if let Some(found) = document::find_document(documents, self.entries[at].state.document) {
                let step: TickStep = drive_entry(
                    &mut self.entries[at],
                    &mut documents[found],
                    &seen[found],
                    place,
                    now,
                );
                out.push(step);
                proof {
                    assert(document::models(documents@) =~= held.update(
                        found as int,
                        documents@[found as int]@,
                    ));
                    assert(entries_of(self.entries@) =~= listed.update(
                        at as int,
                        self.entries@[at as int]@,
                    ));
                    drive_keeps_the_document(
                        listed[at as int],
                        held[found as int],
                        seen@[found as int],
                        place,
                        now,
                    );
                }
            }
            at += 1;
        }
        out
    }

    /// Hears whether a document that [`FolderAutoSave::tick`] asked to be
    /// written was. Where it was not, the text goes to its work copy.
    pub fn wrote(&mut self, document: &mut Document, written: bool, place: bool) -> (out: DriveAct)
        requires
            old(self).wf(),
        ensures
            final(self).wf(),
            final(document)@ == old(document)@.with(final(document).state),
            match entry_of(entries_of(old(self).entries@), old(document).state.id) {
                None => *final(self) == *old(self) && *final(document) == *old(document) && out
                    == DriveAct::Rest,
                Some(at) => {
                    let held = entries_of(old(self).entries@)[at];
                    let (entry, state, act) = settled(
                        held.state,
                        old(document).state,
                        written,
                        place,
                    );
                    &&& entries_of(final(self).entries@) == entries_of(
                        old(self).entries@,
                    ).update(at, EntryModel { state: entry, ..held })
                    &&& final(document).state == state
                    &&& out == act
                },
            },
    {
        match find_entry(&self.entries, document.state.id) {
            None => DriveAct::Rest,
            Some(at) => {
                let ghost listed = entries_of(self.entries@);
                let act: DriveAct = if written {
                    self.entries[at].state.paused = None;
                    self.entries[at].state.protected_at = None;
                    DriveAct::Rest
                } else {
                    self.entries[at].state.paused = Some(AutoSavePause::WriteFailed);
                    protect(&mut self.entries[at], document, place)
                };
                assert(entries_of(self.entries@) =~= listed.update(
                    at as int,
                    self.entries@[at as int]@,
                ));
                act
            },
        }
    }

    /// The last work copies before the end: every document under direct saving
    /// is put aside, whatever it is doing.
    pub fn force_flush(&self, documents: &mut Vec<Document>, place: bool) -> (out: Vec<TickStep>)
        ensures
            ({
                let start = Round {
                    entries: entries_of(self.entries@),
                    documents: document::models(old(documents)@),
                    steps: Seq::empty(),
                };
                let done = backed_up(start, place, self.entries@.len() as int);
                &&& document::models(final(documents)@) == done.documents
                &&& out@ == done.steps
            }),
    {
        self.back_up(documents, place)
    }
}

impl Default for FolderAutoSave {
    fn default() -> (out: FolderAutoSave)
        ensures
            out.wf(),
            entries_of(out.entries@) == Seq::<EntryModel>::empty(),
    {
        FolderAutoSave::new()
    }
}

/// A pass does not give an entry to another document.
proof fn drive_keeps_the_document(
    entry: EntryModel,
    document: DocumentModel,
    seen: FolderSighting,
    place: bool,
    now: u64,
)
    ensures
        driven(entry, document, seen, place, now).entry.document == entry.state.document,
{
}

/// How many of the first `n` protected documents have no work copy.
pub open spec fn unprotected_among(documents: Seq<Document>, n: int) -> int
    decreases n,
{
    if n <= 0 {
        0
    } else {
        unprotected_among(documents, n - 1) + if documents[n - 1].state.protective_recovery
            && documents[n - 1].state.recovery_failed {
            1int
        } else {
            0int
        }
    }
}

/// How many protected documents have no work copy, once the last results are
/// in.
pub fn unprotected(documents: &Vec<Document>) -> (out: usize)
    ensures
        out == unprotected_among(documents@, documents@.len() as int),
{
    let mut out: usize = 0;
    let mut at: usize = 0;
    while at < documents.len()
        invariant
            at <= documents@.len(),
            out <= at,
            out == unprotected_among(documents@, at as int),
        decreases documents@.len() - at,
    {
        if documents[at].state.protective_recovery && documents[at].state.recovery_failed {
            out += 1;
        }
        at += 1;
    }
    out
}

} // verus!
