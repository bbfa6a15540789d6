//! The work copies: when one is written, what it replaces, and what happens
//! when it does not land.
use crate::saving::document::{
    self, CopyName, Document, DocumentModel, DocumentState, ExternalChange, Stamp, WorkIdentity,
};
use crate::saving::restore::WorkCopy;
use crate::text;
use vstd::prelude::*;

verus! {

/// A work copy is written this long after the last change.
pub const WORK_COPY_IDLE: u64 = 2000;

/// And no later than this after the first change that waits for one.
pub const WORK_COPY_LONGEST: u64 = 5000;

/// Whether the work copy is due: typing has stopped for a while, or it has gone
/// on for long enough.
pub fn work_copy_due(since_change: u64, since_pending: u64) -> (out: bool)
    ensures
        out == (since_change >= WORK_COPY_IDLE || since_pending >= WORK_COPY_LONGEST),
{
    since_change >= WORK_COPY_IDLE || since_pending >= WORK_COPY_LONGEST
}

/// The name of a document's work copy.
pub fn work_identity(document: &Document) -> (out: WorkIdentity)
    ensures
        out@ == document@.copy_name(),
{
    match &document.origin {
        Some(path) => WorkIdentity::File(path.clone()),
        None => WorkIdentity::Untitled(document.untitled),
    }
}

/// Unsaved changes begin to wait, unless they already do.
pub open spec fn marked_pending(state: DocumentState, now: u64) -> DocumentState {
    if state.edited && state.pending_since is None {
        DocumentState { pending_since: Some(now), ..state }
    } else {
        state
    }
}

pub fn mark_pending(document: &mut Document, now: u64)
    ensures
        final(document)@ == old(document)@.with(marked_pending(old(document).state, now)),
{
    if document.state.edited && document.state.pending_since.is_none() {
        document.state.pending_since = Some(now);
    }
}

/// A copy that did not land waits again, unless newer changes already wait.
pub open spec fn marked_failed(state: DocumentState, now: u64) -> DocumentState {
    DocumentState {
        pending_since: if state.pending_since is None {
            Some(now)
        } else {
            state.pending_since
        },
        recovery_failed: true,
        ..state
    }
}

/// What is to be done for one document's work copy.
#[derive(Clone, Copy, Debug, PartialEq, Eq, Structural)]
pub enum CopyStep {
    Nothing,
    /// There is no place to put it; `tell` the first time.
    NoPlace { tell: bool },
    /// The text is the file's own: the old copy goes.
    Remove,
    /// The text is put aside.
    Write { protected: bool },
}

/// What writing a work copy does to the document, and what is to be done.
///
/// `force` asks whatever the switch, the clock and the document say.
pub open spec fn copy_step(
    state: DocumentState,
    autosave: bool,
    place: bool,
    force: bool,
) -> (DocumentState, CopyStep) {
    if !force && (state.read_only || (!autosave && !state.protective_recovery)
        || state.pending_since is None) {
        (state, CopyStep::Nothing)
    } else if !place {
        (
            DocumentState { recovery_failed: true, ..state },
            CopyStep::NoPlace { tell: !state.recovery_failed },
        )
    } else if !state.edited && state.change == ExternalChange::Unchanged {
        (
            DocumentState { pending_since: None, protective_recovery: false, ..state },
            CopyStep::Remove,
        )
    } else {
        (
            DocumentState { pending_since: None, recovery_failed: false, ..state },
            CopyStep::Write { protected: state.protective_recovery },
        )
    }
}

fn write_copy(document: &mut Document, autosave: bool, place: bool, force: bool) -> (out: CopyStep)
    ensures
        final(document)@ == old(document)@.with(
            copy_step(old(document).state, autosave, place, force).0,
        ),
        out == copy_step(old(document).state, autosave, place, force).1,
{
    if !force && (document.state.read_only || (!autosave && !document.state.protective_recovery)
        || document.state.pending_since.is_none()) {
        return CopyStep::Nothing;
    }
    if !place {
        let tell: bool = !document.state.recovery_failed;
        document.state.recovery_failed = true;
        return CopyStep::NoPlace { tell };
    }
    document.state.pending_since = None;
    if !document.state.edited && document.state.change == ExternalChange::Unchanged {
        document.state.protective_recovery = false;
        return CopyStep::Remove;
    }
    document.state.recovery_failed = false;
    CopyStep::Write { protected: document.state.protective_recovery }
}

/// Writes one document's work copy, if it has changes waiting and the switch is
/// on.
pub fn write_work_copy_of(document: &mut Document, autosave: bool, place: bool) -> (out: CopyStep)
    ensures
        final(document)@ == old(document)@.with(
            copy_step(old(document).state, autosave, place, false).0,
        ),
        out == copy_step(old(document).state, autosave, place, false).1,
{
    write_copy(document, autosave, place, false)
}

/// What a forced copy does: an edited text is protected from then on.
pub open spec fn forced_step(state: DocumentState, place: bool) -> (DocumentState, CopyStep) {
    copy_step(
        DocumentState { protective_recovery: state.protective_recovery || state.edited, ..state },
        true,
        place,
        true,
    )
}

/// Writes a work copy whatever the switch says, and keeps it.
pub fn force_work_copy_of(document: &mut Document, place: bool) -> (out: CopyStep)
    ensures
        final(document)@ == old(document)@.with(forced_step(old(document).state, place).0),
        out == forced_step(old(document).state, place).1,
{
    if document.state.edited {
        document.state.protective_recovery = true;
    }
    write_copy(document, true, place, true)
}

/// A document that is due at a time, by either of its two clocks.
pub open spec fn due(state: DocumentState, now: u64) -> bool {
    match state.pending_since {
        Some(since) => now - state.changed_at >= WORK_COPY_IDLE || now - since >= WORK_COPY_LONGEST,
        None => false,
    }
}

/// What asking every document at a time does, and what is to be done for each.
pub open spec fn due_step(
    state: DocumentState,
    autosave: bool,
    place: bool,
    now: u64,
) -> (DocumentState, CopyStep) {
    if due(state, now) {
        copy_step(state, autosave, place, false)
    } else {
        (state, CopyStep::Nothing)
    }
}

/// Writes the work copies that are due. The answer holds one step for each
/// document, in order.
pub fn write_work_copy_if_due(
    documents: &mut Vec<Document>,
    autosave: bool,
    place: bool,
    now: u64,
) -> (out: Vec<CopyStep>)
    ensures
        out@.len() == old(documents)@.len(),
        final(documents)@.len() == old(documents)@.len(),
        forall|i: int|
            #![trigger final(documents)@[i]]
            0 <= i < old(documents)@.len() ==> final(documents)@[i]@ == old(documents)@[i]@.with(
                due_step(old(documents)@[i].state, autosave, place, now).0,
            ),
        forall|i: int|
            #![trigger out@[i]]
            0 <= i < out@.len() ==> out@[i] == due_step(old(documents)@[i].state, autosave, place, now).1,
{
    let mut out: Vec<CopyStep> = Vec::new();
    let mut at: usize = 0;
    while at < documents.len()
        invariant
            at <= documents@.len(),
            documents@.len() == old(documents)@.len(),
            out@.len() == at,
            forall|i: int|
                #![trigger documents@[i]]
                0 <= i < at ==> documents@[i]@ == old(documents)@[i]@.with(
                    due_step(old(documents)@[i].state, autosave, place, now).0,
                ),
            forall|i: int|
                #![trigger out@[i]]
                0 <= i < at ==> out@[i] == due_step(old(documents)@[i].state, autosave, place, now).1,
            forall|i: int| at <= i < documents@.len() ==> documents@[i] == old(documents)@[i],
        decreases documents@.len() - at,
    {
        let step: CopyStep = match documents[at].state.pending_since {
            Some(since) => {
                let since_change: u64 = now.saturating_sub(documents[at].state.changed_at);
                let since_pending: u64 = now.saturating_sub(since);
                if work_copy_due(since_change, since_pending) {
                    write_work_copy_of(&mut documents[at], autosave, place)
                } else {
                    CopyStep::Nothing
                }
            },
            None => CopyStep::Nothing,
        };
        out.push(step);
        at += 1;
    }
    out
}

/// Writes every work copy that waits, whatever the clock says.
pub fn write_work_copy_now(
    documents: &mut Vec<Document>,
    autosave: bool,
    place: bool,
) -> (out: Vec<CopyStep>)
    ensures
        out@.len() == old(documents)@.len(),
        final(documents)@.len() == old(documents)@.len(),
        forall|i: int|
            #![trigger final(documents)@[i]]
            0 <= i < old(documents)@.len() ==> final(documents)@[i]@ == old(documents)@[i]@.with(
                copy_step(old(documents)@[i].state, autosave, place, false).0,
            ),
        forall|i: int|
            #![trigger out@[i]]
            0 <= i < out@.len() ==> out@[i] == copy_step(old(documents)@[i].state, autosave, place, false).1,
{
    let mut out: Vec<CopyStep> = Vec::new();
    let mut at: usize = 0;
    while at < documents.len()
        invariant
            at <= documents@.len(),
            documents@.len() == old(documents)@.len(),
            out@.len() == at,
            forall|i: int|
                #![trigger documents@[i]]
                0 <= i < at ==> documents@[i]@ == old(documents)@[i]@.with(
                    copy_step(old(documents)@[i].state, autosave, place, false).0,
                ),
            forall|i: int|
                #![trigger out@[i]]
                0 <= i < at ==> out@[i] == copy_step(old(documents)@[i].state, autosave, place, false).1,
            forall|i: int| at <= i < documents@.len() ==> documents@[i] == old(documents)@[i],
        decreases documents@.len() - at,
    {
        let step: CopyStep = write_work_copy_of(&mut documents[at], autosave, place);
        out.push(step);
        at += 1;
    }
    out
}

/// A pane: the document it shows and where its caret stands.
#[derive(Clone, Copy, Debug, PartialEq, Eq, Structural)]
pub struct PaneCaret {
    pub document: u64,
    pub caret: Option<usize>,
}

/// The caret that goes with a work copy: that of the pane in use where it shows
/// the document, else that of the first pane that does.
pub open spec fn caret_shown(focused: PaneCaret, panes: Seq<PaneCaret>, id: u64) -> Option<usize>
    decreases panes.len(),
{
    if focused.document == id {
        focused.caret
    } else if panes.len() == 0 {
        None
    } else {
        caret_shown(panes[0], panes.skip(1), id)
    }
}

/// [`caret_shown`], of the panes of a window.
pub fn copy_caret(focused: PaneCaret, panes: &Vec<PaneCaret>, id: u64) -> (out: Option<usize>)
    ensures
        out == caret_shown(focused, panes@, id),
{
    if focused.document == id {
        return focused.caret;
    }
    let mut at: usize = 0;
    let ghost mut last = focused;
    assert(panes@.skip(0) =~= panes@);
    while at < panes.len()
        invariant
            at <= panes@.len(),
            last.document != id,
            caret_shown(focused, panes@, id) == caret_shown(last, panes@.skip(at as int), id),
        decreases panes@.len() - at,
    {
        proof {
            assert(panes@.skip(at as int)[0] == panes@[at as int]);
            assert(panes@.skip(at as int).skip(1) =~= panes@.skip(at + 1));
            last = panes@[at as int];
            reveal_with_fuel(caret_shown, 2);
        }
        if panes[at].document == id {
            return panes[at].caret;
        }
        at += 1;
    }
    None
}

/// A work copy is what a document is worth keeping of: its name, its text, the
/// version of the file that the text was written against, the caret of the pane that
/// shows it, and whether it stays while work copies are switched off.
pub open spec fn is_copy_of(
    copy: WorkCopy,
    document: DocumentModel,
    text: Seq<char>,
    stamp: Option<Stamp>,
    caret: Option<usize>,
) -> bool {
    &&& document::optional_text(copy.origin) == document.origin
    &&& copy.untitled == document.untitled
    &&& copy.text@ == text
    &&& copy.stamp == stamp
    &&& copy.caret == caret
    &&& copy.protected == document.state.protective_recovery
}

/// The work copy that a step asks to be written of a document, as the step left it.
/// `stamp` is the version of the file that the document agreed with last.
pub fn copy_to_write(
    step: CopyStep,
    document: &Document,
    text: &str,
    stamp: Option<Stamp>,
    focused: PaneCaret,
    panes: &Vec<PaneCaret>,
) -> (out: Option<WorkCopy>)
    ensures
        out is Some <==> step is Write,
        out is Some ==> is_copy_of(
            out->0,
            document@,
            text@,
            stamp,
            caret_shown(focused, panes@, document.state.id),
        ),
{
    match step {
        CopyStep::Write { .. } => Some(
            WorkCopy {
                origin: match &document.origin {
                    Some(path) => Some(path.clone()),
                    None => None,
                },
                untitled: document.untitled,
                caret: copy_caret(focused, panes, document.state.id),
                stamp,
                text: text::string_of(&text::chars_of(text)),
                protected: document.state.protective_recovery,
            },
        ),
        _ => None,
    }
}

/// Which document a dropped copy belonged to forgets that it was protected.
pub open spec fn forgotten(document: DocumentModel, gone: bool) -> DocumentModel {
    if gone {
        document.with(
            DocumentState { protective_recovery: false, recovery_failed: false, ..document.state },
        )
    } else {
        document
    }
}

/// Drops a work copy that is no longer needed. The file itself goes through the
/// same queue as the writes, which the caller owns.
pub fn discard_work_copy(documents: &mut Vec<Document>, copy: &WorkIdentity)
    ensures
        final(documents)@.len() == old(documents)@.len(),
        forall|i: int|
            #![trigger final(documents)@[i]]
            0 <= i < old(documents)@.len() ==> final(documents)@[i]@ == forgotten(
                old(documents)@[i]@,
                old(documents)@[i]@.copy_name() == copy@,
            ),
{
    let mut at: usize = 0;
    while at < documents.len()
        invariant
            at <= documents@.len(),
            documents@.len() == old(documents)@.len(),
            forall|i: int|
                #![trigger documents@[i]]
                0 <= i < at ==> documents@[i]@ == forgotten(
                    old(documents)@[i]@,
                    old(documents)@[i]@.copy_name() == copy@,
                ),
            forall|i: int| at <= i < documents@.len() ==> documents@[i] == old(documents)@[i],
        decreases documents@.len() - at,
    {
        let own = work_identity(&documents[at]);
        if own.same(copy) {
            documents[at].state.protective_recovery = false;
            documents[at].state.recovery_failed = false;
        }
        at += 1;
    }
}

/// One finished job of the writer thread.
pub struct WriteResult {
    pub copy: WorkIdentity,
    pub removed: bool,
    /// A newer job for the same file took its place.
    pub superseded: bool,
    pub failed: bool,
}

/// Whether the work copy of a memo is known to be gone.
pub fn memo_copy_removed(results: &Vec<WriteResult>, copy: &WorkIdentity) -> (out: bool)
    ensures
        out == exists|i: int|
            0 <= i < results@.len() && (#[trigger] results@[i]).copy@ == copy@
                && results@[i].removed && !results@[i].superseded && !results@[i].failed,
{
    let mut at: usize = 0;
    while at < results.len()
        invariant
            at <= results@.len(),
            forall|i: int|
                0 <= i < at ==> !((#[trigger] results@[i]).copy@ == copy@ && results@[i].removed
                    && !results@[i].superseded && !results@[i].failed),
        decreases results@.len() - at,
    {
        let one = &results[at];
        if one.copy.same(copy) && one.removed && !one.superseded && !one.failed {
            return true;
        }
        at += 1;
    }
    false
}

/// Closes a memo only when its work copy is gone: where it is not, the memo
/// stays and waits again. The answer says whether it may close. Without a `place`
/// for work copies there is none to wait for.
pub fn discard_memo_copy(document: &mut Document, place: bool, removed: bool, now: u64) -> (out:
    bool)
    ensures
        out == (!place || removed),
        final(document)@ == if out {
            old(document)@
        } else {
            old(document)@.with(marked_pending(old(document).state, now))
        },
{
    let gone: bool = !place || removed;
    if !gone {
        mark_pending(document, now);
    }
    gone
}

/// The names that are dropped, each where it first stands.
pub open spec fn dropped(listed: Seq<CopyName>, protected: Set<CopyName>) -> Seq<CopyName>
    decreases listed.len(),
{
    if listed.len() == 0 {
        Seq::empty()
    } else {
        let before = dropped(listed.drop_last(), protected);
        if protected.contains(listed.last()) || before.contains(listed.last()) {
            before
        } else {
            before.push(listed.last())
        }
    }
}

/// The names of the records on disk, and behind them those of the documents.
pub open spec fn listed(
    records: Seq<(WorkIdentity, bool)>,
    documents: Seq<Document>,
) -> Seq<CopyName> {
    Seq::new(records.len(), |i: int| records[i].0@) + Seq::new(
        documents.len(),
        |i: int| documents[i]@.copy_name(),
    )
}

/// The names that a record or a document protects.
pub open spec fn protected_names(
    records: Seq<(WorkIdentity, bool)>,
    documents: Seq<Document>,
) -> Set<CopyName> {
    Set::new(
        |name: CopyName|
            (exists|i: int|
                0 <= i < records.len() && (#[trigger] records[i]).1 && records[i].0@ == name) || (
            exists|i: int|
                0 <= i < documents.len() && (#[trigger] documents[i]).state.protective_recovery
                    && documents[i]@.copy_name() == name),
    )
}

fn is_protected(
    name: &WorkIdentity,
    records: &Vec<(WorkIdentity, bool)>,
    documents: &Vec<Document>,
) -> (out: bool)
    ensures
        out == protected_names(records@, documents@).contains(name@),
{
    let mut at: usize = 0;
    while at < records.len()
        invariant
            at <= records@.len(),
            forall|i: int|
                0 <= i < at ==> !((#[trigger] records@[i]).1 && records@[i].0@ == name@),
        decreases records@.len() - at,
    {
        if records[at].1 && records[at].0.same(name) {
            return true;
        }
        at += 1;
    }
    let mut at: usize = 0;
    while at < documents.len()
        invariant
            at <= documents@.len(),
            forall|i: int|
                0 <= i < at ==> !((#[trigger] documents@[i]).state.protective_recovery
                    && documents@[i]@.copy_name() == name@),
        decreases documents@.len() - at,
    {
        if documents[at].state.protective_recovery {
            let own = work_identity(&documents[at]);
            if own.same(name) {
                return true;
            }
        }
        at += 1;
    }
    false
}

fn holds(copies: &Vec<WorkIdentity>, name: &WorkIdentity) -> (out: bool)
    ensures
        out == document::names(copies@).contains(name@),
{
    let mut at: usize = 0;
    while at < copies.len()
        invariant
            at <= copies@.len(),
            forall|i: int| 0 <= i < at ==> (#[trigger] copies@[i])@ != name@,
        decreases copies@.len() - at,
    {
        if copies[at].same(name) {
            assert(document::names(copies@)[at as int] == name@);
            return true;
        }
        at += 1;
    }
    false
}

fn drop_one(
    copies: &mut Vec<WorkIdentity>,
    name: WorkIdentity,
    records: &Vec<(WorkIdentity, bool)>,
    documents: &Vec<Document>,
    Ghost(before): Ghost<Seq<CopyName>>,
)
    requires
        document::names(old(copies)@) == dropped(before, protected_names(records@, documents@)),
    ensures
        document::names(final(copies)@) == dropped(
            before.push(name@),
            protected_names(records@, documents@),
        ),
{
    proof {
        assert(before.push(name@).drop_last() =~= before);
    }
    if is_protected(&name, records, documents) || holds(copies, &name) {
        return;
    }
    copies.push(name);
    assert(document::names(copies@) =~= document::names(old(copies)@).push(name@));
}

/// Takes away every work copy there is but the protected ones, those on disk
/// and those still on their way there. The answer names them, each once. Where
/// there is no `place` for work copies, there are none to take away.
pub fn discard_all_work_copies(
    records: &Vec<(WorkIdentity, bool)>,
    documents: &mut Vec<Document>,
    place: bool,
) -> (out: Vec<WorkIdentity>)
    ensures
        document::names(out@) == if place {
            dropped(
                listed(records@, old(documents)@),
                protected_names(records@, old(documents)@),
            )
        } else {
            Seq::empty()
        },
        final(documents)@.len() == old(documents)@.len(),
        forall|i: int|
            #![trigger final(documents)@[i]]
            0 <= i < old(documents)@.len() ==> final(documents)@[i]@ == forgotten(
                old(documents)@[i]@,
                document::names(out@).contains(old(documents)@[i]@.copy_name()),
            ),
{
    let ghost all = listed(records@, documents@);
    let ghost guarded = protected_names(records@, documents@);
    let mut copies: Vec<WorkIdentity> = Vec::new();
    let mut at: usize = 0;
    assert(all.take(0) =~= Seq::empty());
    assert(document::names(copies@) =~= Seq::empty());
    if !place {
        return copies;
    }
    while at < records.len()
        invariant
            at <= records@.len(),
            *documents == *old(documents),
            all == listed(records@, documents@),
            guarded == protected_names(records@, documents@),
            document::names(copies@) == dropped(all.take(at as int), guarded),
        decreases records@.len() - at,
    {
        let name = records[at].0.copied();
        proof {
            assert(all[at as int] == name@);
            assert(all.take(at + 1) =~= all.take(at as int).push(name@));
        }
        drop_one(&mut copies, name, records, documents, Ghost(all.take(at as int)));
        at += 1;
    }
    let mut at: usize = 0;
    while at < documents.len()
        invariant
            at <= documents@.len(),
            *documents == *old(documents),
            all == listed(records@, documents@),
            guarded == protected_names(records@, documents@),
            document::names(copies@) == dropped(all.take(records@.len() + at), guarded),
        decreases documents@.len() - at,
    {
        let name = work_identity(&documents[at]);
        proof {
            assert(all[records@.len() + at] == name@);
            assert(all.take(records@.len() + at + 1) =~= all.take(records@.len() + at).push(name@));
        }
        drop_one(&mut copies, name, records, documents, Ghost(all.take(records@.len() + at)));
        at += 1;
    }
    assert(all.take(all.len() as int) =~= all);
    let mut at: usize = 0;
    while at < documents.len()
        invariant
            at <= documents@.len(),
            documents@.len() == old(documents)@.len(),
            forall|i: int|
                #![trigger documents@[i]]
                0 <= i < at ==> documents@[i]@ == forgotten(
                    old(documents)@[i]@,
                    document::names(copies@).contains(old(documents)@[i]@.copy_name()),
                ),
            forall|i: int| at <= i < documents@.len() ==> documents@[i] == old(documents)@[i],
        decreases documents@.len() - at,
    {
        let own = work_identity(&documents[at]);
        if holds(&copies, &own) {
            documents[at].state.protective_recovery = false;
            documents[at].state.recovery_failed = false;
        }
        at += 1;
    }
    copies
}

/// How many of the first `n` documents wait for a work copy.
pub open spec fn waiting(documents: Seq<Document>, n: int) -> int
    decreases n,
{
    if n <= 0 {
        0
    } else {
        waiting(documents, n - 1) + if documents[n - 1].state.pending_since is Some {
            1int
        } else {
            0int
        }
    }
}

/// Puts every unsaved document back in the queue for a work copy, when work
/// copies are switched on again, and says how many wait.
pub fn keep_work_copies_again(documents: &mut Vec<Document>, now: u64) -> (out: usize)
    ensures
        final(documents)@.len() == old(documents)@.len(),
        forall|i: int|
            #![trigger final(documents)@[i]]
            0 <= i < old(documents)@.len() ==> final(documents)@[i]@ == old(documents)@[i]@.with(
                marked_pending(old(documents)@[i].state, now),
            ),
        out == waiting(final(documents)@, final(documents)@.len() as int),
{
    let mut out: usize = 0;
    let mut at: usize = 0;
    while at < documents.len()
        invariant
            at <= documents@.len(),
            documents@.len() == old(documents)@.len(),
            out <= at,
            out == waiting(documents@, at as int),
            forall|i: int|
                #![trigger documents@[i]]
                0 <= i < at ==> documents@[i]@ == old(documents)@[i]@.with(
                    marked_pending(old(documents)@[i].state, now),
                ),
            forall|i: int| at <= i < documents@.len() ==> documents@[i] == old(documents)@[i],
        decreases documents@.len() - at,
    {
        let ghost held = documents@;
        mark_pending(&mut documents[at], now);
        proof {
            waiting_agrees(held, documents@, at as int);
        }
        if documents[at].state.pending_since.is_some() {
            out += 1;
        }
        at += 1;
    }
    out
}

proof fn waiting_agrees(one: Seq<Document>, two: Seq<Document>, n: int)
    requires
        forall|i: int| 0 <= i < n ==> one[i] == two[i],
    ensures
        waiting(one, n) == waiting(two, n),
    decreases n,
{
    if n > 0 {
        waiting_agrees(one, two, n - 1);
    }
}

/// The setting that switches the work copies.
pub const AUTOSAVE_SETTING: &'static str = "work.autosave";

/// Whether a list of settings leaves the work copies switched on: only a plain
/// zero under their name switches them off.
pub open spec fn left_on(values: Seq<(String, String)>, name: Seq<char>) -> bool
    decreases values.len(),
{
    if values.len() == 0 {
        true
    } else if values[0].0@ == name {
        let value = values[0].1@;
        let (start, end) = text::trimmed(value, 0, value.len() as int);
        value.subrange(start, end) != seq!['0']
    } else {
        left_on(values.skip(1), name)
    }
}

/// [`left_on`], of the settings file; where there is none, they are on.
pub fn autosave_wanted(values: &Option<Vec<(String, String)>>) -> (out: bool)
    ensures
        out == match *values {
            Some(held) => left_on(held@, AUTOSAVE_SETTING@),
            None => true,
        },
{
    let name: &str = AUTOSAVE_SETTING;
    match values {
        None => true,
        Some(held) => {
            let mut at: usize = 0;
            assert(held@.skip(0) =~= held@);
            while at < held.len()
                invariant
                    at <= held@.len(),
                    *values == Some(*held) && name@ == AUTOSAVE_SETTING@,
                    left_on(held@, name@) == left_on(held@.skip(at as int), name@),
                decreases held@.len() - at,
            {
                proof {
                    assert(held@.skip(at as int)[0] == held@[at as int]);
                    assert(held@.skip(at as int).skip(1) =~= held@.skip(at + 1));
                }
                if text::same_text(held[at].0.as_str(), name) {
                    let value = text::chars_of(held[at].1.as_str());
                    let (start, end): (usize, usize) = text::trim_range(&value, 0, value.len());
                    let ghost part = value@.subrange(start as int, end as int);
                    proof {
                        let zero = seq!['0'];
                        assert(zero.len() == 1 && zero[0] == '0');
                        if part.len() == 1 && part[0] == '0' {
                            assert(part =~= zero);
                        }
                    }
                    return !(end - start == 1 && value[start] == '0');
                }
                at += 1;
            }
            true
        },
    }
}

/// What the writer is told when a job failed.
#[derive(Clone, Copy, Debug, PartialEq, Eq, Structural)]
pub enum WriteTold {
    CouldNotClear,
    CouldNotBackUp,
}

/// What a batch of results came to.
#[derive(Clone, Copy, Debug, PartialEq, Eq, Structural)]
pub struct WriteReport {
    /// How many work copies could not be written. A copy that could not be
    /// cleared loses nothing and does not count.
    pub lost: usize,
    /// The last failure is what stands on screen.
    pub told: Option<WriteTold>,
}

/// One job failed, and nothing newer took its place.
pub open spec fn is_failure(result: WriteResult) -> bool {
    result.failed && !result.superseded
}

/// How many of the first `n` results lost a work copy.
pub open spec fn lost_among(results: Seq<WriteResult>, n: int) -> int
    decreases n,
{
    if n <= 0 {
        0
    } else {
        lost_among(results, n - 1) + if is_failure(results[n - 1]) && !results[n - 1].removed {
            1int
        } else {
            0int
        }
    }
}

/// What stands on screen after the first `n` results.
pub open spec fn told_among(results: Seq<WriteResult>, n: int) -> Option<WriteTold>
    decreases n,
{
    if n <= 0 {
        None
    } else if is_failure(results[n - 1]) {
        Some(
            if results[n - 1].removed {
                WriteTold::CouldNotClear
            } else {
                WriteTold::CouldNotBackUp
            },
        )
    } else {
        told_among(results, n - 1)
    }
}

/// The place of the first document whose work copy has a name.
pub open spec fn named_at(documents: Seq<DocumentModel>, name: CopyName) -> Option<int>
    decreases documents.len(),
{
    if documents.len() == 0 {
        None
    } else if documents[0].copy_name() == name {
        Some(0)
    } else {
        match named_at(documents.skip(1), name) {
            Some(at) => Some(at + 1),
            None => None,
        }
    }
}

/// The documents after the first `n` results: the document of each job that
/// failed waits again and knows that its copy is not there.
pub open spec fn after_results(
    documents: Seq<DocumentModel>,
    results: Seq<WriteResult>,
    now: u64,
    n: int,
) -> Seq<DocumentModel>
    decreases n,
{
    if n <= 0 {
        documents
    } else {
        let before = after_results(documents, results, now, n - 1);
        if !is_failure(results[n - 1]) {
            before
        } else {
            match named_at(before, results[n - 1].copy@) {
                Some(at) => before.update(
                    at,
                    before[at].with(marked_failed(before[at].state, now)),
                ),
                None => before,
            }
        }
    }
}

fn find_named(documents: &Vec<Document>, name: &WorkIdentity) -> (out: Option<usize>)
    ensures
        match out {
            Some(at) => named_at(document::models(documents@), name@) == Some(at as int) && at
                < documents@.len(),
            None => named_at(document::models(documents@), name@) is None,
        },
{
    let ghost held = document::models(documents@);
    let mut at: usize = 0;
    assert(held.skip(0) =~= held);
    while at < documents.len()
        invariant
            at <= documents@.len(),
            held == document::models(documents@),
            named_at(held, name@) == match named_at(held.skip(at as int), name@) {
                Some(found) => Some(found + at),
                None => None,
            },
        decreases documents@.len() - at,
    {
        proof {
            assert(held.skip(at as int)[0] == documents@[at as int]@);
            assert(held.skip(at as int).skip(1) =~= held.skip(at + 1));
        }
        let own = work_identity(&documents[at]);
        if own.same(name) {
            return Some(at);
        }
        at += 1;
    }
    None
}

/// Acts on what the writer thread has handed back, and says how many work
/// copies were lost.
pub fn report_write_results(
    documents: &mut Vec<Document>,
    results: &Vec<WriteResult>,
    now: u64,
) -> (out: WriteReport)
    ensures
        document::models(final(documents)@) == after_results(
            document::models(old(documents)@),
            results@,
            now,
            results@.len() as int,
        ),
        out.lost == lost_among(results@, results@.len() as int),
        out.told == told_among(results@, results@.len() as int),
{
    let mut lost: usize = 0;
    let mut told: Option<WriteTold> = None;
    let mut at: usize = 0;
    while at < results.len()
        invariant
            at <= results@.len(),
            lost <= at,
            lost == lost_among(results@, at as int),
            told == told_among(results@, at as int),
            document::models(documents@) == after_results(
                document::models(old(documents)@),
                results@,
                now,
                at as int,
            ),
        decreases results@.len() - at,
    {
        let one = &results[at];
        if one.failed && !one.superseded {
            let ghost held = document::models(documents@);
            if !one.removed {
                lost += 1;
            }
            if let Some(found) = find_named(documents, &one.copy) {
                if documents[found].state.pending_since.is_none() {
                    documents[found].state.pending_since = Some(now);
                }
                documents[found].state.recovery_failed = true;
                assert(document::models(documents@) =~= held.update(
                    found as int,
                    held[found as int].with(marked_failed(held[found as int].state, now)),
                ));
            }
            told = Some(
                if one.removed {
                    WriteTold::CouldNotClear
                } else {
                    WriteTold::CouldNotBackUp
                },
            );
        }
        at += 1;
    }
    WriteReport { lost, told }
}

} // verus!
