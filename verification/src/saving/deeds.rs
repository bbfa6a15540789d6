//! When saving does what: every act with the cause that it has, and no other.
use crate::paths;
use crate::saving::autosave::{
    self, AutoSavePause, AutoSaveStatus, DriveAct, EntryModel, EntryState, FolderSighting,
};
use crate::saving::batch;
use crate::saving::changes::{self, CheckAct, ReloadOutcome, ReloadStep, Sighting};
use crate::saving::copies::{self, CopyStep};
use crate::saving::document::{CopyName, DocumentModel, DocumentState, ExternalChange, TextForm};
use crate::saving::restore::{self, OpenedFile, WorkCopy};
use crate::saving::writing::{self, SaveModel, TargetAct};
use crate::text;
use vstd::prelude::*;

verus! {

// --- the explicit save ----------------------------------------------------------------

/// The file of a document is the one at this path.
pub open spec fn holds(document: DocumentModel, path: Seq<char>) -> bool {
    document.origin is Some && paths::parts(document.origin->0) == paths::parts(path)
}

/// Another document than the one at `at` holds this path.
pub open spec fn held_by_another(documents: Seq<DocumentModel>, at: int, path: Seq<char>) -> bool {
    exists|j: int| 0 <= j < documents.len() && j != at && holds(#[trigger] documents[j], path)
}

proof fn the_first_is_found(documents: Seq<DocumentModel>, path: Seq<char>, n: int)
    requires
        0 <= n <= documents.len(),
    ensures
        match writing::file_among(documents, path, n) {
            Some(at) => 0 <= at < n && holds(documents[at], path) && forall|j: int|
                0 <= j < at ==> !holds(#[trigger] documents[j], path),
            None => forall|j: int| 0 <= j < n ==> !holds(#[trigger] documents[j], path),
        },
    decreases n,
{
    if n > 0 {
        the_first_is_found(documents, path, n - 1);
    }
}

/// The ordinary save is silent: a document whose file nobody else changed, and that no
/// other tab has open, is written without a question. So is one that goes to a new
/// file.
pub proof fn an_ordinary_save_is_silent(documents: Seq<DocumentModel>, at: int, target: Seq<char>)
    requires
        0 <= at < documents.len(),
        !held_by_another(documents, at, target),
        (documents[at].state.change == ExternalChange::Unchanged && !documents[at].state.outside)
            || !holds(documents[at], target),
    ensures
        writing::target_step(documents, at, target) == TargetAct::Write,
{
    the_first_is_found(documents, target, documents.len() as int);
}

/// The writer is asked about a change by another program exactly where the document
/// goes to its own file, another program changed that, and no other tab comes
/// first.
pub proof fn a_conflict_has_its_cause(documents: Seq<DocumentModel>, at: int, target: Seq<char>)
    requires
        0 <= at < documents.len(),
    ensures
        writing::target_step(documents, at, target) == TargetAct::AskConflict ==> holds(
            documents[at],
            target,
        ) && (documents[at].state.change == ExternalChange::Modified
            || documents[at].state.outside),
        !held_by_another(documents, at, target) && holds(documents[at], target) && (
        documents[at].state.change == ExternalChange::Modified || documents[at].state.outside)
            ==> writing::target_step(documents, at, target) == TargetAct::AskConflict,
{
    the_first_is_found(documents, target, documents.len() as int);
}

/// A save to a file that another tab has open goes over that tab: the first that has
/// it. It asks exactly where that tab has unsaved changes.
pub proof fn another_tab_is_asked_about(
    documents: Seq<DocumentModel>,
    at: int,
    target: Seq<char>,
)
    requires
        0 <= at < documents.len() <= usize::MAX,
        held_by_another(documents, at, target),
        !holds(documents[at], target),
    ensures
        match writing::target_step(documents, at, target) {
            TargetAct::AskSaveOverOpen(other) => other < documents.len() && other != at && holds(
                documents[other as int],
                target,
            ) && documents[other as int].state.edited && forall|j: int|
                0 <= j < other ==> !holds(#[trigger] documents[j], target),
            TargetAct::SaveOverOpen(other) => other < documents.len() && other != at && holds(
                documents[other as int],
                target,
            ) && !documents[other as int].state.edited && forall|j: int|
                0 <= j < other ==> !holds(#[trigger] documents[j], target),
            _ => false,
        },
{
    the_first_is_found(documents, target, documents.len() as int);
}

/// A save goes straight to the document's own file, in its own form, exactly where the
/// document has one that is there, and neither the document nor the pane only
/// reads.
pub proof fn a_save_goes_to_the_own_file(document: DocumentModel, reading_pane: bool)
    ensures
        writing::first_step(document, false, reading_pane) is Ready <==> document.origin is Some
            && document.state.change != ExternalChange::Missing && !document.state.read_only
            && !reading_pane,
        match writing::first_step(document, false, reading_pane) {
            SaveModel::Ready { target, form } => document.origin == Some(target) && form
                == document.state.form,
            SaveModel::AskName { form } => document.origin is None && form == document.state.form,
            SaveModel::AskMissing => document.state.change == ExternalChange::Missing,
            SaveModel::RefuseReadOnly => document.state.read_only,
            SaveModel::RefuseReadingView => reading_pane,
        },
        document.state.change == ExternalChange::Missing ==> writing::first_step(
            document,
            false,
            reading_pane,
        ) == SaveModel::AskMissing,
        document.state.read_only && document.state.change != ExternalChange::Missing
            ==> writing::first_step(document, false, reading_pane) == SaveModel::RefuseReadOnly,
        document.state.change != ExternalChange::Missing && !document.state.read_only
            && reading_pane ==> writing::first_step(document, false, reading_pane)
            == SaveModel::RefuseReadingView,
{
}

/// A save under a new name always asks for one, whatever became of the file and
/// whichever pane shows it. Only a snapshot is refused.
pub proof fn a_new_name_is_asked_for(document: DocumentModel, reading_pane: bool)
    ensures
        document.state.read_only ==> writing::first_step(document, true, reading_pane)
            == SaveModel::RefuseReadOnly,
        !document.state.read_only ==> writing::first_step(document, true, reading_pane) == (
        SaveModel::AskName { form: document.state.form }),
{
}

/// Once it is written, a document has the file and the form that it was written to,
/// nothing unsaved, nothing that waits, and no mark; every other document keeps its
/// name, its text's standing and its form.
pub proof fn a_written_document_agrees_with_its_file(
    documents: Seq<DocumentModel>,
    at: int,
    target: Seq<char>,
    form: TextForm,
    other: int,
)
    requires
        0 <= at < documents.len(),
        0 <= other < documents.len(),
        other != at,
    ensures
        ({
            let after = writing::after_write(documents, at, target, form, at);
            &&& after.origin == Some(target)
            &&& after.state.form == form
            &&& !after.state.edited
            &&& after.state.pending_since is None
            &&& after.state.change == ExternalChange::Unchanged
            &&& !after.state.outside
            &&& !after.state.missing
            &&& !after.state.protective_recovery
            &&& !after.state.recovery_failed
            &&& after.state.id == documents[at].state.id
            &&& after.state.changed_at == documents[at].state.changed_at
            &&& after.state.read_only == documents[at].state.read_only
        }),
        ({
            let after = writing::after_write(documents, at, target, form, other);
            let before = documents[other];
            &&& after.origin == before.origin
            &&& after.untitled == before.untitled
            &&& after.state.edited == before.state.edited
            &&& after.state.pending_since == before.state.pending_since
            &&& after.state.changed_at == before.state.changed_at
            &&& after.state.form == before.state.form
            &&& after.state.id == before.state.id
            &&& after.state.change == before.state.change
            &&& after.state.outside == before.state.outside
            &&& !holds(before, target) && before.copy_name() != documents[at].copy_name() ==> after
                == before
        }),
{
}

/// A write that worked drops the work copies under the old and the new name, and one
/// that did not drops none.
pub proof fn a_write_drops_its_copies(document: DocumentModel, target: Seq<char>)
    ensures
        writing::names_to_drop(document, target, false).len() == 0,
        ({
            let gone = writing::names_to_drop(document, target, true);
            &&& gone.contains(CopyName::File(paths::parts(target)))
            &&& document.origin is Some ==> gone.contains(
                CopyName::File(paths::parts(document.origin->0)),
            )
            &&& document.origin is None ==> gone.contains(CopyName::Untitled(document.untitled))
            &&& gone.len() == 2
        }),
{
    let gone = writing::names_to_drop(document, target, true);
    assert(gone[1] == CopyName::File(paths::parts(target)));
    assert(gone[0] == document.copy_name());
}

// --- saving all -------------------------------------------------------------------------

/// The places that are listed are those that are wanted, each once and in order.
pub proof fn the_wanted_are_listed(
    documents: Seq<DocumentModel>,
    wanted: spec_fn(DocumentModel) -> bool,
    n: int,
)
    requires
        0 <= n <= documents.len() <= usize::MAX,
    ensures
        ({
            let listed = batch::places(documents, wanted, n);
            &&& forall|i: int|
                0 <= i < n && wanted(#[trigger] documents[i]) ==> listed.contains(i as usize)
            &&& forall|k: int|
                0 <= k < listed.len() ==> (#[trigger] listed[k]) < n && wanted(
                    documents[listed[k] as int],
                )
            &&& forall|j: int, k: int|
                0 <= j < k < listed.len() ==> (#[trigger] listed[j]) < (#[trigger] listed[k])
        }),
    decreases n,
{
    if n > 0 {
        the_wanted_are_listed(documents, wanted, n - 1);
        let before = batch::places(documents, wanted, n - 1);
        let listed = batch::places(documents, wanted, n);
        assert forall|i: int| 0 <= i < n && wanted(#[trigger] documents[i]) implies listed.contains(
            i as usize,
        ) by {
            if i < n - 1 {
                let k = choose|k: int| 0 <= k < before.len() && before[k] == i as usize;
                assert(listed[k] == i as usize);
            } else {
                assert(listed[before.len() as int] == i as usize);
            }
        }
    }
}

/// Saving everything writes every unsaved document that has a file of its own which
/// nobody else changed, asks a name for every unsaved one that has none, and leaves
/// nothing else but the ones that somebody changed.
pub proof fn saving_all_takes_every_unsaved(document: DocumentModel)
    ensures
        batch::goes(document) <==> document.state.edited && document.origin is Some
            && document.state.change == ExternalChange::Unchanged && !document.state.outside,
        batch::nameless(document) <==> document.state.edited && document.origin is None,
        batch::clashes(document) <==> document.state.edited && document.origin is Some && (
        document.state.change != ExternalChange::Unchanged || document.state.outside),
{
}

// --- work copies ------------------------------------------------------------------------

/// A work copy is due two seconds after the last change, or five after the first one
/// that waits, and only where something waits.
pub proof fn a_copy_is_due_by_its_clocks(state: DocumentState, now: u64)
    ensures
        copies::due(state, now) <==> state.pending_since is Some && (now - state.changed_at >= 2000
            || now - state.pending_since->0 >= 5000),
{
}

/// What a document that waits gets: a copy of its text where it differs from the file,
/// and the removal of the old copy where it does not. A snapshot, and an ordinary
/// document while copies are switched off, get nothing unless it is forced.
pub proof fn a_copy_has_its_cause(
    state: DocumentState,
    autosave: bool,
    place: bool,
    force: bool,
)
    ensures
        ({
            let (after, step) = copies::copy_step(state, autosave, place, force);
            let asked = force || (state.pending_since is Some && !state.read_only && (autosave
                || state.protective_recovery));
            let differs = state.edited || state.change != ExternalChange::Unchanged;
            &&& step == CopyStep::Nothing <==> !asked
            &&& step == CopyStep::Remove <==> asked && place && !differs
            &&& step == (CopyStep::Write { protected: true }) <==> asked && place && differs
                && state.protective_recovery
            &&& step == (CopyStep::Write { protected: false }) <==> asked && place && differs
                && !state.protective_recovery
            &&& step == (CopyStep::NoPlace { tell: true }) <==> asked && !place
                && !state.recovery_failed
            &&& step == (CopyStep::NoPlace { tell: false }) <==> asked && !place
                && state.recovery_failed
            &&& !asked ==> after == state
            &&& after.pending_since == if asked && place {
                None
            } else {
                state.pending_since
            }
            &&& after.recovery_failed == if asked && !place {
                true
            } else if asked && differs {
                false
            } else {
                state.recovery_failed
            }
            &&& after.protective_recovery == (state.protective_recovery && !(asked && place
                && !differs))
            &&& after.edited == state.edited
            &&& after.changed_at == state.changed_at
            &&& after.change == state.change
            &&& after.outside == state.outside
        }),
{
}

/// A copy that is forced of an edited text is protected, whatever is switched off.
pub proof fn a_forced_copy_is_protected(state: DocumentState, place: bool)
    ensures
        ({
            let (after, step) = copies::forced_step(state, place);
            &&& state.edited && place ==> step == (CopyStep::Write { protected: true })
                && after.protective_recovery && after.pending_since is None
            &&& state.edited && !place ==> step is NoPlace && after.protective_recovery
                && after.recovery_failed && after.pending_since == state.pending_since
        }),
{
}

/// A document that is not due gets nothing, and one that is gets what waits for it.
pub proof fn only_the_due_are_copied(
    state: DocumentState,
    autosave: bool,
    place: bool,
    now: u64,
)
    ensures
        !(state.pending_since is Some && (now - state.changed_at >= 2000 || now
            - state.pending_since->0 >= 5000)) ==> copies::due_step(state, autosave, place, now)
            == (state, CopyStep::Nothing),
        state.pending_since is Some && (now - state.changed_at >= 2000 || now
            - state.pending_since->0 >= 5000) ==> copies::due_step(state, autosave, place, now)
            == copies::copy_step(state, autosave, place, false),
{
}

/// The work copy of an untitled text, and of a text whose file did not change since,
/// comes back whole: its text, its place in the file system, its number and its
/// caret, at or before which no character is cut in two.
pub proof fn a_work_copy_comes_back(copy: WorkCopy, opened: Option<OpenedFile>)
    ensures
        ({
            let back = restore::restored(copy, opened);
            &&& back.text == copy.text@
            &&& back.protected == copy.protected
            &&& copy.origin is Some ==> back.origin == Some(copy.origin->0@)
            &&& copy.origin is None ==> back.origin is None
            &&& copy.untitled > 0 ==> back.untitled == copy.untitled
            &&& copy.untitled == 0 ==> back.untitled == 1
            &&& copy.origin is Some ==> (back.present <==> opened is Some)
            &&& copy.origin is None ==> back.present
            &&& copy.origin is None ==> back.saved_text == Some(Seq::<char>::empty())
            &&& copy.origin is Some && opened is Some && copy.stamp is Some && copy.stamp
                == opened->0.agreed ==> back.saved_text == Some(opened->0.text@)
            &&& copy.stamp is Some ==> back.agreed == copy.stamp
            &&& copy.stamp is None && copy.origin is Some && opened is Some ==> back.agreed
                == opened->0.agreed
            &&& copy.caret is None ==> back.caret is None
        }),
{
}

proof fn a_floor_is_a_boundary(text: Seq<char>, byte: int)
    requires
        0 <= byte,
    ensures
        exists|k: int|
            0 <= k <= text.len() && text::floor_at(text, byte) == #[trigger] text::size(
                text.take(k),
            ) && (k < text.len() ==> byte < text::size(text.take(k)) + text::utf8_len(text[k])),
        0 <= text::floor_at(text, byte) <= byte,
    decreases text.len(),
{
    if text.len() == 0 || byte < text::utf8_len(text[0]) {
        assert(text.take(0) =~= Seq::empty());
        text::size_counts(text.take(0));
        assert(text::floor_at(text, byte) == text::size(text.take(0)));
    } else {
        let rest = text.skip(1);
        let left = byte - text::utf8_len(text[0]);
        a_floor_is_a_boundary(rest, left);
        let k = choose|k: int|
            0 <= k <= rest.len() && text::floor_at(rest, left) == #[trigger] text::size(
                rest.take(k),
            ) && (k < rest.len() ==> left < text::size(rest.take(k)) + text::utf8_len(rest[k]));
        assert(text.take(k + 1) =~= seq![text[0]] + rest.take(k));
        text::size_adds(seq![text[0]], rest.take(k));
        text::size_counts(seq![text[0]]);
        assert(text::size(seq![text[0]]) == text::utf8_len(text[0])) by {
            reveal_with_fuel(text::size, 2);
            assert(seq![text[0]].drop_last() =~= Seq::empty());
        }
        assert(text::floor_at(text, byte) == text::size(text.take(k + 1)));
    }
}

/// The caret that comes back stands between two characters, at the last such place
/// that is not behind where it was.
pub proof fn a_caret_comes_back_between_characters(copy: WorkCopy, opened: Option<OpenedFile>)
    requires
        copy.caret is Some,
    ensures
        ({
            let back = restore::restored(copy, opened);
            let byte = copy.caret->0;
            &&& back.caret is Some
            &&& back.caret->0 <= byte
            &&& exists|k: int|
                0 <= k <= copy.text@.len() && back.caret->0 == #[trigger] text::size(
                    copy.text@.take(k),
                ) && (k < copy.text@.len() ==> byte < text::size(copy.text@.take(k))
                    + text::utf8_len(copy.text@[k]))
        }),
{
    a_floor_is_a_boundary(copy.text@, copy.caret->0 as int);
}

/// With copies switched on, every work copy comes back, and each in its place; switched
/// off, every protected one does.
pub proof fn every_work_copy_comes_back(
    kept: Seq<WorkCopy>,
    opened: Seq<Option<OpenedFile>>,
    n: int,
)
    requires
        0 <= n <= kept.len() == opened.len(),
    ensures
        ({
            let all = restore::restored_to(kept, opened, true, n);
            &&& all.len() == n
            &&& forall|i: int|
                0 <= i < n ==> (#[trigger] all[i]).text == kept[i].text@ && all[i]
                    == restore::restored(kept[i], opened[i])
        }),
        forall|i: int|
            0 <= i < n && (#[trigger] kept[i]).protected ==> restore::restored_to(
                kept,
                opened,
                false,
                n,
            ).contains(restore::restored(kept[i], opened[i])),
    decreases n,
{
    if n > 0 {
        every_work_copy_comes_back(kept, opened, n - 1);
        let before = restore::restored_to(kept, opened, false, n - 1);
        let after = restore::restored_to(kept, opened, false, n);
        assert forall|i: int| 0 <= i < n && (#[trigger] kept[i]).protected implies after.contains(
            restore::restored(kept[i], opened[i]),
        ) by {
            let one = restore::restored(kept[i], opened[i]);
            if i < n - 1 {
                let k = choose|k: int| 0 <= k < before.len() && before[k] == one;
                assert(after[k] == one);
            } else {
                assert(after[before.len() as int] == one);
            }
        }
    }
}

// --- what other programs do -------------------------------------------------------------

/// A version of the file that the writer has not heard of is read again where nobody
/// edited the text and a reading pane shows it, and marked everywhere else; the
/// writer is told where the document is in front and no mark stood.
pub proof fn a_change_outside_has_its_answer(state: DocumentState, seen: Sighting, active: bool)
    requires
        seen.change == ExternalChange::Modified,
        seen.stamp is Some,
        state.reported != seen.stamp,
    ensures
        ({
            let (after, check) = changes::checked(state, seen, active);
            let marked = state.outside || state.missing;
            &&& after.reported == seen.stamp
            &&& after.change == ExternalChange::Modified
            &&& !after.missing
            &&& after.edited == state.edited
            &&& !state.edited && seen.reading_view ==> check.act == CheckAct::Reload
                && check.noticed
            &&& (state.edited || !seen.reading_view) ==> after.outside && check.act == if !marked
                && active {
                CheckAct::TellChanged
            } else {
                CheckAct::Quiet
            }
            &&& (state.edited || !seen.reading_view) && !marked ==> check.noticed
        }),
{
}

/// A version that the writer has heard of, and a file that is as it was, are no news.
pub proof fn no_change_is_no_news(state: DocumentState, seen: Sighting, active: bool)
    requires
        seen.change == ExternalChange::Unchanged || (seen.change == ExternalChange::Modified && (
        seen.stamp is None || state.reported == seen.stamp)),
        !state.missing,
    ensures
        changes::checked(state, seen, active) == (
            DocumentState { change: seen.change, ..state },
            changes::Check { noticed: false, act: CheckAct::Quiet },
        ),
{
}

/// A file that is gone is marked and told of in front; one that is back is not missing
/// any more, and marked only where it is another version.
pub proof fn a_file_that_goes_and_comes(state: DocumentState, seen: Sighting, active: bool)
    ensures
        ({
            let (after, check) = changes::checked(state, seen, active);
            &&& seen.change == ExternalChange::Missing && !state.missing ==> after.missing
                && after.outside && check.noticed && check.act == if active {
                CheckAct::TellMissing
            } else {
                CheckAct::Quiet
            }
            &&& seen.change == ExternalChange::Unchanged && state.missing ==> !after.missing
                && !after.outside && check.noticed && check.act == CheckAct::Quiet
            &&& after.edited == state.edited
            &&& after.pending_since == state.pending_since
        }),
{
}

/// Reading a file again replaces the text and leaves nothing unsaved, unless there is
/// no file, the document is a snapshot, or it could not be read.
pub proof fn reading_again_replaces_the_text(state: DocumentState, outcome: ReloadOutcome)
    ensures
        ({
            let (after, step) = changes::reloaded(state, outcome);
            &&& step == ReloadStep::Replace <==> outcome == ReloadOutcome::Read && !state.read_only
            &&& step == ReloadStep::TellFailed <==> outcome == ReloadOutcome::Failed
                && !state.read_only
            &&& step != ReloadStep::Replace ==> after == state
            &&& step == ReloadStep::Replace ==> !after.edited && after.pending_since is None
                && after.change == ExternalChange::Unchanged && !after.outside && !after.missing
                && after.form == state.form && after.id == state.id
        }),
{
}

// --- direct saving ----------------------------------------------------------------------

/// A document is taken in exactly where its folder asks for it and it has a file; it
/// leaves where its folder no longer does; and where the file cannot be found,
/// nothing changes.
pub proof fn direct_saving_takes_in_and_lets_go(
    entries: Seq<EntryModel>,
    document: DocumentModel,
    seen: FolderSighting,
    place: bool,
    now: u64,
)
    requires
        document.origin is Some,
        autosave::entry_of(entries, document.state.id) is None,
    ensures
        ({
            let (after, state, step) = autosave::enrolled(entries, document, seen, place, now);
            &&& state == document.state
            &&& step is None
            &&& !(seen.resolves && seen.auto_save) ==> after == entries
            &&& seen.resolves && seen.auto_save ==> after.len() == entries.len() + 1
                && after.last().state.document == document.state.id && after.last().path
                == document.origin->0 && after.last().state.armed_at == now
                && after.last().state.paused is None && after.drop_last() == entries
        }),
{
    let after = autosave::enrolled(entries, document, seen, place, now).0;
    if after.len() > entries.len() {
        assert(after.drop_last() =~= entries);
    }
}

/// Direct saving is stopped by a reader or a read-only file, by a change of the file,
/// and by nothing else.
pub proof fn a_pause_has_its_cause(state: DocumentState, seen: FolderSighting)
    ensures
        autosave::blocking_pause(state, seen) == Some(AutoSavePause::ReadOnly) <==> (
        seen.reading_view || state.read_only || seen.disk_read_only),
        autosave::blocking_pause(state, seen) == Some(AutoSavePause::Conflict) <==> !(
        seen.reading_view || state.read_only || seen.disk_read_only) && state.change
            != ExternalChange::Unchanged,
        autosave::blocking_pause(state, seen) != Some(AutoSavePause::WriteFailed),
{
}

/// How a document stands: off where it was not taken in, paused where it is, waiting
/// where it has changes that count, and at rest otherwise.
pub proof fn a_standing_has_its_cause(entries: Seq<EntryModel>, state: DocumentState)
    ensures
        ({
            let status = autosave::status_of(entries, state);
            let there = exists|i: int|
                0 <= i < entries.len() && (#[trigger] entries[i]).state.document == state.id;
            &&& status == AutoSaveStatus::Off <==> !there
            &&& status == AutoSaveStatus::Pending ==> state.edited
            &&& autosave::distinct(entries) ==> forall|i: int|
                0 <= i < entries.len() && (#[trigger] entries[i]).state.document == state.id ==> {
                    &&& entries[i].state.paused is Some ==> status == AutoSaveStatus::Paused(
                        entries[i].state.paused->0,
                    )
                    &&& entries[i].state.paused is None ==> status == if state.edited
                        && state.changed_at > entries[i].state.armed_at {
                        AutoSaveStatus::Pending
                    } else {
                        AutoSaveStatus::Idle
                    }
                }
        }),
{
    autosave::entry_holds(entries, state.id, entries.len() as int);
    let found = autosave::entry_of(entries, state.id);
    if autosave::distinct(entries) {
        assert forall|i: int|
            0 <= i < entries.len() && (#[trigger] entries[i]).state.document
                == state.id implies found == Some(i) by {
            let one = found->0;
            if one < i {
                assert(entries[one].state.document != entries[i].state.document);
            } else if i < one {
                assert(entries[i].state.document != entries[one].state.document);
            }
        }
    }
}

/// A write that worked clears the pause; one that did not leaves it, and an edited text
/// goes to its work copy.
pub proof fn a_write_settles_the_pause(
    entry: EntryState,
    state: DocumentState,
    written: bool,
    place: bool,
)
    ensures
        ({
            let (after, now, act) = autosave::settled(entry, state, written, place);
            &&& written ==> after.paused is None && after.protected_at is None && now == state
                && act == DriveAct::Rest
            &&& !written ==> after.paused == Some(AutoSavePause::WriteFailed)
            &&& !written && state.edited && place && entry.protected_at != Some(state.changed_at)
                ==> act == DriveAct::Copy(CopyStep::Write { protected: true })
            &&& after.armed_at == entry.armed_at
            &&& after.document == entry.document
        }),
{
}

} // verus!
