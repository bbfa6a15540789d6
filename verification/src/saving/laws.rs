//! What saving promises as a whole.
use crate::saving::autosave::{self, AutoSavePause, DriveAct, EntryModel, FolderSighting};
use crate::saving::batch;
use crate::saving::changes::{self, CheckAct, Sighting};
use crate::saving::copies::{self, CopyStep, WriteResult, WORK_COPY_IDLE, WORK_COPY_LONGEST};
use crate::saving::document::{CopyName, DocumentModel, DocumentState, ExternalChange};
use crate::saving::restore::{self, OpenedFile, WorkCopy};
use crate::saving::writing::{self, TargetAct};
use vstd::prelude::*;

verus! {

/// However long somebody keeps typing, what they typed never waits longer than
/// the limit for a work copy.
pub proof fn long_typing_is_copied(state: DocumentState, now: u64)
    requires
        state.pending_since is Some,
        now - state.pending_since->0 >= WORK_COPY_LONGEST,
    ensures
        copies::due(state, now),
{
}

/// With work copies switched off, nothing is written, and the changes go on
/// waiting: switched on again, they are still there to be copied.
pub proof fn switched_off_copies_wait(state: DocumentState, place: bool)
    requires
        !state.protective_recovery,
    ensures
        copies::copy_step(state, false, place, false) == (state, CopyStep::Nothing),
{
}

/// The waiting ends only with a copy that is written or removed, and a copy
/// that is asked for is written or removed wherever there is a place for it.
pub proof fn waiting_ends_with_a_copy(
    state: DocumentState,
    autosave: bool,
    place: bool,
    force: bool,
)
    ensures
        ({
            let (after, step) = copies::copy_step(state, autosave, place, force);
            &&& (state.pending_since is Some && after.pending_since is None) ==> (step is Write
                || step is Remove)
            &&& (force && place) ==> (step is Write || step is Remove)
            &&& step is Remove ==> !state.edited && state.change == ExternalChange::Unchanged
        }),
{
}

/// Switched on again, every unsaved document waits for a work copy, and one
/// that already waited keeps its clock.
pub proof fn switched_on_again_all_wait(state: DocumentState, now: u64)
    ensures
        state.edited ==> copies::marked_pending(state, now).pending_since is Some,
        state.pending_since is Some ==> copies::marked_pending(state, now) == state,
        !state.edited ==> copies::marked_pending(state, now) == state,
{
}

/// Dropping all work copies drops every name that is listed and not protected,
/// no protected one, and none twice.
pub proof fn dropping_all_spares_the_protected(listed: Seq<CopyName>, protected: Set<CopyName>)
    ensures
        forall|name: CopyName|
            copies::dropped(listed, protected).contains(name) <==> listed.contains(name)
                && !protected.contains(name),
        forall|i: int, j: int|
            0 <= i < j < copies::dropped(listed, protected).len() ==> copies::dropped(
                listed,
                protected,
            )[i] != copies::dropped(listed, protected)[j],
    decreases listed.len(),
{
    if listed.len() > 0 {
        let first = listed.drop_last();
        let last = listed.last();
        let before = copies::dropped(first, protected);
        let after = copies::dropped(listed, protected);
        dropping_all_spares_the_protected(first, protected);
        assert(listed =~= first.push(last));
        assert forall|name: CopyName|
            after.contains(name) <==> listed.contains(name) && !protected.contains(name) by {
            assert(listed.contains(name) <==> first.contains(name) || name == last) by {
                if listed.contains(name) {
                    let i = choose|i: int| 0 <= i < listed.len() && listed[i] == name;
                    if i < first.len() {
                        assert(first[i] == name);
                    }
                }
                if first.contains(name) {
                    let i = choose|i: int| 0 <= i < first.len() && first[i] == name;
                    assert(listed[i] == name);
                }
                if name == last {
                    assert(listed[listed.len() - 1] == name);
                }
            }
            if !(protected.contains(last) || before.contains(last)) {
                assert(after == before.push(last));
                if before.contains(name) {
                    let i = choose|i: int| 0 <= i < before.len() && before[i] == name;
                    assert(after[i] == name);
                }
                if name == last {
                    assert(after[before.len() as int] == name);
                }
            }
        }
    }
}

/// A job whose place a newer one took changes nothing and is not counted.
pub proof fn a_superseded_job_is_silent(
    documents: Seq<DocumentModel>,
    results: Seq<WriteResult>,
    now: u64,
    n: int,
)
    requires
        0 < n <= results.len(),
        results[n - 1].superseded,
    ensures
        copies::after_results(documents, results, now, n) == copies::after_results(
            documents,
            results,
            now,
            n - 1,
        ),
        copies::lost_among(results, n) == copies::lost_among(results, n - 1),
        copies::told_among(results, n) == copies::told_among(results, n - 1),
{
}

/// A name that is found stands at that place.
pub proof fn the_named_document_is_found(documents: Seq<DocumentModel>, name: CopyName)
    ensures
        match copies::named_at(documents, name) {
            Some(at) => 0 <= at < documents.len() && documents[at].copy_name() == name,
            None => forall|i: int|
                0 <= i < documents.len() ==> (#[trigger] documents[i]).copy_name() != name,
        },
    decreases documents.len(),
{
    if documents.len() > 0 && documents[0].copy_name() != name {
        let rest = documents.skip(1);
        the_named_document_is_found(rest, name);
        if copies::named_at(rest, name) is None {
            assert forall|i: int| 0 <= i < documents.len() implies (
            #[trigger] documents[i]).copy_name() != name by {
                if i > 0 {
                    assert(rest[i - 1] == documents[i]);
                }
            }
        }
    }
}

/// A work copy that did not land is tried again: its document waits, and knows.
pub proof fn a_lost_copy_is_tried_again(
    documents: Seq<DocumentModel>,
    results: Seq<WriteResult>,
    now: u64,
    n: int,
)
    requires
        0 < n <= results.len(),
        copies::is_failure(results[n - 1]),
    ensures
        match copies::named_at(
            copies::after_results(documents, results, now, n - 1),
            results[n - 1].copy@,
        ) {
            Some(at) => {
                let state = copies::after_results(documents, results, now, n)[at].state;
                state.pending_since is Some && state.recovery_failed
            },
            None => true,
        },
{
    the_named_document_is_found(
        copies::after_results(documents, results, now, n - 1),
        results[n - 1].copy@,
    );
}

/// Nobody's unsaved work is replaced by what another program wrote.
pub proof fn an_edited_text_is_never_replaced(state: DocumentState, seen: Sighting, active: bool)
    requires
        state.edited,
    ensures
        changes::checked(state, seen, active).1.act != CheckAct::Reload,
        changes::checked(state, seen, active).0.edited,
{
}

/// While the mark of an outside change stands, the writer is not told again,
/// whatever the file does short of going away.
pub proof fn an_outside_change_is_told_once(
    state: DocumentState,
    first: Sighting,
    second: Sighting,
    active: bool,
)
    requires
        changes::checked(state, first, active).1.act == CheckAct::TellChanged,
    ensures
        changes::checked(
            changes::checked(state, first, active).0,
            second,
            active,
        ).1.act != CheckAct::TellChanged,
{
}

/// A file that goes away is told of once, until it is back.
pub proof fn a_missing_file_is_told_once(
    state: DocumentState,
    first: Sighting,
    second: Sighting,
    active: bool,
)
    requires
        first.change == ExternalChange::Missing,
        second.change == ExternalChange::Missing,
    ensures
        changes::checked(changes::checked(state, first, active).0, second, active)
            == (changes::checked(state, first, active).0, changes::nothing_new()),
{
}

/// A file that changed while the editor was closed is no baseline: the
/// restored text counts as unsaved against it.
pub proof fn a_changed_file_is_no_baseline(copy: WorkCopy, opened: Option<OpenedFile>)
    requires
        copy.origin is Some,
        opened is Some ==> copy.stamp != opened->0.agreed || copy.stamp is None,
    ensures
        restore::restored(copy, opened).saved_text is None,
        copy.stamp is Some ==> restore::restored(copy, opened).agreed == copy.stamp,
{
}

/// With work copies switched off, only protected ones come back.
pub proof fn switched_off_only_the_protected_return(
    kept: Seq<WorkCopy>,
    opened: Seq<Option<OpenedFile>>,
    n: int,
)
    requires
        0 <= n <= kept.len(),
    ensures
        forall|i: int|
            0 <= i < restore::restored_to(kept, opened, false, n).len() ==> (
            #[trigger] restore::restored_to(kept, opened, false, n)[i]).protected,
    decreases n,
{
    if n > 0 {
        switched_off_only_the_protected_return(kept, opened, n - 1);
    }
}

/// The silent save writes only a document's own, present, unchanged file, and
/// never one that another tab has open.
pub proof fn a_silent_save_hurts_nobody(documents: Seq<DocumentModel>, at: int, target: Seq<char>)
    requires
        0 <= at < documents.len(),
        writing::first_step(documents[at], false, false) is Ready,
        documents[at].is_at(target),
        writing::target_step(documents, at, target) == TargetAct::Write,
    ensures
        documents[at].state.change == ExternalChange::Unchanged,
        !documents[at].state.outside,
        !documents[at].state.read_only,
        writing::file_of(documents, target) is None || writing::file_of(documents, target) == Some(
            at,
        ),
{
}

/// Saving everything writes to no file that another program changed: `going`
/// are the places that it writes.
pub proof fn saving_all_leaves_the_changed(documents: Seq<DocumentModel>, going: Seq<usize>, n: int)
    requires
        0 <= n <= documents.len() <= usize::MAX,
        going == batch::places(documents, |d: DocumentModel| batch::goes(d), n),
    ensures
        forall|i: int|
            0 <= i < going.len() ==> {
                let place = #[trigger] going[i];
                &&& place < n
                &&& documents[place as int].state.change == ExternalChange::Unchanged
                &&& !documents[place as int].state.outside
            },
    decreases n,
{
    if n > 0 {
        let before = batch::places(documents, |d: DocumentModel| batch::goes(d), n - 1);
        saving_all_leaves_the_changed(documents, before, n - 1);
    }
}

/// Direct saving writes only changes made after the document was taken in, to
/// a file that nobody else changed, once the writer has paused.
pub proof fn direct_saving_writes_only_what_is_new(
    entry: EntryModel,
    document: DocumentModel,
    seen: FolderSighting,
    place: bool,
    now: u64,
)
    requires
        autosave::driven(entry, document, seen, place, now).act == DriveAct::Write,
    ensures
        document.is_at(entry.path),
        document.state.edited,
        document.state.changed_at > entry.state.armed_at,
        now - document.state.changed_at >= WORK_COPY_IDLE,
        document.state.change == ExternalChange::Unchanged,
        !document.state.read_only && !seen.disk_read_only && !seen.reading_view,
{
}

/// And it does write such a change.
pub proof fn direct_saving_writes_what_is_new(
    entry: EntryModel,
    document: DocumentModel,
    seen: FolderSighting,
    place: bool,
    now: u64,
)
    requires
        document.is_at(entry.path),
        document.state.edited,
        document.state.changed_at > entry.state.armed_at,
        now - document.state.changed_at >= WORK_COPY_IDLE,
        document.state.change == ExternalChange::Unchanged,
        !document.state.read_only && !seen.disk_read_only && !seen.reading_view,
    ensures
        autosave::driven(entry, document, seen, place, now).act == DriveAct::Write,
        autosave::driven(entry, document, seen, place, now).entry.armed_at
            == document.state.changed_at,
{
}

/// Text that was unsaved before a document was taken in is never written over
/// the file by direct saving.
pub proof fn text_from_before_is_left(
    document: DocumentModel,
    path: Seq<char>,
    taken_in: u64,
    seen: FolderSighting,
    place: bool,
    now: u64,
)
    requires
        document.state.changed_at <= taken_in,
    ensures
        autosave::driven(
            autosave::fresh(document.state.id, path, taken_in),
            document,
            seen,
            place,
            now,
        ).act != DriveAct::Write,
{
}

/// A write that failed is not tried again on the same text: it takes a new
/// change.
pub proof fn a_failed_write_waits_for_a_change(
    entry: EntryModel,
    document: DocumentModel,
    seen: FolderSighting,
    place: bool,
    now: u64,
    seen_later: FolderSighting,
    place_later: bool,
    later: u64,
)
    requires
        autosave::driven(entry, document, seen, place, now).act == DriveAct::Write,
    ensures
        ({
            let made = autosave::driven(entry, document, seen, place, now);
            let (held, state, _) = autosave::settled(made.entry, document.state, false, place);
            &&& held.paused == Some(AutoSavePause::WriteFailed)
            &&& autosave::driven(
                EntryModel { state: held, ..entry },
                document.with(state),
                seen_later,
                place_later,
                later,
            ).act != DriveAct::Write
        }),
{
}

/// A conflict or a read-only file pauses direct saving for exactly as long as
/// it lasts.
pub proof fn a_pause_lasts_as_long_as_its_cause(
    entry: EntryModel,
    document: DocumentModel,
    seen: FolderSighting,
    place: bool,
    now: u64,
)
    requires
        document.is_at(entry.path),
    ensures
        ({
            let made = autosave::driven(entry, document, seen, place, now);
            match autosave::blocking_pause(document.state, seen) {
                Some(pause) => made.entry.paused == Some(pause) && made.act != DriveAct::Write,
                None => made.entry.paused is None || made.entry.paused == Some(
                    AutoSavePause::WriteFailed,
                ),
            }
        }),
{
}

/// The same pause is told once.
pub proof fn a_pause_is_told_once(
    entry: EntryModel,
    document: DocumentModel,
    seen: FolderSighting,
    place: bool,
    now: u64,
    later: u64,
)
    requires
        document.is_at(entry.path),
        autosave::blocking_pause(document.state, seen) is Some,
    ensures
        ({
            let made = autosave::driven(entry, document, seen, place, now);
            autosave::driven(
                EntryModel { state: made.entry, ..entry },
                document.with(made.state),
                seen,
                place,
                later,
            ).told is None
        }),
{
}

/// While writing is blocked, the text is put aside, and the same text not
/// twice.
pub proof fn blocked_text_is_put_aside_once(
    entry: EntryModel,
    document: DocumentModel,
    seen: FolderSighting,
    now: u64,
    later: u64,
)
    requires
        document.is_at(entry.path),
        document.state.edited,
        entry.state.protected_at != Some(document.state.changed_at),
        autosave::blocking_pause(document.state, seen) is Some,
    ensures
        ({
            let made = autosave::driven(entry, document, seen, true, now);
            &&& made.act == DriveAct::Copy(CopyStep::Write { protected: true })
            &&& made.state.protective_recovery
            &&& autosave::driven(
                EntryModel { state: made.entry, ..entry },
                document.with(made.state),
                seen,
                true,
                later,
            ).act == DriveAct::Rest
        }),
{
}

/// A document whose file cannot be found keeps its place in direct saving.
pub proof fn an_outage_keeps_the_entry(
    entries: Seq<EntryModel>,
    document: DocumentModel,
    seen: FolderSighting,
    place: bool,
    now: u64,
    at: int,
)
    requires
        !seen.resolves,
        autosave::entry_of(entries, document.state.id) == Some(at),
        document.is_at(entries[at].path),
    ensures
        autosave::enrolled(entries, document, seen, place, now) == (
            entries,
            document.state,
            None::<CopyStep>,
        ),
        autosave::observed(entries, document, seen, now) == (entries, document.state),
{
}

/// A document that leaves direct saving with unsaved text is put aside first,
/// and the copy is kept.
pub proof fn leaving_puts_the_text_aside(
    entries: Seq<EntryModel>,
    document: DocumentModel,
    seen: FolderSighting,
    now: u64,
    at: int,
)
    requires
        seen.resolves,
        !seen.auto_save,
        document.origin is Some,
        document.state.edited,
        autosave::entry_of(entries, document.state.id) == Some(at),
    ensures
        ({
            let (after, state, step) = autosave::enrolled(entries, document, seen, true, now);
            &&& after == entries.remove(at)
            &&& state.protective_recovery
            &&& step == Some(CopyStep::Write { protected: true })
        }),
        ({
            let (after, state) = autosave::observed(entries, document, seen, now);
            &&& after == entries.remove(at)
            &&& state.protective_recovery && state.pending_since is Some
        }),
{
}

} // verus!
