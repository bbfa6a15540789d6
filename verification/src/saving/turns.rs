//! How a run over all documents goes on, which work copies go, and what is counted.
use crate::saving::autosave;
use crate::saving::batch::{BatchStep, SaveAll};
use crate::saving::changes::{self, Check, CheckAct, ReopenOutcome, Sighting};
use crate::saving::copies::{self, PaneCaret, WriteResult, WriteTold};
use crate::saving::document::{
    CopyName, Document, DocumentModel, DocumentState, ExternalChange,
};
use crate::table_edit::cells;
use crate::text;
use vstd::prelude::*;

verus! {

/// The documents come in the order of their list: those with a file are written, for the
/// others a name is asked for, and then it is over.
pub proof fn documents_come_in_their_order(run: SaveAll)
    ensures
        run.upcoming() is Finished <==> run.done >= run.queue@.len(),
        run.upcoming() is Write <==> run.done < run.queue@.len() && run.done < run.named,
        run.upcoming() is Write ==> run.upcoming() == BatchStep::Write(
            run.queue@[run.done as int],
        ),
        run.upcoming() is Ask ==> run.upcoming() == BatchStep::Ask(run.queue@[run.done as int]),
{
}

/// Looking at files changes only the documents that are looked at.
pub proof fn only_the_chosen_are_looked_at(
    document: DocumentModel,
    seen: Sighting,
    active: u64,
)
    ensures
        changes::checked_if(document, false, seen, active) == (
            document,
            (Check { noticed: false, act: CheckAct::Quiet }),
        ),
        changes::checked_if(document, true, seen, active).0.origin == document.origin,
        changes::checked_if(document, true, seen, active).0.state.change == seen.change,
        changes::checked_if(document, true, seen, active).0.state.edited == document.state.edited,
{
}

/// A file that is opened again in an encoding agrees with the text from then on. Where it
/// could not be read, the document is as it was.
pub proof fn a_file_is_opened_again(
    state: DocumentState,
    outcome: ReopenOutcome,
    encoding: u32,
)
    ensures
        ({
            let after = changes::reopened(state, outcome, encoding);
            &&& !(outcome is Read) ==> after == state
            &&& outcome is Read ==> {
                &&& after.form.encoding == encoding
                &&& !after.edited
                &&& after.pending_since is None
                &&& after.change == ExternalChange::Unchanged
                &&& after.id == state.id
            }
        }),
{
}

/// The caret that goes with a work copy is that of the pane in use where it shows the
/// document, else that of the first pane that does.
pub proof fn a_caret_comes_from_its_pane(
    focused: PaneCaret,
    panes: Seq<PaneCaret>,
    id: u64,
    at: int,
)
    ensures
        focused.document == id ==> copies::caret_shown(focused, panes, id) == focused.caret,
        focused.document != id && 0 <= at < panes.len() && panes[at].document == id && (forall|
            k: int,
        |
            0 <= k < at ==> (#[trigger] panes[k]).document != id) ==> copies::caret_shown(
            focused,
            panes,
            id,
        ) == panes[at].caret,
        focused.document != id && (forall|k: int|
            0 <= k < panes.len() ==> (#[trigger] panes[k]).document != id) ==> copies::caret_shown(
            focused,
            panes,
            id,
        ) is None,
    decreases panes.len(),
{
    if focused.document != id && panes.len() > 0 {
        let rest = panes.skip(1);
        assert forall|k: int| 0 <= k < rest.len() implies #[trigger] rest[k] == panes[k + 1] by {}
        a_caret_comes_from_its_pane(panes[0], rest, id, at - 1);
        if forall|k: int| 0 <= k < panes.len() ==> (#[trigger] panes[k]).document != id {
            assert(panes[0].document != id);
            assert forall|k: int| 0 <= k < rest.len() implies (#[trigger] rest[k]).document
                != id by {
                assert(panes[k + 1].document != id);
            }
        }
        if 0 < at < panes.len() && (forall|k: int|
            0 <= k < at ==> (#[trigger] panes[k]).document != id) {
            assert(panes[0].document != id);
            assert forall|k: int| 0 <= k < at - 1 implies (#[trigger] rest[k]).document != id by {
                assert(panes[k + 1].document != id);
            }
            assert(rest[at - 1] == panes[at]);
        }
    }
}

/// Of the names that are there, those that nothing protects go, each once.
pub proof fn what_is_not_protected_goes(
    listed: Seq<CopyName>,
    protected: Set<CopyName>,
    name: CopyName,
)
    ensures
        copies::dropped(listed, protected).contains(name) <==> listed.contains(name)
            && !protected.contains(name),
        copies::dropped(listed, protected).no_duplicates(),
    decreases listed.len(),
{
    if listed.len() > 0 {
        let rest = listed.drop_last();
        let last = listed.last();
        let before = copies::dropped(rest, protected);
        let after = copies::dropped(listed, protected);
        what_is_not_protected_goes(rest, protected, name);
        what_is_not_protected_goes(rest, protected, last);
        if rest.contains(name) {
            let k = choose|k: int| 0 <= k < rest.len() && rest[k] == name;
            assert(listed[k] == name);
        }
        if listed.contains(name) {
            let k = choose|k: int| 0 <= k < listed.len() && listed[k] == name;
            if k < rest.len() {
                assert(rest[k] == name);
            }
        }
        if after.len() > before.len() {
            assert(after[before.len() as int] == last);
            if before.contains(name) {
                let k = choose|k: int| 0 <= k < before.len() && before[k] == name;
                assert(after[k] == name);
            }
            if after.contains(name) {
                let k = choose|k: int| 0 <= k < after.len() && after[k] == name;
                if k < before.len() {
                    assert(before[k] == name);
                }
            }
            assert(listed[listed.len() - 1] == last);
        } else {
            assert(listed[listed.len() - 1] == last);
        }
    }
}

/// The documents that wait for a work copy are all counted, and no other.
pub proof fn all_that_wait_are_counted(documents: Seq<Document>, n: int)
    requires
        0 <= n <= documents.len(),
    ensures
        0 <= copies::waiting(documents, n) <= n,
        copies::waiting(documents, n) == 0 <==> forall|k: int|
            0 <= k < n ==> (#[trigger] documents[k]).state.pending_since is None,
        copies::waiting(documents, n) == n <==> forall|k: int|
            0 <= k < n ==> (#[trigger] documents[k]).state.pending_since is Some,
    decreases n,
{
    if n > 0 {
        all_that_wait_are_counted(documents, n - 1);
        assert(documents[n - 1] == documents[n - 1]);
    }
}

/// The protected documents without a work copy are all counted, and no other.
pub proof fn all_without_a_copy_are_counted(documents: Seq<Document>, n: int)
    requires
        0 <= n <= documents.len(),
    ensures
        0 <= autosave::unprotected_among(documents, n) <= n,
        autosave::unprotected_among(documents, n) == 0 <==> forall|k: int|
            0 <= k < n ==> !((#[trigger] documents[k]).state.protective_recovery
                && documents[k].state.recovery_failed),
        autosave::unprotected_among(documents, n) == n <==> forall|k: int|
            0 <= k < n ==> (#[trigger] documents[k]).state.protective_recovery
                && documents[k].state.recovery_failed,
    decreases n,
{
    if n > 0 {
        all_without_a_copy_are_counted(documents, n - 1);
        assert(documents[n - 1] == documents[n - 1]);
    }
}

/// The work copies are switched off by a plain zero under their name, and by nothing
/// else.
pub proof fn a_zero_switches_off(values: Seq<(String, String)>, name: Seq<char>, at: int)
    ensures
        (forall|k: int| 0 <= k < values.len() ==> (#[trigger] values[k]).0@ != name)
            ==> copies::left_on(values, name),
        0 <= at < values.len() && values[at].0@ == name && (forall|k: int|
            0 <= k < at ==> (#[trigger] values[k]).0@ != name) ==> (values[at].1@ == seq!['0']
            ==> !copies::left_on(values, name)) && (!values[at].1@.contains('0')
            ==> copies::left_on(values, name)),
    decreases values.len(),
{
    if values.len() > 0 {
        let rest = values.skip(1);
        assert forall|k: int| 0 <= k < rest.len() implies #[trigger] rest[k] == values[k + 1] by {}
        a_zero_switches_off(rest, name, at - 1);
        if values[0].0@ == name {
            let value = values[0].1@;
            let (start, end) = text::trimmed(value, 0, value.len() as int);
            cells::trims_within(value, 0, value.len() as int);
            if value == seq!['0'] {
                reveal_with_fuel(text::skip_space, 2);
                reveal_with_fuel(text::back_space, 2);
                assert(value.subrange(start, end) =~= seq!['0']);
            }
            if !value.contains('0') && value.subrange(start, end) == seq!['0'] {
                let kept = value.subrange(start, end);
                assert(kept.len() == 1 && kept[0] == '0');
                assert(kept.len() == end - start);
                assert(value[start] == kept[0]);
            }
        } else {
            if forall|k: int| 0 <= k < values.len() ==> (#[trigger] values[k]).0@ != name {
                assert forall|k: int| 0 <= k < rest.len() implies (#[trigger] rest[k]).0@
                    != name by {
                    assert(values[k + 1].0@ != name);
                }
            }
            if 0 < at < values.len() && (forall|k: int|
                0 <= k < at ==> (#[trigger] values[k]).0@ != name) {
                assert forall|k: int| 0 <= k < at - 1 implies (#[trigger] rest[k]).0@ != name by {
                    assert(values[k + 1].0@ != name);
                }
                assert(rest[at - 1] == values[at]);
            }
        }
    }
}

/// What is told of work copies is of the last job that failed; one that newer work took
/// the place of did not fail.
pub proof fn the_last_failure_is_told(results: Seq<WriteResult>, n: int, at: int)
    requires
        0 <= at < n <= results.len(),
        results[at].failed && !results[at].superseded,
        forall|k: int|
            at < k < n ==> !(#[trigger] results[k]).failed || results[k].superseded,
    ensures
        copies::told_among(results, n) == Some(
            if results[at].removed {
                WriteTold::CouldNotClear
            } else {
                WriteTold::CouldNotBackUp
            },
        ),
    decreases n,
{
    if at < n - 1 {
        assert(!results[n - 1].failed || results[n - 1].superseded);
        the_last_failure_is_told(results, n - 1, at);
    }
}

/// Where no job failed, nothing is told and no copy is lost.
pub proof fn no_failure_is_not_told(results: Seq<WriteResult>, n: int)
    requires
        0 <= n <= results.len(),
        forall|k: int| 0 <= k < n ==> !(#[trigger] results[k]).failed || results[k].superseded,
    ensures
        copies::told_among(results, n) is None,
        copies::lost_among(results, n) == 0,
    decreases n,
{
    if n > 0 {
        assert(!results[n - 1].failed || results[n - 1].superseded);
        no_failure_is_not_told(results, n - 1);
    }
}

/// Unsaved changes wait from the moment that they were first seen; a copy that did not
/// land waits again.
pub proof fn changes_wait_from_the_first(state: DocumentState, now: u64)
    ensures
        !state.edited ==> copies::marked_pending(state, now) == state,
        state.edited && state.pending_since is None ==> copies::marked_pending(
            state,
            now,
        ).pending_since == Some(now),
        state.pending_since is Some ==> copies::marked_pending(state, now).pending_since
            == state.pending_since,
        copies::marked_failed(state, now).recovery_failed,
        state.pending_since is None ==> copies::marked_failed(state, now).pending_since == Some(
            now,
        ),
        state.pending_since is Some ==> copies::marked_failed(state, now).pending_since
            == state.pending_since,
{
}

} // verus!
