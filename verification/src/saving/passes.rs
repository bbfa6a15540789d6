//! What whole passes of direct saving promise of one document.
use crate::saving::autosave::{
    self, AutoSavePause, AutoSaveStatus, DriveAct, EntryModel, FolderSighting, Round, TickStep,
};
use crate::saving::copies::WORK_COPY_IDLE;
use crate::saving::document::{self, DocumentModel};
use vstd::prelude::*;

verus! {

/// The entry of a document.
pub open spec fn held_entry(entries: Seq<EntryModel>, id: u64) -> Option<EntryModel> {
    match autosave::entry_of(entries, id) {
        Some(at) => Some(entries[at]),
        None => None,
    }
}

/// The entry that a pass drives for a document that is under direct saving: the
/// one it has for its file, or a new one.
pub open spec fn entry_for(
    entries: Seq<EntryModel>,
    document: DocumentModel,
    now: u64,
) -> EntryModel {
    match held_entry(entries, document.state.id) {
        Some(entry) if document.is_at(entry.path) => entry,
        _ => autosave::fresh(document.state.id, document.origin->0, now),
    }
}

/// The document is under direct saving in this pass: its folder asks for it, or it
/// was and its file cannot be found.
pub open spec fn under(
    entries: Seq<EntryModel>,
    document: DocumentModel,
    seen: FolderSighting,
) -> bool {
    let held = held_entry(entries, document.state.id);
    &&& document.origin is Some
    &&& if seen.resolves {
        seen.auto_save
    } else {
        held is Some && document.is_at(held->0.path)
    }
}

/// The steps of a pass for one document.
pub open spec fn steps_for(steps: Seq<TickStep>, id: u64) -> Seq<TickStep> {
    steps.filter(|step: TickStep| step.document == id)
}

proof fn one_more_step(steps: Seq<TickStep>, step: TickStep, id: u64)
    ensures
        steps_for(steps.push(step), id) == if step.document == id {
            steps_for(steps, id).push(step)
        } else {
            steps_for(steps, id)
        },
{
    reveal(Seq::filter);
    assert(steps.push(step).drop_last() =~= steps);
}

proof fn an_entry_is_held(entries: Seq<EntryModel>, id: u64, at: int)
    requires
        autosave::distinct(entries),
        0 <= at < entries.len(),
        entries[at].state.document == id,
    ensures
        autosave::entry_of(entries, id) == Some(at),
        held_entry(entries, id) == Some(entries[at]),
{
    autosave::entry_holds(entries, id, entries.len() as int);
    let found = autosave::entry_of(entries, id);
    if found is Some {
        let one = found->0;
        if one < at {
            assert(entries[one].state.document != entries[at].state.document);
        } else if one > at {
            assert(entries[at].state.document != entries[one].state.document);
        }
    } else {
        assert(entries[at].state.document != id);
    }
}

proof fn a_held_entry_is_there(entries: Seq<EntryModel>, id: u64)
    ensures
        match held_entry(entries, id) {
            Some(entry) => entry.state.document == id && 0 <= autosave::entry_of(entries, id)->0
                < entries.len(),
            None => forall|i: int|
                0 <= i < entries.len() ==> (#[trigger] entries[i]).state.document != id,
        },
{
    autosave::entry_holds(entries, id, entries.len() as int);
}

proof fn a_document_is_found(documents: Seq<DocumentModel>, at: int)
    requires
        document::numbered_apart(documents),
        0 <= at < documents.len(),
    ensures
        document::place_of(documents, documents[at].state.id) == Some(at),
{
    not_before(documents, documents[at].state.id, at, at);
    document::found_early(documents, documents[at].state.id, at, documents.len() as int);
}

proof fn not_before(documents: Seq<DocumentModel>, id: u64, at: int, n: int)
    requires
        document::numbered_apart(documents),
        0 <= n <= at < documents.len(),
        documents[at].state.id == id,
    ensures
        document::place_among(documents, id, n) is None,
    decreases n,
{
    if n > 0 {
        not_before(documents, id, at, n - 1);
        assert(documents[n - 1].state.id != documents[at].state.id);
    }
}

proof fn a_found_document_is_there(documents: Seq<DocumentModel>, id: u64, n: int)
    requires
        0 <= n <= documents.len(),
    ensures
        match document::place_among(documents, id, n) {
            Some(at) => 0 <= at < n && documents[at].state.id == id,
            None => true,
        },
    decreases n,
{
    if n > 0 {
        a_found_document_is_there(documents, id, n - 1);
    }
}

/// Dropping the entries of closed documents leaves that of an open one.
#[verifier::rlimit(30)]
proof fn keeping_keeps(entries: Seq<EntryModel>, documents: Seq<DocumentModel>, id: u64)
    requires
        autosave::distinct(entries),
        document::place_of(documents, id) is Some,
    ensures
        autosave::distinct(autosave::kept(entries, documents)),
        held_entry(autosave::kept(entries, documents), id) == held_entry(entries, id),
        forall|i: int|
            0 <= i < autosave::kept(entries, documents).len() ==> entries.contains(
                #[trigger] autosave::kept(entries, documents)[i],
            ),
    decreases entries.len(),
{
    let after = autosave::kept(entries, documents);
    a_held_entry_is_there(entries, id);
    a_held_entry_is_there(after, id);
    if entries.len() > 0 {
        let less = entries.drop_last();
        let last = entries.last();
        let before = autosave::kept(less, documents);
        assert(forall|i: int| 0 <= i < less.len() ==> less[i] == entries[i]);
        keeping_keeps(less, documents, id);
        assert forall|i: int| 0 <= i < after.len() implies entries.contains(
            #[trigger] after[i],
        ) by {
            if i < before.len() {
                assert(less.contains(before[i]));
                let j = choose|j: int| 0 <= j < less.len() && less[j] == before[i];
                assert(entries[j] == after[i]);
            } else {
                assert(entries[entries.len() - 1] == after[i]);
            }
        }
        assert forall|i: int, j: int| 0 <= i < j < after.len() implies (
        #[trigger] after[i]).state.document != (#[trigger] after[j]).state.document by {
            if j == before.len() {
                assert(less.contains(before[i]));
                let k = choose|k: int| 0 <= k < less.len() && less[k] == before[i];
                assert(entries[k].state.document != entries[entries.len() - 1].state.document);
            } else {
                assert(before[i].state.document != before[j].state.document);
            }
        }
        a_held_entry_is_there(less, id);
        a_held_entry_is_there(before, id);
        if last.state.document == id {
            an_entry_is_held(entries, id, entries.len() - 1);
            an_entry_is_held(after, id, after.len() - 1);
        } else if held_entry(less, id) is Some {
            let at = autosave::entry_of(less, id)->0;
            an_entry_is_held(entries, id, at);
            let there = autosave::entry_of(before, id)->0;
            assert(after[there] == before[there]);
            an_entry_is_held(after, id, there);
        } else {
            if held_entry(entries, id) is Some {
                let at = autosave::entry_of(entries, id)->0;
                assert(less[at] == entries[at]);
            }
            if held_entry(after, id) is Some {
                let at = autosave::entry_of(after, id)->0;
                assert(before[at] == after[at]);
            }
        }
    }
}

/// What is done to the entry of one document leaves those of the others.
#[verifier::rlimit(30)]
proof fn another_is_left(
    entries: Seq<EntryModel>,
    document: DocumentModel,
    seen: FolderSighting,
    place: bool,
    now: u64,
    id: u64,
)
    requires
        autosave::distinct(entries),
    ensures
        ({
            let after = autosave::enrolled(entries, document, seen, place, now).0;
            &&& autosave::distinct(after)
            &&& document.state.id != id ==> held_entry(after, id) == held_entry(entries, id)
        }),
{
    let own = document.state.id;
    let after = autosave::enrolled(entries, document, seen, place, now).0;
    a_held_entry_is_there(entries, own);
    a_held_entry_is_there(entries, id);
    a_held_entry_is_there(after, id);
    let there = autosave::entry_of(entries, own);
    let at = autosave::entry_of(entries, id);
    if after.len() < entries.len() {
        let gone = there->0;
        assert(after == entries.remove(gone));
        assert forall|i: int, j: int| 0 <= i < j < after.len() implies (
        #[trigger] after[i]).state.document != (#[trigger] after[j]).state.document by {
            let one = if i < gone {
                i
            } else {
                i + 1
            };
            let two = if j < gone {
                j
            } else {
                j + 1
            };
            assert(entries[one].state.document != entries[two].state.document);
        }
        if own != id && at is Some {
            let now_at = if at->0 < gone {
                at->0
            } else {
                at->0 - 1
            };
            assert(after[now_at] == entries[at->0]);
            an_entry_is_held(after, id, now_at);
        } else if own != id && held_entry(after, id) is Some {
            let k = autosave::entry_of(after, id)->0;
            let was = if k < gone {
                k
            } else {
                k + 1
            };
            assert(entries[was] == after[k]);
        }
    } else {
        assert forall|i: int, j: int| 0 <= i < j < after.len() implies (
        #[trigger] after[i]).state.document != (#[trigger] after[j]).state.document by {
            if j < entries.len() {
                assert(entries[i].state.document != entries[j].state.document);
            } else {
                assert(entries[i].state.document != own);
            }
        }
        if own != id && at is Some {
            assert(after[at->0] == entries[at->0]);
            an_entry_is_held(after, id, at->0);
        } else if own != id && held_entry(after, id) is Some {
            let k = autosave::entry_of(after, id)->0;
            assert(entries[k] == after[k]);
        }
    }
}

/// What enrolling comes to for the document at `d`, once the first `n` were looked
/// at.
spec fn enrols_so_far(
    start: Round,
    round: Round,
    now: u64,
    d: int,
    n: int,
) -> bool {
    let document = start.documents[d];
    let id = document.state.id;
    &&& autosave::distinct(round.entries)
    &&& round.documents.len() == start.documents.len()
    &&& forall|i: int|
        0 <= i < round.documents.len() ==> (#[trigger] round.documents[i]).state.id
            == start.documents[i].state.id
    &&& round.documents[d] == document
    &&& steps_for(round.steps, id) == Seq::<TickStep>::empty()
    &&& held_entry(round.entries, id) == if n <= d {
        held_entry(start.entries, id)
    } else {
        Some(entry_for(start.entries, document, now))
    }
}

#[verifier::rlimit(30)]
proof fn enrolling_takes_in(
    start: Round,
    seen: Seq<FolderSighting>,
    place: bool,
    now: u64,
    d: int,
    n: int,
)
    requires
        0 <= d < start.documents.len(),
        0 <= n <= start.documents.len() == seen.len(),
        autosave::distinct(start.entries),
        document::numbered_apart(start.documents),
        steps_for(start.steps, start.documents[d].state.id) == Seq::<TickStep>::empty(),
        under(start.entries, start.documents[d], seen[d]),
    ensures
        enrols_so_far(
            start,
            autosave::enrolled_to(start, seen, place, now, n),
            now,
            d,
            n,
        ),
    decreases n,
{
    if n > 0 {
        enrolling_takes_in(start, seen, place, now, d, n - 1);
        let before = autosave::enrolled_to(start, seen, place, now, n - 1);
        let round = autosave::enrolled_to(start, seen, place, now, n);
        let document = start.documents[d];
        let id = document.state.id;
        let held = before.documents[n - 1];
        another_is_left(before.entries, held, seen[n - 1], place, now, id);
        let made = autosave::enrolled(before.entries, held, seen[n - 1], place, now);
        assert(held.state.id == start.documents[n - 1].state.id);
        assert(made.1.id == held.state.id);
        if n - 1 == d {
            assert(held == document);
            assert(made.1 == document.state && made.2 is None);
            a_held_entry_is_there(before.entries, id);
            let entry = autosave::fresh(id, document.origin->0, now);
            if autosave::entry_of(before.entries, id) is Some {
                let at = autosave::entry_of(before.entries, id)->0;
                if !document.is_at(before.entries[at].path) {
                    assert(round.entries[at] == entry);
                    an_entry_is_held(round.entries, id, at);
                }
            } else {
                assert(round.entries[before.entries.len() as int] == entry);
                an_entry_is_held(round.entries, id, before.entries.len() as int);
            }
        } else {
            if n - 1 < d {
                assert(start.documents[n - 1].state.id != start.documents[d].state.id);
            } else {
                assert(start.documents[d].state.id != start.documents[n - 1].state.id);
            }
            if made.2 is Some {
                one_more_step(
                    before.steps,
                    TickStep {
                        document: held.state.id,
                        told: None,
                        act: DriveAct::Copy(made.2->0),
                    },
                    id,
                );
            }
        }
    }
}

#[verifier::rlimit(30)]
proof fn driving_drives(
    start: Round,
    seen: Seq<FolderSighting>,
    place: bool,
    now: u64,
    d: int,
    k: int,
    n: int,
)
    requires
        0 <= d < start.documents.len(),
        0 <= k < start.entries.len(),
        0 <= n <= start.entries.len(),
        autosave::distinct(start.entries),
        document::numbered_apart(start.documents),
        start.entries[k].state.document == start.documents[d].state.id,
        steps_for(start.steps, start.documents[d].state.id) == Seq::<TickStep>::empty(),
    ensures
        ({
            let round = autosave::driven_to(start, seen, place, now, n);
            let id = start.documents[d].state.id;
            let made = autosave::driven(
                start.entries[k],
                start.documents[d],
                seen[d],
                place,
                now,
            );
            &&& round.entries.len() == start.entries.len()
            &&& forall|i: int|
                0 <= i < round.entries.len() ==> (#[trigger] round.entries[i]).state.document
                    == start.entries[i].state.document
            &&& round.documents.len() == start.documents.len()
            &&& forall|i: int|
                0 <= i < round.documents.len() ==> (#[trigger] round.documents[i]).state.id
                    == start.documents[i].state.id
            &&& round.entries[k] == if n <= k {
                start.entries[k]
            } else {
                EntryModel { state: made.entry, ..start.entries[k] }
            }
            &&& round.documents[d] == if n <= k {
                start.documents[d]
            } else {
                start.documents[d].with(made.state)
            }
            &&& steps_for(round.steps, id) == if n <= k {
                Seq::<TickStep>::empty()
            } else {
                seq![TickStep { document: id, told: made.told, act: made.act }]
            }
            &&& forall|i: int|
                n <= i < round.entries.len() ==> #[trigger] round.entries[i] == start.entries[i]
        }),
    decreases n,
{
    if n > 0 {
        driving_drives(start, seen, place, now, d, k, n - 1);
        let before = autosave::driven_to(start, seen, place, now, n - 1);
        let id = start.documents[d].state.id;
        let entry = before.entries[n - 1];
        assert(document::numbered_apart(before.documents)) by {
            assert forall|i: int, j: int| 0 <= i < j < before.documents.len() implies (
            #[trigger] before.documents[i]).state.id != (
            #[trigger] before.documents[j]).state.id by {
                assert(start.documents[i].state.id != start.documents[j].state.id);
            }
        }
        let there = document::place_of(before.documents, entry.state.document);
        a_found_document_is_there(
            before.documents,
            entry.state.document,
            before.documents.len() as int,
        );
        if n - 1 == k {
            a_document_is_found(before.documents, d);
            assert(there == Some(d));
        } else if n - 1 < k {
            assert(start.entries[n - 1].state.document != start.entries[k].state.document);
        } else {
            assert(start.entries[k].state.document != start.entries[n - 1].state.document);
        }
        if there is Some {
            let made = autosave::driven(
                entry,
                before.documents[there->0],
                seen[there->0],
                place,
                now,
            );
            let step = TickStep {
                document: entry.state.document,
                told: made.told,
                act: made.act,
            };
            one_more_step(before.steps, step, id);
            assert(made.entry.document == entry.state.document);
            assert(made.state.id == before.documents[there->0].state.id);
            if n - 1 == k {
                assert(Seq::<TickStep>::empty().push(step) =~= seq![step]);
            }
        }
    }
}

/// What a pass makes of one document that is under direct saving: its entry is
/// driven, once, and nothing else is done for it.
#[verifier::rlimit(30)]
pub proof fn a_pass_drives_each(
    entries: Seq<EntryModel>,
    documents: Seq<DocumentModel>,
    seen: Seq<FolderSighting>,
    place: bool,
    now: u64,
    d: int,
)
    requires
        0 <= d < documents.len() == seen.len(),
        autosave::distinct(entries),
        document::numbered_apart(documents),
        under(entries, documents[d], seen[d]),
    ensures
        ({
            let round = autosave::ticked(entries, documents, seen, true, place, now);
            let id = documents[d].state.id;
            let entry = entry_for(entries, documents[d], now);
            let made = autosave::driven(entry, documents[d], seen[d], place, now);
            &&& round.documents.len() == documents.len()
            &&& round.documents[d] == documents[d].with(made.state)
            &&& held_entry(round.entries, id) == Some(EntryModel { state: made.entry, ..entry })
            &&& autosave::distinct(round.entries)
            &&& document::numbered_apart(round.documents)
            &&& steps_for(round.steps, id) == seq![
                TickStep { document: id, told: made.told, act: made.act },
            ]
        }),
{
    let id = documents[d].state.id;
    let start = Round {
        entries: autosave::kept(entries, documents),
        documents,
        steps: Seq::empty(),
    };
    a_document_is_found(documents, d);
    keeping_keeps(entries, documents, id);
    assert(steps_for(start.steps, id) =~= Seq::<TickStep>::empty()) by {
        reveal(Seq::filter);
    }
    enrolling_takes_in(start, seen, place, now, d, documents.len() as int);
    let middle = autosave::enrolled_to(start, seen, place, now, documents.len() as int);
    a_held_entry_is_there(middle.entries, id);
    let k = autosave::entry_of(middle.entries, id)->0;
    assert(document::numbered_apart(middle.documents)) by {
        assert forall|i: int, j: int| 0 <= i < j < middle.documents.len() implies (
        #[trigger] middle.documents[i]).state.id != (
        #[trigger] middle.documents[j]).state.id by {
            assert(documents[i].state.id != documents[j].state.id);
        }
    }
    let count = middle.entries.len() as int;
    driving_drives(middle, seen, place, now, d, k, count);
    let round = autosave::driven_to(middle, seen, place, now, count);
    assert(autosave::distinct(round.entries)) by {
        assert forall|i: int, j: int| 0 <= i < j < round.entries.len() implies (
        #[trigger] round.entries[i]).state.document != (
        #[trigger] round.entries[j]).state.document by {
            assert(middle.entries[i].state.document != middle.entries[j].state.document);
        }
    }
    assert(document::numbered_apart(round.documents)) by {
        assert forall|i: int, j: int| 0 <= i < j < round.documents.len() implies (
        #[trigger] round.documents[i]).state.id != (
        #[trigger] round.documents[j]).state.id by {
            assert(middle.documents[i].state.id != middle.documents[j].state.id);
        }
    }
    an_entry_is_held(round.entries, id, k);
}

/// The same documents, by their numbers and in the same order.
pub open spec fn same_numbers(one: Seq<DocumentModel>, other: Seq<DocumentModel>) -> bool {
    &&& one.len() == other.len()
    &&& forall|i: int|
        0 <= i < one.len() ==> (#[trigger] one[i]).state.id == other[i].state.id
}

proof fn backing_up_keeps_numbers(start: Round, place: bool, n: int)
    requires
        0 <= n <= start.entries.len(),
    ensures
        same_numbers(autosave::backed_up(start, place, n).documents, start.documents),
    decreases n,
{
    if n > 0 {
        backing_up_keeps_numbers(start, place, n - 1);
        let before = autosave::backed_up(start, place, n - 1);
        a_found_document_is_there(
            before.documents,
            start.entries[n - 1].state.document,
            before.documents.len() as int,
        );
    }
}

proof fn enrolling_keeps_numbers(
    start: Round,
    seen: Seq<FolderSighting>,
    place: bool,
    now: u64,
    n: int,
)
    requires
        0 <= n <= start.documents.len(),
    ensures
        same_numbers(
            autosave::enrolled_to(start, seen, place, now, n).documents,
            start.documents,
        ),
    decreases n,
{
    if n > 0 {
        enrolling_keeps_numbers(start, seen, place, now, n - 1);
    }
}

proof fn driving_keeps_numbers(
    start: Round,
    seen: Seq<FolderSighting>,
    place: bool,
    now: u64,
    n: int,
)
    ensures
        same_numbers(autosave::driven_to(start, seen, place, now, n).documents, start.documents),
    decreases n,
{
    if n > 0 {
        driving_keeps_numbers(start, seen, place, now, n - 1);
        let before = autosave::driven_to(start, seen, place, now, n - 1);
        a_found_document_is_there(
            before.documents,
            before.entries[n - 1].state.document,
            before.documents.len() as int,
        );
    }
}

/// A pass leaves every document its number and its place in the list, so that
/// documents with numbers of their own keep them from pass to pass.
pub proof fn a_pass_keeps_the_numbers(
    entries: Seq<EntryModel>,
    documents: Seq<DocumentModel>,
    seen: Seq<FolderSighting>,
    ledger: bool,
    place: bool,
    now: u64,
)
    ensures
        same_numbers(
            autosave::ticked(entries, documents, seen, ledger, place, now).documents,
            documents,
        ),
        document::numbered_apart(documents) ==> document::numbered_apart(
            autosave::ticked(entries, documents, seen, ledger, place, now).documents,
        ),
{
    let start = Round {
        entries: autosave::kept(entries, documents),
        documents,
        steps: Seq::empty(),
    };
    if ledger {
        let middle = autosave::enrolled_to(start, seen, place, now, documents.len() as int);
        enrolling_keeps_numbers(start, seen, place, now, documents.len() as int);
        driving_keeps_numbers(middle, seen, place, now, middle.entries.len() as int);
    } else {
        backing_up_keeps_numbers(start, place, start.entries.len() as int);
    }
    let round = autosave::ticked(entries, documents, seen, ledger, place, now);
    if document::numbered_apart(documents) {
        assert forall|i: int, j: int| 0 <= i < j < round.documents.len() implies (
        #[trigger] round.documents[i]).state.id != (
        #[trigger] round.documents[j]).state.id by {
            assert(documents[i].state.id != documents[j].state.id);
        }
    }
}

/// Nothing was typed since the document came under direct saving, and no write of
/// it has failed.
pub open spec fn from_before(entry: EntryModel, document: DocumentModel) -> bool {
    document.state.changed_at <= entry.state.armed_at && entry.state.paused != Some(
        AutoSavePause::WriteFailed,
    )
}

/// Text from before a document came under direct saving is left alone by every
/// pass, the one that takes it in and all those after it: the file is not written,
/// and the document waits for nothing. A blocked document is paused.
pub proof fn every_pass_leaves_text_from_before(
    entries: Seq<EntryModel>,
    documents: Seq<DocumentModel>,
    seen: Seq<FolderSighting>,
    place: bool,
    now: u64,
    d: int,
)
    requires
        0 <= d < documents.len() == seen.len(),
        autosave::distinct(entries),
        document::numbered_apart(documents),
        under(entries, documents[d], seen[d]),
        from_before(entry_for(entries, documents[d], now), documents[d]),
    ensures
        ({
            let round = autosave::ticked(entries, documents, seen, true, place, now);
            let id = documents[d].state.id;
            let after = round.documents[d];
            &&& forall|i: int|
                0 <= i < round.steps.len() && (#[trigger] round.steps[i]).document == id
                    ==> round.steps[i].act != DriveAct::Write
            &&& autosave::status_of(round.entries, after.state) == match autosave::blocking_pause(
                documents[d].state,
                seen[d],
            ) {
                Some(pause) => AutoSaveStatus::Paused(pause),
                None => AutoSaveStatus::Idle,
            }
            &&& held_entry(round.entries, id) is Some
            &&& after.is_at(held_entry(round.entries, id)->0.path)
            &&& from_before(held_entry(round.entries, id)->0, after)
            &&& after.state.changed_at == documents[d].state.changed_at
        }),
{
    a_pass_drives_each(entries, documents, seen, place, now, d);
    let round = autosave::ticked(entries, documents, seen, true, place, now);
    let id = documents[d].state.id;
    assert forall|i: int|
        0 <= i < round.steps.len() && (#[trigger] round.steps[i]).document == id implies
        round.steps[i].act != DriveAct::Write by {
        a_step_is_among(round.steps, id, i);
    }
    a_held_entry_is_there(round.entries, id);
}

proof fn a_step_is_among(steps: Seq<TickStep>, id: u64, i: int)
    requires
        0 <= i < steps.len(),
        steps[i].document == id,
    ensures
        steps_for(steps, id).contains(steps[i]),
    decreases steps.len(),
{
    reveal(Seq::filter);
    let last = steps.last();
    let less = steps.drop_last();
    one_more_step(less, last, id);
    assert(less.push(last) =~= steps);
    if i == steps.len() - 1 {
        assert(steps_for(steps, id).last() == steps[i]);
    } else {
        a_step_is_among(less, id, i);
        let j = choose|j: int|
            0 <= j < steps_for(less, id).len() && steps_for(less, id)[j] == less[i];
        assert(steps_for(steps, id)[j] == steps[i]);
    }
}

/// Text typed since a document came under direct saving is written by the first
/// pass at which the writer has paused for long enough, and by none before it.
pub proof fn the_pass_after_a_pause_writes(
    entries: Seq<EntryModel>,
    documents: Seq<DocumentModel>,
    seen: Seq<FolderSighting>,
    place: bool,
    now: u64,
    d: int,
)
    requires
        0 <= d < documents.len() == seen.len(),
        autosave::distinct(entries),
        document::numbered_apart(documents),
        under(entries, documents[d], seen[d]),
        documents[d].state.edited,
        documents[d].state.changed_at > entry_for(entries, documents[d], now).state.armed_at,
        autosave::blocking_pause(documents[d].state, seen[d]) is None,
    ensures
        ({
            let round = autosave::ticked(entries, documents, seen, true, place, now);
            let id = documents[d].state.id;
            let writes = now - documents[d].state.changed_at >= WORK_COPY_IDLE;
            &&& steps_for(round.steps, id) == seq![
                TickStep {
                    document: id,
                    told: None,
                    act: if writes {
                        DriveAct::Write
                    } else {
                        DriveAct::Rest
                    },
                },
            ]
            &&& round.documents[d] == documents[d]
            &&& !writes ==> held_entry(round.entries, id) is Some && documents[d].is_at(
                held_entry(round.entries, id)->0.path,
            ) && held_entry(round.entries, id)->0.state.armed_at == entry_for(
                entries,
                documents[d],
                now,
            ).state.armed_at
        }),
{
    a_pass_drives_each(entries, documents, seen, place, now, d);
}

} // verus!
