//! Saving: work copies, files, and what other programs do to them.
use rfn_edit::paths::same_path;
use rfn_edit::saving::autosave::{unprotected, AutoSavePause, AutoSaveStatus, DriveAct};
use rfn_edit::saving::autosave::{FolderAutoSave, FolderSighting};
use rfn_edit::saving::batch::{save_all, BatchStep};
use rfn_edit::saving::changes::{
    check_external_change, check_read_only_change, reload_document, reload_from_file, reopen_as,
    CheckAct, ReloadOutcome, ReloadStep, ReopenOutcome, Sighting,
};
use rfn_edit::saving::copies::{
    autosave_wanted, copy_caret, copy_to_write, discard_all_work_copies, discard_memo_copy, discard_work_copy,
    force_work_copy_of, keep_work_copies_again, mark_pending, memo_copy_removed,
    report_write_results, work_copy_due, work_identity, write_work_copy_if_due,
    write_work_copy_now, write_work_copy_of, CopyStep, PaneCaret, WriteResult, WriteTold,
    WORK_COPY_IDLE,
};
use rfn_edit::saving::document::{
    Document, DocumentState, ExternalChange, Stamp, TextForm, WorkIdentity,
};
use rfn_edit::saving::restore::{mark_restored, restore_tabs, OpenedFile, WorkCopy};
use rfn_edit::saving::words::{memo_kept_told, no_place_told, released_told};
use rfn_edit::saving::writing::{
    conflict_choices, conflict_question, document_at, over_open_choices, over_open_question,
    reveal_active_document, save_document, save_over_open, save_target, saved_form_told,
    write_document_in, write_document_to, SaveStep, TargetAct, TargetStep, WriteOutcome,
};

const FORM: TextForm = TextForm { encoding: 0, byte_order_mark: false, newline: 0 };

fn state(id: u64) -> DocumentState {
    DocumentState {
        id,
        edited: false,
        changed_at: 0,
        pending_since: None,
        read_only: false,
        form: FORM,
        change: ExternalChange::Unchanged,
        outside: false,
        missing: false,
        reported: None,
        protective_recovery: false,
        recovery_failed: false,
    }
}

fn file(id: u64, path: &str) -> Document {
    Document { origin: Some(path.to_owned()), untitled: 0, state: state(id) }
}

fn edit(document: &mut Document, now: u64) {
    document.state.edited = true;
    document.state.changed_at = now;
    mark_pending(document, now);
}

fn seen() -> FolderSighting {
    FolderSighting { auto_save: true, resolves: true, reading_view: false, disk_read_only: false }
}

#[test]
fn a_copy_is_due_after_a_pause_or_a_long_while() {
    assert!(!work_copy_due(1999, 4999));
    assert!(work_copy_due(2000, 2000));
    assert!(work_copy_due(0, 5000));
}

#[test]
fn changes_wait_for_a_copy_and_get_one() {
    let mut documents = vec![file(1, "a.md"), file(2, "b.md")];
    edit(&mut documents[0], 100);
    let early = write_work_copy_if_due(&mut documents, true, true, 200);
    assert_eq!(early, vec![CopyStep::Nothing, CopyStep::Nothing]);
    let due = write_work_copy_if_due(&mut documents, true, true, 2100);
    assert_eq!(due[0], CopyStep::Write { protected: false });
    assert_eq!(documents[0].state.pending_since, None);
    edit(&mut documents[0], 3000);
    assert_eq!(write_work_copy_of(&mut documents[0], false, true), CopyStep::Nothing);
    assert_eq!(
        write_work_copy_of(&mut documents[0], true, false),
        CopyStep::NoPlace { tell: true }
    );
    assert_eq!(
        write_work_copy_of(&mut documents[0], true, false),
        CopyStep::NoPlace { tell: false }
    );
    documents[0].state.edited = false;
    assert_eq!(write_work_copy_now(&mut documents, true, true)[0], CopyStep::Remove);
}

#[test]
fn a_forced_copy_is_kept_while_copies_are_off() {
    let mut document = file(1, "a.md");
    document.state.edited = true;
    assert_eq!(force_work_copy_of(&mut document, true), CopyStep::Write { protected: true });
    assert!(document.state.protective_recovery);
    edit(&mut document, 10);
    assert_eq!(
        write_work_copy_of(&mut document, false, true),
        CopyStep::Write { protected: true }
    );
}

#[test]
fn a_copy_that_did_not_land_waits_again() {
    let mut documents = vec![file(1, "a.md")];
    documents[0].state.edited = true;
    let results = vec![WriteResult {
        copy: WorkIdentity::File("a.md".to_owned()),
        removed: false,
        superseded: false,
        failed: true,
    }];
    let report = report_write_results(&mut documents, &results, 40);
    assert_eq!(report.told, Some(WriteTold::CouldNotBackUp));
    assert_eq!(documents[0].state.pending_since, Some(40));
    let silent = vec![WriteResult {
        copy: WorkIdentity::File("a.md".to_owned()),
        removed: false,
        superseded: true,
        failed: true,
    }];
    let mut others = vec![file(1, "a.md")];
    assert_eq!(report_write_results(&mut others, &silent, 40).told, None);
    assert_eq!(others[0].state.pending_since, None);
}

#[test]
fn copies_are_dropped_and_kept_again() {
    let mut documents = vec![file(1, "a.md")];
    edit(&mut documents[0], 5);
    assert!(matches!(work_identity(&documents[0]), WorkIdentity::File(path) if path == "a.md"));
    documents[0].state.protective_recovery = true;
    documents[0].state.recovery_failed = true;
    discard_work_copy(&mut documents, &WorkIdentity::File("b.md".to_owned()));
    assert!(documents[0].state.protective_recovery);
    discard_work_copy(&mut documents, &WorkIdentity::File("a.md".to_owned()));
    assert!(!documents[0].state.protective_recovery && !documents[0].state.recovery_failed);
    documents[0].state.pending_since = None;
    assert_eq!(keep_work_copies_again(&mut documents, 9), 1);
    assert_eq!(documents[0].state.pending_since, Some(9));
    let copies = vec![
        (WorkIdentity::File("a.md".to_owned()), false),
        (WorkIdentity::Untitled(3), true),
    ];
    assert!(discard_all_work_copies(&copies, &mut documents, false).is_empty());
    let gone = discard_all_work_copies(&copies, &mut documents, true);
    assert_eq!(gone.len(), 1);
    let removed = vec![WriteResult {
        copy: WorkIdentity::Untitled(3),
        removed: true,
        superseded: false,
        failed: false,
    }];
    let done = memo_copy_removed(&removed, &WorkIdentity::Untitled(3));
    assert!(done);
    assert!(!memo_copy_removed(&removed, &WorkIdentity::Untitled(4)));
    let mut memo = Document { origin: None, untitled: 3, state: state(7) };
    assert!(discard_memo_copy(&mut memo, true, done, 11));
    memo.state.edited = true;
    assert!(discard_memo_copy(&mut memo, false, false, 12));
    assert_eq!(memo.state.pending_since, None);
    assert!(!discard_memo_copy(&mut memo, true, false, 13));
    assert_eq!(memo.state.pending_since, Some(13));
}

#[test]
fn a_copy_has_the_caret_of_its_pane() {
    let focused = PaneCaret { document: 1, caret: Some(10) };
    let others = vec![PaneCaret { document: 2, caret: Some(20) }];
    assert_eq!(copy_caret(focused, &others, 1), Some(10));
    assert_eq!(copy_caret(focused, &others, 2), Some(20));
    assert_eq!(copy_caret(focused, &others, 3), None);
    let mut document = file(2, "a.md");
    edit(&mut document, 5);
    document.state.protective_recovery = true;
    let stamp = Some(Stamp { modified: 3, length: 4 });
    let step = write_work_copy_of(&mut document, true, true);
    let copy = copy_to_write(step, &document, "本文", stamp, focused, &others).unwrap();
    assert_eq!(copy.origin.as_deref(), Some("a.md"));
    assert_eq!((copy.untitled, copy.caret, copy.stamp), (0, Some(20), stamp));
    assert_eq!((copy.text.as_str(), copy.protected), ("本文", true));
    let none = copy_to_write(CopyStep::Remove, &document, "本文", stamp, focused, &others);
    assert!(none.is_none());
    let off = Some(vec![("work.autosave".to_owned(), "0".to_owned())]);
    assert!(!autosave_wanted(&off));
    assert!(autosave_wanted(&None));
}

#[test]
fn direct_saving_leaves_what_was_there_before_it() {
    let mut engine = FolderAutoSave::new();
    let mut documents = vec![file(1, "a.md")];
    edit(&mut documents[0], 100);
    let steps = engine.tick(&mut documents, &vec![seen()], true, true, 200);
    assert_eq!(steps[0].act, DriveAct::Rest);
    assert_eq!(engine.status(&documents[0]), AutoSaveStatus::Idle);
    edit(&mut documents[0], 300);
    let steps = engine.tick(&mut documents, &vec![seen()], true, true, 5301);
    assert_eq!(steps[0].act, DriveAct::Write);
    documents[0].state.edited = false;
    engine.wrote(&mut documents[0], true, true);
    assert_eq!(engine.status(&documents[0]), AutoSaveStatus::Idle);
}

#[test]
fn direct_saving_stops_where_the_file_was_changed() {
    let mut engine = FolderAutoSave::new();
    let mut documents = vec![file(1, "a.md")];
    engine.tick(&mut documents, &vec![seen()], true, true, 10);
    edit(&mut documents[0], 100);
    documents[0].state.change = ExternalChange::Modified;
    let steps = engine.tick(&mut documents, &vec![seen()], true, true, 5101);
    assert_eq!(steps[0].told, Some(AutoSavePause::Conflict));
    assert_eq!(steps[0].act, DriveAct::Copy(CopyStep::Write { protected: true }));
    assert_eq!(
        engine.status(&documents[0]),
        AutoSaveStatus::Paused(AutoSavePause::Conflict)
    );
    let again = engine.tick(&mut documents, &vec![seen()], true, true, 9000);
    assert_eq!(again[0].told, None);
    assert_eq!(again[0].act, DriveAct::Rest);
    assert_eq!(unprotected(&documents), 0);
}

#[test]
fn direct_saving_does_not_try_again_without_a_change() {
    let mut engine = FolderAutoSave::new();
    let mut documents = vec![file(1, "a.md")];
    engine.arm(&documents[0], 10);
    edit(&mut documents[0], 100);
    let steps = engine.tick(&mut documents, &vec![seen()], true, true, 5101);
    assert_eq!(steps[0].act, DriveAct::Write);
    engine.wrote(&mut documents[0], false, true);
    assert_eq!(
        engine.status(&documents[0]),
        AutoSaveStatus::Paused(AutoSavePause::WriteFailed)
    );
    let again = engine.tick(&mut documents, &vec![seen()], true, true, 20_000);
    assert_ne!(again[0].act, DriveAct::Write);
    edit(&mut documents[0], 30_000);
    let later = engine.tick(&mut documents, &vec![seen()], true, true, 36_000);
    assert_eq!(later[0].act, DriveAct::Write);
}

#[test]
fn leaving_direct_saving_puts_the_text_aside() {
    let mut engine = FolderAutoSave::new();
    let mut documents = vec![file(1, "a.md")];
    engine.tick(&mut documents, &vec![seen()], true, true, 10);
    edit(&mut documents[0], 100);
    let off = FolderSighting { auto_save: false, ..seen() };
    let steps = engine.tick(&mut documents, &vec![off], true, true, 200);
    assert_eq!(steps[0].act, DriveAct::Copy(CopyStep::Write { protected: true }));
    assert_eq!(engine.status(&documents[0]), AutoSaveStatus::Off);
    let flushed = engine.force_flush(&mut documents, true);
    assert!(flushed.is_empty());
}

#[test]
fn a_changed_file_is_told_of_once() {
    let mut documents = vec![file(1, "a.md")];
    documents[0].state.edited = true;
    let sight = Sighting {
        change: ExternalChange::Modified,
        stamp: Some(Stamp { modified: 1, length: 2 }),
        reading_view: false,
    };
    let first = check_external_change(&mut documents, &vec![sight], 1);
    assert_eq!(first[0].act, CheckAct::TellChanged);
    let second = check_external_change(&mut documents, &vec![sight], 1);
    assert_eq!(second[0].act, CheckAct::Quiet);
    let mut clean = vec![file(2, "b.md")];
    let view = Sighting { reading_view: true, ..sight };
    assert_eq!(check_external_change(&mut clean, &vec![view], 2)[0].act, CheckAct::Reload);
    let gone = Sighting { change: ExternalChange::Missing, stamp: None, reading_view: false };
    let told = check_external_change(&mut clean, &vec![gone], 2);
    assert_eq!(told[0].act, CheckAct::TellMissing);
    check_read_only_change(&mut clean, &vec![gone], &vec![true], 2);
}

#[test]
fn a_file_is_read_again() {
    let mut document = file(1, "a.md");
    document.state.edited = true;
    assert_eq!(reload_document(&mut document, ReloadOutcome::Failed), ReloadStep::TellFailed);
    assert!(document.state.edited);
    assert_eq!(reload_document(&mut document, ReloadOutcome::Read), ReloadStep::Replace);
    assert!(!document.state.edited);
    let mut documents = vec![document];
    assert_eq!(
        reload_from_file(&mut documents, 0, ReloadOutcome::NoFile),
        ReloadStep::Nothing
    );
    let told = reopen_as(
        &mut documents[0],
        &ReopenOutcome::Unreadable,
        2,
        "Shift_JIS",
        true,
    );
    assert!(told.unwrap().contains("Shift_JIS"));
    reopen_as(&mut documents[0], &ReopenOutcome::Read { mixed: false }, 2, "Shift_JIS", true);
    assert_eq!(documents[0].state.form.encoding, 2);
}

#[test]
fn only_protected_copies_return_while_copies_are_off() {
    let copy = |protected: bool| WorkCopy {
        origin: Some("a.md".to_owned()),
        untitled: 0,
        caret: Some(2),
        stamp: Some(Stamp { modified: 1, length: 4 }),
        text: "草稿".to_owned(),
        protected,
    };
    let files = vec![
        Some(OpenedFile { text: "元".to_owned(), agreed: Some(Stamp { modified: 1, length: 4 }) }),
        None,
    ];
    let all = restore_tabs(&vec![copy(false), copy(true)], &files, true);
    assert_eq!(all.len(), 2);
    assert_eq!(all[0].text, "草稿");
    assert!(all[0].present && !all[1].present);
    let some = restore_tabs(&vec![copy(false), copy(true)], &files, false);
    assert_eq!(some.len(), 1);
    let mut document = file(1, "a.md");
    mark_restored(&mut document, ExternalChange::Modified);
    assert_eq!(document.state.change, ExternalChange::Modified);
}

#[test]
fn a_document_is_saved_where_it_may_be() {
    let mut documents = vec![file(1, "a.md"), file(2, "b.md")];
    documents[1].state.edited = true;
    assert_eq!(
        save_document(&documents[0], false, false),
        SaveStep::Ready { target: "a.md".to_owned(), form: FORM }
    );
    assert_eq!(save_document(&documents[0], true, true), SaveStep::AskName { form: FORM });
    assert_eq!(save_document(&documents[0], false, true), SaveStep::RefuseReadingView);
    documents[0].state.read_only = true;
    assert_eq!(save_document(&documents[0], false, false), SaveStep::RefuseReadOnly);
    documents[0].state.read_only = false;
    let untitled = Document { origin: None, untitled: 1, state: state(3) };
    assert_eq!(save_document(&untitled, false, false), SaveStep::AskName { form: FORM });
    assert_eq!(document_at(&documents, "b.md"), Some(1));
    let other = TextForm { byte_order_mark: true, ..FORM };
    assert_eq!(
        save_target(&documents, 0, "b.md", other),
        TargetStep {
            act: TargetAct::AskSaveOverOpen(1),
            target: "b.md".to_owned(),
            form: other,
        }
    );
    assert_eq!(save_target(&documents, 0, "c.md", FORM).act, TargetAct::Write);
    documents[0].state.change = ExternalChange::Modified;
    let asked = save_target(&documents, 0, "a.md", FORM);
    assert_eq!(asked.act, TargetAct::AskConflict);
    assert_eq!((asked.target.as_str(), asked.form), ("a.md", FORM));
    assert_eq!(over_open_choices(true)[2], "Cancel");
    assert_eq!(conflict_choices(false)[4], "キャンセル");
    assert!(over_open_question("b", true).contains("\"b\""));
    assert!(conflict_question("b", true).contains("b"));
}

#[test]
fn a_write_takes_the_document_to_its_file() {
    let mut documents = vec![file(1, "a.md")];
    documents[0].state.edited = true;
    let failed = write_document_to(
        &mut documents,
        0,
        "a.md",
        &WriteOutcome::Failed("full".to_owned()),
        "UTF-8",
        true,
    );
    assert!(!failed.saved && documents[0].state.edited);
    assert!(failed.told.as_ref().unwrap().contains("full"));
    let moved = write_document_in(
        &mut documents,
        0,
        "b.md",
        FORM,
        &WriteOutcome::Saved,
        "UTF-8",
        true,
    );
    assert!(moved.saved && moved.moved);
    assert!(failed.dropped.is_empty());
    let dropped: Vec<_> = moved
        .dropped
        .iter()
        .map(|copy| matches!(copy, WorkIdentity::File(path) if path == "a.md"))
        .collect();
    assert_eq!(dropped, [true, false]);
    assert!(moved.dropped[1].same(&WorkIdentity::File("b.md".to_owned())));
    assert_eq!(documents[0].origin.as_deref(), Some("b.md"));
    assert!(!documents[0].state.edited);
    let mut both = vec![file(1, "a.md"), file(2, "b.md")];
    let (step, closed) =
        save_over_open(&mut both, 0, 1, "b.md", FORM, &WriteOutcome::Saved, "UTF-8", true);
    assert!(step.saved);
    assert_eq!(closed, Some((2, 1)));
    assert_eq!(reveal_active_document(&both[0], true).unwrap(), "b.md");
    let untitled = Document { origin: None, untitled: 1, state: state(3) };
    assert!(reveal_active_document(&untitled, true).is_err());
    assert!(saved_form_told(FORM, FORM, "UTF-8", true, "LF", true).is_none());
}

#[test]
fn saving_all_writes_and_asks_in_turn() {
    let mut documents = vec![
        file(1, "a.md"),
        Document { origin: None, untitled: 1, state: state(2) },
        file(3, "c.md"),
    ];
    documents[0].state.edited = true;
    documents[1].state.edited = true;
    let mut batch = save_all(&documents);
    assert_eq!(batch.next(), BatchStep::Write(0));
    batch.wrote(true);
    assert_eq!(batch.next(), BatchStep::Ask(1));
    assert!(batch.chose(&documents, Some("new.md")));
    batch.wrote(true);
    assert_eq!(batch.next(), BatchStep::Finished);
    assert_eq!(batch.saved, 2);
    assert!(!batch.told(true).is_empty());
    let mut cancelled = save_all(&documents);
    cancelled.wrote(true);
    assert!(!cancelled.chose(&documents, None));
    assert_eq!(cancelled.next(), BatchStep::Finished);
    assert_eq!(cancelled.left, 1);
}

#[test]
fn a_failed_write_is_not_retried_until_a_new_edit_arrives() {
    let mut engine = FolderAutoSave::default();
    let mut documents = vec![file(1, "失敗.md")];
    engine.tick(&mut documents, &vec![seen()], true, true, 0);

    edit(&mut documents[0], 100);
    let due_at = 100 + 5_000;
    let steps = engine.tick(&mut documents, &vec![seen()], true, true, due_at);
    assert_eq!(steps[0].act, DriveAct::Write);
    let path = "失敗.md";
    let failed = WriteOutcome::Unmappable;
    let step = write_document_to(&mut documents, 0, path, &failed, "Shift_JIS", true);
    assert!(!step.saved && step.told.is_some());
    engine.wrote(&mut documents[0], step.saved, true);
    assert_eq!(
        engine.status(&documents[0]),
        AutoSaveStatus::Paused(AutoSavePause::WriteFailed)
    );

    let still_due_at = due_at + 1_000;
    let steps = engine.tick(&mut documents, &vec![seen()], true, true, still_due_at);
    assert_ne!(
        steps[0].act,
        DriveAct::Write,
        "an unchanged failing edit must not be retried every tick"
    );
    assert_eq!(steps[0].told, None);

    edit(&mut documents[0], still_due_at);
    let retry_at = still_due_at + 5_000;
    let steps = engine.tick(&mut documents, &vec![seen()], true, true, retry_at);
    assert_eq!(steps[0].act, DriveAct::Write, "a new edit is attempted again");
}

#[test]
fn the_writer_is_told_of_what_stops() {
    assert_eq!(
        AutoSavePause::Conflict.words("a.md", true).as_deref(),
        Some("\"a.md\" changed outside, so direct saving is paused. Save or reload to resume")
    );
    assert_eq!(
        AutoSavePause::ReadOnly.words("a.md", false).as_deref(),
        Some("「a.md」は読み取り専用のため、直接の保存を止めています")
    );
    assert_eq!(AutoSavePause::WriteFailed.words("a.md", true), None);
    assert_eq!(WriteTold::CouldNotClear.words(true), "Could not clear the work copy");
    assert_eq!(
        WriteTold::CouldNotBackUp.words(false),
        "作業コピーを退避できませんでした。まもなく再試行します"
    );
    assert!(CheckAct::TellMissing.words(true, true).is_some());
    assert!(CheckAct::TellChanged.words(true, false).is_some());
    assert!(CheckAct::TellChanged.words(false, false).is_none());
    assert!(CheckAct::Reload.words(true, true).is_none());
    assert_eq!(
        ReloadStep::TellFailed.words("gone", true).as_deref(),
        Some("Cannot reload: gone")
    );
    assert_eq!(
        ReloadStep::Replace.words("", false).as_deref(),
        Some("外部の変更を読み込みました")
    );
    assert_eq!(ReloadStep::Nothing.words("", true), None);
    assert_eq!(memo_kept_told(true), "Could not delete the work copy, so the memo was kept open");
    assert_eq!(no_place_told(true), "The work copy location is unavailable");
    assert_eq!(released_told(true), "Saved under a new name. ReadOnly mode is off");
}

#[test]
fn a_document_that_comes_into_view_is_armed_once() {
    let mut engine = FolderAutoSave::new();
    let mut document = file(1, "a.md");
    engine.observe(&mut document, seen(), 10);
    edit(&mut document, 20);
    assert_eq!(engine.status(&document), AutoSaveStatus::Pending);
    engine.observe(&mut document, seen(), 30);
    assert_eq!(engine.status(&document), AutoSaveStatus::Pending);
    let gone = FolderSighting { auto_save: false, resolves: false, ..seen() };
    engine.observe(&mut document, gone, 40);
    assert_eq!(engine.status(&document), AutoSaveStatus::Pending);
    let off = FolderSighting { auto_save: false, ..seen() };
    engine.observe(&mut document, off, 50);
    assert_eq!(engine.status(&document), AutoSaveStatus::Off);
    assert!(document.state.protective_recovery);
}

#[test]
fn paths_are_compared_part_by_part() {
    assert!(same_path("/a/b", "/a//b/"));
    assert!(same_path("a/./b", "a/b/."));
    assert!(!same_path("/a/b", "a/b"));
    assert!(!same_path("./a", "a"));
    assert!(same_path("./a", "./a/"));
    assert!(!same_path("a/../b", "b"));
    assert!(!same_path("", "."));
    assert!(same_path("/", "//"));
    assert!(same_path("C:\\a\\x.md", "C:/a/x.md"));
    assert!(same_path("c:/a/x.md", "C:\\a\\.\\x.md\\"));
    assert!(!same_path("C:a.md", "C:\\a.md"));
    assert!(same_path("C:a.md", "c:a.md"));
    assert!(!same_path("C:", "C:\\"));
    assert!(!same_path("C:\\a", "D:\\a"));
    assert!(!same_path("C:\\A", "C:\\a"));
    assert!(same_path("\\\\host\\share\\a", "//host/share//a"));
    assert!(!same_path("\\\\host\\share\\a", "\\host\\share\\a"));
    assert!(same_path("\\\\?\\c:\\a", "\\\\?\\C:\\a"));
    assert!(!same_path("\\\\?\\C:\\a", "C:\\a"));
    assert!(file(1, "x//a.md").is_at("x\\a.md"));
    assert!(!file(1, "x/a.md").is_at("x/A.md"));
}

#[test]
fn passes_leave_text_from_before() {
    let mut engine = FolderAutoSave::new();
    let mut documents = vec![file(1, "a.md"), file(2, "b.md")];
    edit(&mut documents[0], 100);
    for now in [200, 9_000, 90_000] {
        let steps = engine.tick(&mut documents, &vec![seen(), seen()], true, true, now);
        assert!(steps.iter().all(|step| step.act == DriveAct::Rest));
        assert_eq!(engine.status(&documents[0]), AutoSaveStatus::Idle);
    }
    edit(&mut documents[0], 100_000);
    let early = engine.tick(
        &mut documents,
        &vec![seen(), seen()],
        true,
        true,
        100_000 + WORK_COPY_IDLE - 1,
    );
    assert!(early.iter().all(|step| step.act == DriveAct::Rest));
    assert_eq!(engine.status(&documents[0]), AutoSaveStatus::Pending);
    let steps = engine.tick(
        &mut documents,
        &vec![seen(), seen()],
        true,
        true,
        100_000 + WORK_COPY_IDLE,
    );
    let written: Vec<u64> = steps
        .iter()
        .filter(|step| step.act == DriveAct::Write)
        .map(|step| step.document)
        .collect();
    assert_eq!(written, [1]);
}
