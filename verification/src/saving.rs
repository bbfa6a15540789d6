//! Everything that keeps what was written from being lost: the work copies put
//! aside while a document is unsaved, the explicit save, the watch on other
//! programs, and the direct saving of whole folders.
//!
//! What is decided stands here; the disk, the clock and the questions on screen
//! belong to the caller, who performs the step that a function names and hands
//! back what came of it. Times are milliseconds of one clock that only runs
//! forward.
pub mod autosave;
pub mod batch;
pub mod changes;
pub mod copies;
pub mod deeds;
pub mod document;
pub mod laws;
pub mod passes;
pub mod restore;
pub mod turns;
pub mod words;
pub mod writing;

pub use autosave::{
    AutoSavePause, AutoSaveStatus, DriveAct, FolderAutoSave, FolderSighting, TickStep,
};
pub use batch::{save_all, BatchStep, SaveAll};
pub use changes::{
    check_external_change, check_read_only_change, reload_document, reload_from_file, reopen_as,
    Check, CheckAct, ReloadOutcome, ReloadStep, ReopenOutcome, Sighting,
};
pub use copies::{
    autosave_wanted, copy_caret, copy_to_write, discard_all_work_copies, discard_memo_copy,
    discard_work_copy, force_work_copy_of, keep_work_copies_again, memo_copy_removed,
    report_write_results, work_copy_due, work_identity, write_work_copy_if_due,
    write_work_copy_now, write_work_copy_of, CopyStep, PaneCaret, WriteReport, WriteResult,
    WriteTold, AUTOSAVE_SETTING, WORK_COPY_IDLE, WORK_COPY_LONGEST,
};
pub use document::{Document, DocumentState, ExternalChange, Stamp, TextForm, WorkIdentity};
pub use restore::{restore_tabs, OpenedFile, RestoredTab, WorkCopy};
pub use words::{memo_kept_told, no_place_told, released_told};
pub use writing::{
    conflict_choices, reveal_active_document, save_document, save_over_open, save_target,
    saved_form_told, write_document_in, write_document_to, SaveStep, TargetAct, TargetStep,
    WriteOutcome, WriteStep,
};
