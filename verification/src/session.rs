//! The arrangement that one run leaves for the next.
//!
//! The text of a document is not here: what is unsaved lives in the work
//! copies. A session says which file stood in which tab of which pane, and how
//! it was looked at. The two are matched up when the next run begins; what does
//! not add up is dropped, because starting is worth more than any of it.
pub mod capture;
pub mod keeping;
pub mod laws;
pub mod opening;
pub mod tab;

pub use capture::{
    capture_session, focused_to_keep, session_tab, window_place, workspace_expanded, HeldStrip,
    HeldTab, WindowState,
};
pub use opening::{
    document_for, fill_empty, fill_panes, layout_holds, open_session, open_without_session,
    restore_window_place, taken_numbers, word_modes, Found, OpenSession, OpenStrip, OpenTab,
    SessionDocument, Source, MAX_WINDOW,
};
pub use tab::{
    Paper, Rgb, Session, SessionPane, SessionTab, Surroundings, TabSettings, WindowPlace,
};
