//! What the writer does with a terminal: what is sent to it, what is looked for
//! in it, and what is asked before it goes.
pub mod deeds;
pub mod laws;
pub mod search;
pub mod sending;
pub mod leaving;

pub use leaving::{ask_close, close_choices, close_target, needs_close, unsaved_panels};
pub use search::{
    action, pointer, search_step, MouseAction, MouseButton, PointerStep, TerminalStep, TerminalView,
};
pub use sending::{input, send, InputStep};
