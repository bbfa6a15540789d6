//! The parts of a writing tool that decide things: verified.
use vstd::prelude::*;

pub mod letters;
pub mod lines;
pub mod matching;
pub mod numbers;
pub mod paths;
pub mod rows;
pub mod saving;
pub mod searcher;
pub mod session;
pub mod settings_transfer;
pub mod shortcuts;
pub mod table_edit;
pub mod tags;
pub mod terminal;
pub mod terminal_appearance;
pub mod terminal_panels;
pub mod terminal_session;
pub mod terminal_shells;
pub mod terminal_workflow;
pub mod text;
pub mod text_blocks;
pub mod texts;

verus! {

} // verus!
