//! Placing tables, adding and removing rows and columns, and column widths.
//!
//! Only the rewriting of the text is here: each function gives the range to
//! replace, the text to put there and the selection afterwards.
//!
//! The width of a column is the number of dashes in the rule line, one dash for
//! a hundredth of the line. A table with as many dashes in every column states
//! no widths.
pub mod cells;
pub mod columns;
pub mod edits;
pub mod laws;
pub mod model;
pub mod rewriting;
pub mod shapes;
pub mod single;
pub mod tables;
pub mod widths;

pub use edits::{can_place_table, insert_table, Edit};
pub use model::TableEdit;
pub use tables::{stated_widths, table_edit, table_edit_state, table_widths, widths_edit};
pub use widths::{dragged_widths, keep_specified, settle_counts, FULL_WIDTH, MIN_WIDTH};
