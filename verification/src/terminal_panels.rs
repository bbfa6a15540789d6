//! The panels below a tab: texts and shells of its own, into which the output of
//! a terminal can be taken.
pub mod capture;
pub mod changes;
pub mod deeds;
pub mod entries;
pub mod laws;
pub mod page;
pub mod steps;
pub mod tab;

pub use capture::{Collected, Stopped};
pub use tab::{PaneTab, PanelDocument, Strip, TabBelow};
