//! How terminals and their panels look: by their kind, unless a tab says
//! otherwise.
pub mod codec;
pub mod deeds;
pub mod laws;
pub mod page;
pub mod style;

pub use crate::terminal_panels::changes::clear_paper;
pub use codec::{decode, encode, hex_colour, parse_hex_colour};
pub use page::{apply, request, reset, AppearancePage, Target};
pub use style::{
    default_style, initial_style, look, publish, random_style, PanelStyle, Papers, TerminalLook,
    TerminalSettings,
};
