//! The screen the shell writes on, and the keys sent back to it.
//!
//! Nothing here draws. Bytes go in; what comes out is a grid of cells, a
//! cursor, a scrollback, and now and then a short reply that the caller sends
//! back up the pipe.
pub(crate) mod capture;
pub mod cell;
pub mod changes;
pub mod emulator;
pub(crate) mod grid;
pub mod halves;
pub mod keys;
pub mod laws;
pub mod model;
pub(crate) mod motion;
pub mod parser;
pub mod presses;
pub mod readings;
pub(crate) mod rendition;
pub mod screen;
pub mod search;
pub mod sequences;
pub mod settings;
pub mod sizes;
pub mod stream;
pub mod writes;

pub use cell::{character_width, Attrs, Cell, Color, Cursor, Line, Modes};
pub use emulator::Terminal;
pub use keys::{encode_key, encode_paste, encode_typing, Key, Modifiers};
pub use parser::Parser;
pub use screen::Screen;
