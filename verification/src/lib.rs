//! Core of the Petir terminal emulator: the cell grid with its scrollback,
//! the escape-sequence state machine behind it, inline image decoders,
//! scrollback search, text selection and the tab/split-pane model.

pub mod cell;
pub mod grid;
pub mod text;
pub mod image;
pub mod term;
pub mod search;
pub mod selection;
pub mod pane;
pub mod config;
pub mod menu;
pub mod render;
pub mod keys;
