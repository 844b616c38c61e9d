//! The board's decisions: key bindings, viewport arithmetic and UI state.

pub mod board;
pub mod controls;
pub mod reload;
pub mod keymap;
pub mod review;
pub mod state;
pub mod ui;
