//! Weld: the verified core of a side-by-side diff and merge tool.
//!
//! The library holds the line and character diff model, the alignment of diff
//! blocks into display rows, the undo/redo history of block copies, the
//! scrolling viewport, the minimap geometry and the key handling of the
//! file diff view.
pub mod text;
pub mod undo;
pub mod file_io;
pub mod inline_diff;
pub mod diff;
pub mod display;
pub mod view;
pub mod diff_model;
pub mod viewport;
pub mod minimap;
pub mod config;
pub mod state;
pub mod input;
