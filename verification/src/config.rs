//! User-facing configuration values.
use vstd::prelude::*;

verus! {

/// Top-level config.
#[derive(Debug, Clone, Copy, PartialEq, Eq, Structural)]
pub struct Config {
    pub show_minimap: bool,
    /// Maximum number of undoable operations retained in the undo stack.
    pub undo_capacity: usize,
    /// Columns per tab stop when expanding `\t` for display.
    pub tab_width: usize,
}

impl Default for Config {
    /// The defaults: the minimap shown, 100 undoable operations, tab stops
    /// every 4 columns.
    fn default() -> (c: Config)
        ensures
            c.show_minimap,
            c.undo_capacity == 100,
            c.tab_width == 4,
    {
        Config { show_minimap: true, undo_capacity: 100, tab_width: 4 }
    }
}

} // verus!
