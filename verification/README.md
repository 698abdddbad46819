# weld

A side-by-side terminal diff and merge tool whose core is verified with Verus.

- `src/` — the verified library: line diffs (through `similar`) and character-level
  inline diffs, the alignment of diff blocks into display rows, the merge model
  with bounded undo/redo of block copies, the scrolling viewport, the minimap
  geometry, key handling, and the text that each row of the view shows.
- `tests/` — tests of the library on concrete inputs.
- `app/` — the `weld` program: command line, file loading, configuration
  file, terminal drawing with ratatui and the event loop with crossterm.

Among the properties proved: the diff blocks tile both files; the display rows
show every line of each file exactly once and in order, and rows of equal
blocks pair lines of the same text; the inline segments of each side spell
its line; undoing a block copy restores both files, and redoing it after an
undo copies the block again; the undo history never exceeds its capacity.
