# rs_sim

A redstone circuit simulator: a grid of chunks holding bit-packed blocks,
the power rules of wires, torches, repeaters, comparators and the rest, an
edit history with undo and redo, copy and paste, and the project file and
structure export formats. The library in `src/` is verified with Verus;
`app/` is the macroquad window around it (drawing, input devices, dialogs,
files and the simulation clock).

- `src/block.rs` blocks, directions and the bit layout of block state
- `src/world.rs` the chunked world and its map view
- `src/sim/` the wire pass, the component tick and the step loop
- `src/history.rs`, `src/editor.rs`, `src/replay.rs` edits, undo and redo
- `src/controls.rs`, `src/palette.rs` what the mouse and keys do
- `src/project.rs`, `src/export.rs` what files hold
