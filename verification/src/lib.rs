//! A redstone circuit simulator: blocks with bit-packed state, a chunked grid
//! world, the power-propagation rules, edit history and the editing logic.
//! Rendering, input and file I/O live outside this library.

pub mod constants;
pub mod block;
pub mod world;
pub mod sim;
pub mod history;
pub mod editor;
pub mod palette;
pub mod export;
pub mod project;
pub mod replay;
pub mod controls;
pub mod appearance;
