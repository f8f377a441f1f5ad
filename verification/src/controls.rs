//! What the mouse buttons and editing keys do to the editor, one frame at a
//! time. Reading the devices, and everything measured in screen pixels,
//! happens outside; these functions take the cell under the pointer and the
//! button states.

use vstd::prelude::*;

use crate::block::{plain, Block, BlockId, Direction};
use crate::editor::{paste_done, paste_fits, set_block_done, Editor};
use crate::palette::{
    click_block, drag_direction, placement_block, spec_click_block, spec_drag_direction,
    spec_placement_block, SelectBlock,
};
use crate::sim::{spec_step, step_simulation};
use crate::world::{chunk_of, expanded};

verus! {

/// How the simulation advances.
#[derive(Debug, Clone, Copy, PartialEq, Eq, Structural)]
pub enum SimMode {
    Off,
    Timed,
    Instant,
}

impl SimMode {
    /// The mode the mode key switches to: off, timed, instant, and round.
    pub fn next(self) -> (r: SimMode)
        ensures
            r == match self {
                SimMode::Off => SimMode::Timed,
                SimMode::Timed => SimMode::Instant,
                SimMode::Instant => SimMode::Off,
            },
    {
        match self {
            SimMode::Off => SimMode::Timed,
            SimMode::Timed => SimMode::Instant,
            SimMode::Instant => SimMode::Off,
        }
    }
}

/// The placing state of the pointer: the palette entry in hand, whether the
/// left button is held down over the world, and the last cell it placed in.
#[derive(Debug, Clone, Copy)]
pub struct Cursor {
    pub selected_block: SelectBlock,
    pub left_held: bool,
    pub last_placed_pos: Option<(i32, i32)>,
}

/// The left button over the world this frame: the cell under the pointer,
/// whether the button is down and whether it went down this frame, the side
/// of the cell the pointer is on, and whether it is near the cell's centre.
#[derive(Debug, Clone, Copy)]
pub struct PointerInput {
    pub cell: (i32, i32),
    pub left_down: bool,
    pub left_pressed: bool,
    pub aim: Direction,
    pub at_center: bool,
}

/// The cell as a world-map key.
pub open spec fn cell_key(c: (i32, i32)) -> (int, int) {
    (c.0 as int, c.1 as int)
}

/// The block a placing click or drag puts into a loaded cell holding
/// `existing`, if any: a click on an interactive block works it; the eraser
/// clears; otherwise the entry in hand is placed, facing the drag direction
/// (or the side aimed at), unless a block of the same kind is there.
pub open spec fn spec_left_target(
    ed: Editor,
    cur: Cursor,
    inp: PointerInput,
    existing: Block,
) -> Option<Block> {
    let dir = if inp.left_pressed {
        inp.aim
    } else {
        match cur.last_placed_pos {
            Some(p) => match spec_drag_direction(inp.cell.0 - p.0, inp.cell.1 - p.1) {
                Some(d) => d,
                None => inp.aim,
            },
            None => inp.aim,
        }
    };
    let nb = spec_placement_block(
        ed.world@,
        cur.selected_block,
        inp.cell.0 as int,
        inp.cell.1 as int,
        Some(dir),
        inp.left_pressed && inp.at_center,
    );
    if inp.left_pressed && spec_click_block(existing) is Some {
        spec_click_block(existing)
    } else if cur.selected_block == SelectBlock::Eraser {
        Some(plain(BlockId::Air))
    } else if existing.id != nb.id {
        Some(nb)
    } else {
        None
    }
}

/// The left button places where it goes down, and again each time it is
/// dragged into another cell.
pub open spec fn should_place(cur: Cursor, inp: PointerInput) -> bool {
    inp.left_pressed || (cur.left_held && cur.last_placed_pos != Some(inp.cell))
}

impl Editor {
    /// One frame of the left button over the world. A press clears the
    /// selection; in paste mode a press pastes at a loaded cell; otherwise,
    /// with no selection, the button places: in an unloaded cell it loads
    /// the chunk, in a loaded one it works, erases or places a block.
    /// Releasing the button ends the drag.
    pub fn left_button(&mut self, cur: &mut Cursor, inp: PointerInput)
        requires
            old(self).wf(),
            old(self).paste_mode && inp.left_pressed ==> paste_fits(
                *old(self),
                inp.cell.0 as int,
                inp.cell.1 as int,
            ),
        ensures
            final(self).wf(),
            ({
                let cleared = inp.left_pressed && old(self).select_start is Some;
                let cell = cell_key(inp.cell);
                let loaded = old(self).world@.dom().contains(cell);
                let after_press = if cleared {
                    Editor { select_start: None, select_end: None, ..*old(self) }
                } else {
                    *old(self)
                };
                if old(self).paste_mode && inp.left_pressed {
                    &&& *final(cur) == *old(cur)
                    &&& if loaded {
                        paste_done(after_press, *final(self), cell.0, cell.1)
                    } else {
                        *final(self) == after_press
                    }
                } else if !cleared && old(self).select_start is None && inp.left_down {
                    if should_place(*old(cur), inp) {
                        &&& *final(cur) == Cursor {
                            left_held: true,
                            last_placed_pos: Some(inp.cell),
                            ..*old(cur)
                        }
                        &&& if !loaded {
                            &&& final(self).world@ == expanded(
                                old(self).world@,
                                chunk_of(cell.0),
                                chunk_of(cell.1),
                            )
                            &&& *final(self) == Editor { world: final(self).world, ..*old(self) }
                        } else {
                            match spec_left_target(
                                *old(self),
                                *old(cur),
                                inp,
                                old(self).world@[cell],
                            ) {
                                Some(b) => set_block_done(*old(self), *final(self), cell.0, cell.1, b),
                                None => *final(self) == *old(self),
                            }
                        }
                    } else {
                        &&& *final(self) == *old(self)
                        &&& *final(cur) == *old(cur)
                    }
                } else {
                    &&& *final(self) == after_press
                    &&& *final(cur) == Cursor {
                        left_held: false,
                        last_placed_pos: None,
                        ..*old(cur)
                    }
                }
            }),
    {
        let cell = inp.cell;
        let mut cleared = false;
        if inp.left_pressed && self.select_start.is_some() {
            self.select_start = None;
            self.select_end = None;
            cleared = true;
        }
        if self.paste_mode && inp.left_pressed {
            if self.world.in_bounds(cell.0, cell.1) {
                self.paste_clipboard(cell.0, cell.1);
            }
        } else if !cleared && self.select_start.is_none() && inp.left_down {
            let moved = match cur.last_placed_pos {
                Some(p) => p.0 != cell.0 || p.1 != cell.1,
                None => true,
            };
            if inp.left_pressed || (cur.left_held && moved) {
                if !self.world.in_bounds(cell.0, cell.1) {
                    let (cx, cy) = self.world.chunk_at(cell.0, cell.1);
                    self.world.expand_to_chunk(cx, cy);
                    cur.last_placed_pos = Some(cell);
                    cur.left_held = true;
                    return;
                }
                let prev_pos = cur.last_placed_pos;
                cur.last_placed_pos = Some(cell);
                cur.left_held = true;
                let existing = match self.world.get(cell.0, cell.1) {
                    Some(b) => *b,
                    None => Block::air(),
                };
                if inp.left_pressed {
                    if let Some(nb) = click_block(existing) {
                        self.set_block(cell.0, cell.1, nb);
                        return;
                    }
                }
                if cur.selected_block == SelectBlock::Eraser {
                    self.set_block(cell.0, cell.1, Block::air());
                    return;
                }
                let dir = if inp.left_pressed {
                    inp.aim
                } else {
                    match drag_direction(prev_pos, cell) {
                        Some(d) => d,
                        None => inp.aim,
                    }
                };
                let nb = placement_block(
                    &self.world,
                    cur.selected_block,
                    cell.0,
                    cell.1,
                    Some(dir),
                    inp.left_pressed && inp.at_center,
                );
                if existing.id != nb.id {
                    self.set_block(cell.0, cell.1, nb);
                }
            }
        } else {
            cur.left_held = false;
            cur.last_placed_pos = None;
        }
    }

    /// One frame of the right button (without the pan modifier) over the
    /// world. A press on a loaded cell starts a one-cell selection there, or,
    /// when that one cell is already the selection, erases it and drops the
    /// selection. Holding the button drags the selection's end over loaded
    /// cells.
    pub fn right_button(&mut self, cell: (i32, i32), right_pressed: bool, right_down: bool)
        requires
            old(self).wf(),
        ensures
            ({
                let c = cell_key(cell);
                let loaded = old(self).world@.dom().contains(c);
                let one_cell = old(self).select_start == Some(cell) && old(self).select_end == Some(
                    cell,
                );
                if right_pressed && loaded && one_cell {
                    &&& set_block_done(
                        *old(self),
                        Editor {
                            select_start: old(self).select_start,
                            select_end: old(self).select_end,
                            ..*final(self)
                        },
                        c.0,
                        c.1,
                        plain(BlockId::Air),
                    )
                    &&& final(self).select_start is None
                    &&& final(self).select_end is None
                } else if right_pressed && loaded {
                    *final(self) == Editor {
                        select_start: Some(cell),
                        select_end: Some(cell),
                        ..*old(self)
                    }
                } else if right_down && loaded && old(self).select_start is Some {
                    *final(self) == Editor { select_end: Some(cell), ..*old(self) }
                } else {
                    *final(self) == *old(self)
                }
            }),
            final(self).wf(),
    {
        if right_pressed && self.world.in_bounds(cell.0, cell.1) {
            let one_cell = match (self.select_start, self.select_end) {
                (Some(s), Some(e)) => s.0 == e.0 && s.1 == e.1 && s.0 == cell.0 && s.1 == cell.1,
                _ => false,
            };
            if one_cell {
                self.set_block(cell.0, cell.1, Block::air());
                self.select_start = None;
                self.select_end = None;
            } else {
                self.select_start = Some(cell);
                self.select_end = Some(cell);
            }
        }
        if right_down && self.world.in_bounds(cell.0, cell.1) && self.select_start.is_some() {
            self.select_end = Some(cell);
        }
    }

    /// The mode key: switches to the next simulation mode and returns it;
    /// entering instant mode makes a simulation pass due.
    pub fn switch_sim_mode(&mut self, mode: SimMode) -> (r: SimMode)
        ensures
            r == match mode {
                SimMode::Off => SimMode::Timed,
                SimMode::Timed => SimMode::Instant,
                SimMode::Instant => SimMode::Off,
            },
            *final(self) == (if r == SimMode::Instant {
                Editor { simulation_needed: true, ..*old(self) }
            } else {
                *old(self)
            }),
    {
        let next = mode.next();
        if next == SimMode::Instant {
            self.simulation_needed = true;
        }
        next
    }

    /// The step key: in manual mode, one simulation step; in the other modes
    /// nothing. Returns whether the step recorded a change.
    pub fn step_key(&mut self, mode: SimMode) -> (r: bool)
        requires
            old(self).wf(),
        ensures
            final(self).wf(),
            if mode == SimMode::Off {
                &&& (final(self).world@, r) == spec_step(old(self).world@)
                &&& *final(self) == (Editor { world: final(self).world, ..*old(self) })
            } else {
                *final(self) == *old(self) && !r
            },
    {
        if mode == SimMode::Off {
            step_simulation(&mut self.world)
        } else {
            false
        }
    }

    /// The cancel key: drops the selection, leaves paste mode and ends the
    /// drag.
    pub fn cancel(&mut self, cur: &mut Cursor)
        ensures
            *final(self) == (Editor {
                select_start: None,
                select_end: None,
                paste_mode: false,
                ..*old(self)
            }),
            *final(cur) == (Cursor { left_held: false, last_placed_pos: None, ..*old(cur) }),
    {
        self.select_start = None;
        self.select_end = None;
        self.paste_mode = false;
        cur.left_held = false;
        cur.last_placed_pos = None;
    }

    /// The paste key: with something copied, switches paste mode, and
    /// entering it drops the selection; with nothing copied, does nothing.
    pub fn toggle_paste_mode(&mut self)
        ensures
            *final(self) == (if old(self).clipboard is None {
                *old(self)
            } else if old(self).paste_mode {
                Editor { paste_mode: false, ..*old(self) }
            } else {
                Editor { paste_mode: true, select_start: None, select_end: None, ..*old(self) }
            }),
    {
        if self.clipboard.is_some() {
            self.paste_mode = !self.paste_mode;
            if self.paste_mode {
                self.select_start = None;
                self.select_end = None;
            }
        }
    }
}

} // verus!
