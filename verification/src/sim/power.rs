use vstd::prelude::*;

use crate::block::{
    spec_barrel_strength, spec_button_powered, spec_comparator_powered, spec_decode_dir,
    spec_dx, spec_dy, spec_lever_powered, spec_opposite, spec_repeater_powered, spec_torch_dir,
    spec_torch_lit, spec_torch_on_wall, decode_barrel_strength, decode_button_powered,
    decode_comparator_dir, decode_comparator_powered, decode_lever_powered, decode_repeater_dir,
    decode_repeater_powered, decode_torch_dir, decode_torch_lit, decode_torch_on_wall, Block,
    BlockId, Direction,
};
use crate::constants::MAX_POWER;
use crate::world::World;

verus! {

/// The world map: every loaded cell by its coordinates.
pub type Cells = Map<(int, int), Block>;

/// The block at `(x, y)`, if that cell is loaded.
pub open spec fn at(w: Cells, x: int, y: int) -> Option<Block> {
    if w.dom().contains((x, y)) {
        Some(w[(x, y)])
    } else {
        None
    }
}

pub open spec fn nx(x: int, d: Direction) -> int {
    x + spec_dx(d)
}

pub open spec fn ny(y: int, d: Direction) -> int {
    y + spec_dy(d)
}

/// Blocks that conduct power: solid blocks, targets, lamps and barrels.
pub open spec fn solid_like(id: BlockId) -> bool {
    id == BlockId::SolidBlock || id == BlockId::Target || id == BlockId::RedstoneLamp || id
        == BlockId::Barrel
}

pub open spec fn max_u8(a: u8, b: u8) -> u8 {
    if a >= b {
        a
    } else {
        b
    }
}

pub open spec fn max4(a: u8, b: u8, c: u8, d: u8) -> u8 {
    max_u8(max_u8(max_u8(a, b), c), d)
}

/// The power a block gives off by itself, if it is an active source.
pub open spec fn spec_emitted_power(b: Block) -> Option<u8> {
    match b.id {
        BlockId::RedstoneTorch => if spec_torch_lit(b.data) {
            Some(15u8)
        } else {
            None
        },
        BlockId::RedstoneBlock => Some(15u8),
        BlockId::Lever => if spec_lever_powered(b.data) {
            Some(15u8)
        } else {
            None
        },
        BlockId::Button => if spec_button_powered(b.data) {
            Some(15u8)
        } else {
            None
        },
        BlockId::Repeater => if spec_repeater_powered(b.data) {
            Some(15u8)
        } else {
            None
        },
        BlockId::Comparator => if spec_comparator_powered(b.data) {
            Some(b.power)
        } else {
            None
        },
        _ => None,
    }
}

/// Whether a source sends its power toward direction `d`: a lit wall torch
/// everywhere but into its wall, a powered repeater or comparator only
/// forward, every other source all around.
pub open spec fn spec_emits_toward(b: Block, d: Direction) -> bool {
    match b.id {
        BlockId::RedstoneTorch => if spec_torch_lit(b.data) && spec_torch_on_wall(b.data) {
            d != spec_torch_dir(b.data)
        } else {
            true
        },
        BlockId::Repeater => if spec_repeater_powered(b.data) {
            d == spec_decode_dir(b.data)
        } else {
            true
        },
        BlockId::Comparator => if spec_comparator_powered(b.data) {
            d == spec_decode_dir(b.data)
        } else {
            true
        },
        _ => true,
    }
}

/// Strong power that the neighbour in direction `d` drives into `(x, y)`.
pub open spec fn strong_in_dir(w: Cells, x: int, y: int, d: Direction) -> Option<u8> {
    match at(w, nx(x, d), ny(y, d)) {
        None => None,
        Some(n) => {
            let from = spec_opposite(d);
            match n.id {
                BlockId::RedstoneTorch => if spec_torch_lit(n.data) && (!spec_torch_on_wall(n.data)
                    || spec_torch_dir(n.data) != from) {
                    Some(15u8)
                } else {
                    None
                },
                BlockId::Repeater => if spec_repeater_powered(n.data) && spec_decode_dir(n.data)
                    == from {
                    Some(15u8)
                } else {
                    None
                },
                BlockId::Comparator => if spec_comparator_powered(n.data) && spec_decode_dir(
                    n.data,
                ) == from {
                    Some(n.power)
                } else {
                    None
                },
                _ => None,
            }
        },
    }
}

/// The strong power at `(x, y)`: that of the first neighbour, in the order
/// north, south, east, west, that drives it strongly; 0 if none does.
pub open spec fn spec_strongly_powered(w: Cells, x: int, y: int) -> u8 {
    match strong_in_dir(w, x, y, Direction::North) {
        Some(p) => p,
        None => match strong_in_dir(w, x, y, Direction::South) {
            Some(p) => p,
            None => match strong_in_dir(w, x, y, Direction::East) {
                Some(p) => p,
                None => match strong_in_dir(w, x, y, Direction::West) {
                    Some(p) => p,
                    None => 0u8,
                },
            },
        },
    }
}

/// Whether a wire at `(x, y)` links up with its neighbour in direction `d`.
pub open spec fn spec_wire_connects(w: Cells, x: int, y: int, d: Direction) -> bool {
    match at(w, nx(x, d), ny(y, d)) {
        None => false,
        Some(n) => match n.id {
            BlockId::RedstoneWire => true,
            BlockId::RedstoneTorch => true,
            BlockId::RedstoneBlock => true,
            BlockId::Repeater => {
                let rd = spec_decode_dir(n.data);
                rd == spec_opposite(d) || rd == d
            },
            BlockId::Comparator => true,
            BlockId::Lever => true,
            BlockId::Button => true,
            BlockId::Target => true,
            _ => false,
        },
    }
}

pub open spec fn conn_count(w: Cells, x: int, y: int) -> int {
    (if spec_wire_connects(w, x, y, Direction::North) {
        1int
    } else {
        0
    }) + (if spec_wire_connects(w, x, y, Direction::South) {
        1int
    } else {
        0
    }) + (if spec_wire_connects(w, x, y, Direction::East) {
        1int
    } else {
        0
    }) + (if spec_wire_connects(w, x, y, Direction::West) {
        1int
    } else {
        0
    })
}

pub open spec fn first_conn(w: Cells, x: int, y: int) -> Direction {
    if spec_wire_connects(w, x, y, Direction::North) {
        Direction::North
    } else if spec_wire_connects(w, x, y, Direction::South) {
        Direction::South
    } else if spec_wire_connects(w, x, y, Direction::East) {
        Direction::East
    } else {
        Direction::West
    }
}

/// Whether the wire at `(x, y)` passes its power toward `dir`: an isolated
/// wire points everywhere, a wire with one link points along that line, and
/// otherwise a wire points only where it links up.
pub open spec fn spec_wire_powers_toward(w: Cells, x: int, y: int, dir: Direction) -> bool {
    let n = conn_count(w, x, y);
    if n == 0 {
        true
    } else if n == 1 {
        let d = first_conn(w, x, y);
        dir == d || dir == spec_opposite(d)
    } else {
        spec_wire_connects(w, x, y, dir)
    }
}

/// The weak power that the neighbour in direction `d` gives `(x, y)`.
pub open spec fn power_from(w: Cells, x: int, y: int, d: Direction) -> u8 {
    match at(w, nx(x, d), ny(y, d)) {
        None => 0u8,
        Some(n) => {
            let back = spec_opposite(d);
            match n.id {
                BlockId::RedstoneWire => if n.power > 0 && spec_wire_powers_toward(
                    w,
                    nx(x, d),
                    ny(y, d),
                    back,
                ) {
                    n.power
                } else {
                    0u8
                },
                BlockId::RedstoneTorch => if spec_torch_lit(n.data) && (!spec_torch_on_wall(n.data)
                    || spec_torch_dir(n.data) != back) {
                    15u8
                } else {
                    0u8
                },
                BlockId::Lever => if spec_lever_powered(n.data) {
                    15u8
                } else {
                    0u8
                },
                BlockId::Button => if spec_button_powered(n.data) {
                    15u8
                } else {
                    0u8
                },
                BlockId::Repeater => if spec_repeater_powered(n.data) && spec_decode_dir(n.data)
                    == back {
                    15u8
                } else {
                    0u8
                },
                BlockId::Comparator => if spec_comparator_powered(n.data) && spec_decode_dir(n.data)
                    == back {
                    n.power
                } else {
                    0u8
                },
                _ => 0u8,
            }
        },
    }
}

/// The largest power that any neighbour gives `(x, y)`.
pub open spec fn spec_block_get_power(w: Cells, x: int, y: int) -> u8 {
    max4(
        power_from(w, x, y, Direction::North),
        power_from(w, x, y, Direction::South),
        power_from(w, x, y, Direction::East),
        power_from(w, x, y, Direction::West),
    )
}

/// Whether the neighbour in direction `d` powers `(x, y)` at all.
pub open spec fn has_power_from(w: Cells, x: int, y: int, d: Direction) -> bool {
    match at(w, nx(x, d), ny(y, d)) {
        None => false,
        Some(n) => {
            let back = spec_opposite(d);
            match n.id {
                BlockId::RedstoneWire => n.power > 0 && spec_wire_powers_toward(
                    w,
                    nx(x, d),
                    ny(y, d),
                    back,
                ),
                BlockId::RedstoneTorch => spec_torch_lit(n.data) && (!spec_torch_on_wall(n.data)
                    || spec_torch_dir(n.data) != back),
                BlockId::Lever => spec_lever_powered(n.data),
                BlockId::Button => spec_button_powered(n.data),
                BlockId::Repeater => spec_repeater_powered(n.data) && spec_decode_dir(n.data)
                    == back,
                BlockId::Comparator => spec_comparator_powered(n.data) && spec_decode_dir(n.data)
                    == back,
                _ => false,
            }
        },
    }
}

pub open spec fn has_power_from_unless(
    w: Cells,
    x: int,
    y: int,
    d: Direction,
    exclude: Option<(int, int)>,
) -> bool {
    exclude != Some((nx(x, d), ny(y, d))) && has_power_from(w, x, y, d)
}

/// Whether some neighbour of `(x, y)` other than `exclude` powers it.
pub open spec fn spec_block_has_power(w: Cells, x: int, y: int, exclude: Option<(int, int)>) -> bool {
    has_power_from_unless(w, x, y, Direction::North, exclude) || has_power_from_unless(
        w,
        x,
        y,
        Direction::South,
        exclude,
    ) || has_power_from_unless(w, x, y, Direction::East, exclude) || has_power_from_unless(
        w,
        x,
        y,
        Direction::West,
        exclude,
    )
}

/// Whether the torch at `(x, y)` is switched off: a wall torch is off when
/// the block it hangs on is powered by something other than the torch.
pub open spec fn spec_torch_is_blocked(w: Cells, x: int, y: int) -> bool {
    match at(w, x, y) {
        None => false,
        Some(b) => if spec_torch_on_wall(b.data) {
            let d = spec_torch_dir(b.data);
            spec_block_has_power(w, nx(x, d), ny(y, d), Some((x, y)))
        } else {
            false
        },
    }
}

/// The power read from the block at `(x, y)` by a component behind it.
pub open spec fn spec_get_input_power(w: Cells, x: int, y: int, read_containers: bool) -> u8 {
    match at(w, x, y) {
        None => 0u8,
        Some(b) => match b.id {
            BlockId::Air => 0u8,
            BlockId::RedstoneWire => b.power,
            BlockId::RedstoneTorch => if spec_torch_lit(b.data) {
                15u8
            } else {
                0u8
            },
            BlockId::RedstoneBlock => 15u8,
            BlockId::Lever => if spec_lever_powered(b.data) {
                15u8
            } else {
                0u8
            },
            BlockId::Button => if spec_button_powered(b.data) {
                15u8
            } else {
                0u8
            },
            BlockId::Repeater => if spec_repeater_powered(b.data) {
                15u8
            } else {
                0u8
            },
            BlockId::Comparator => if spec_comparator_powered(b.data) {
                b.power
            } else {
                0u8
            },
            BlockId::SolidBlock | BlockId::Target | BlockId::RedstoneLamp => spec_block_get_power(
                w,
                x,
                y,
            ),
            BlockId::Barrel => {
                let p = spec_block_get_power(w, x, y);
                if read_containers {
                    max_u8(p, spec_barrel_strength(b.data) as u8)
                } else {
                    p
                }
            },
        },
    }
}

/// Like `spec_get_input_power`, but repeaters and comparators count only
/// when they face `toward`.
pub open spec fn spec_get_input_power_toward(
    w: Cells,
    x: int,
    y: int,
    toward: Direction,
    read_containers: bool,
) -> u8 {
    match at(w, x, y) {
        None => 0u8,
        Some(b) => match b.id {
            BlockId::Repeater => if spec_repeater_powered(b.data) && spec_decode_dir(b.data)
                == toward {
                15u8
            } else {
                0u8
            },
            BlockId::Comparator => if spec_comparator_powered(b.data) && spec_decode_dir(b.data)
                == toward {
                b.power
            } else {
                0u8
            },
            _ => spec_get_input_power(w, x, y, read_containers),
        },
    }
}

/// The power read from the block at `(x, y)` by a component beside it;
/// `from_caller` points from the block toward the reader's side.
pub open spec fn spec_get_input_power_from_side(
    w: Cells,
    x: int,
    y: int,
    from_caller: Direction,
) -> u8 {
    match at(w, x, y) {
        None => 0u8,
        Some(b) => match b.id {
            BlockId::RedstoneWire => b.power,
            BlockId::RedstoneTorch => if spec_torch_lit(b.data) {
                15u8
            } else {
                0u8
            },
            BlockId::RedstoneBlock => 15u8,
            BlockId::Lever => if spec_lever_powered(b.data) {
                15u8
            } else {
                0u8
            },
            BlockId::Button => if spec_button_powered(b.data) {
                15u8
            } else {
                0u8
            },
            BlockId::Repeater => if spec_repeater_powered(b.data) && spec_decode_dir(b.data)
                == spec_opposite(from_caller) {
                15u8
            } else {
                0u8
            },
            BlockId::Comparator => if spec_comparator_powered(b.data) && spec_decode_dir(b.data)
                == spec_opposite(from_caller) {
                b.power
            } else {
                0u8
            },
            BlockId::SolidBlock | BlockId::Target | BlockId::RedstoneLamp | BlockId::Barrel =>
                spec_strongly_powered(w, x, y),
            _ => 0u8,
        },
    }
}

/// The power a comparator reads from the block at `(x, y)` on its side.
pub open spec fn spec_comparator_side_power(w: Cells, x: int, y: int, from_side: Direction) -> u8 {
    match at(w, x, y) {
        None => 0u8,
        Some(b) => match b.id {
            BlockId::RedstoneWire => b.power,
            BlockId::RedstoneBlock => 15u8,
            BlockId::Repeater => if spec_repeater_powered(b.data) && spec_decode_dir(b.data)
                == spec_opposite(from_side) {
                15u8
            } else {
                0u8
            },
            BlockId::Comparator => if spec_comparator_powered(b.data) && spec_decode_dir(b.data)
                == spec_opposite(from_side) {
                b.power
            } else {
                0u8
            },
            _ => 0u8,
        },
    }
}

/// Whether the neighbour in direction `d` makes a lamp at `(x, y)` light.
pub open spec fn lights_from(w: Cells, x: int, y: int, d: Direction) -> bool {
    match at(w, nx(x, d), ny(y, d)) {
        None => false,
        Some(n) => match n.id {
            BlockId::RedstoneBlock => true,
            BlockId::SolidBlock | BlockId::Target | BlockId::Barrel | BlockId::RedstoneLamp =>
                spec_strongly_powered(w, nx(x, d), ny(y, d)) > 0 || spec_block_get_power(
                w,
                nx(x, d),
                ny(y, d),
            ) > 0,
            _ => has_power_from(w, x, y, d),
        },
    }
}

/// Whether anything next to `(x, y)` powers it, counting redstone blocks
/// and powered conductors.
pub open spec fn spec_is_block_powered(w: Cells, x: int, y: int) -> bool {
    lights_from(w, x, y, Direction::North) || lights_from(w, x, y, Direction::South) || lights_from(
        w,
        x,
        y,
        Direction::East,
    ) || lights_from(w, x, y, Direction::West)
}

/// A block with a redstone block on any side is powered.
pub proof fn lemma_redstone_block_powers(w: Cells, x: int, y: int, d: Direction)
    requires
        w.dom().contains((x + spec_dx(d), y + spec_dy(d))),
        w[(x + spec_dx(d), y + spec_dy(d))].id == BlockId::RedstoneBlock,
    ensures
        spec_is_block_powered(w, x, y),
{
    assert(lights_from(w, x, y, d));
}

// ── Executable counterparts ──

/// The cell one step from `(x, y)` toward `d`, when it has `i32` coordinates.
pub fn neighbor_pos(x: i32, y: i32, d: Direction) -> (r: Option<(i32, i32)>)
    ensures
        r matches Some(p) ==> p.0 == nx(x as int, d) && p.1 == ny(y as int, d),
        r is None ==> !(i32::MIN <= nx(x as int, d) <= i32::MAX && i32::MIN <= ny(y as int, d)
            <= i32::MAX),
{
    match (x.checked_add(d.dx()), y.checked_add(d.dy())) {
        (Some(a), Some(b)) => Some((a, b)),
        _ => None,
    }
}

/// The block at `(x, y)`, copied out of the world.
pub fn block_at_pos(world: &World, x: i32, y: i32) -> (r: Option<Block>)
    requires
        world.wf(),
    ensures
        r == at(world@, x as int, y as int),
{
    match world.get(x, y) {
        Some(b) => Some(*b),
        None => None,
    }
}

/// The neighbour of `(x, y)` in direction `d`.
pub fn neighbor_block(world: &World, x: i32, y: i32, d: Direction) -> (r: Option<Block>)
    requires
        world.wf(),
    ensures
        r == at(world@, nx(x as int, d), ny(y as int, d)),
{
    match neighbor_pos(x, y, d) {
        Some((a, b)) => block_at_pos(world, a, b),
        None => {
            proof {
                world.lemma_out_of_range(nx(x as int, d), ny(y as int, d));
            }
            None
        },
    }
}

/// The power a block gives off by itself, if it is an active source.
pub fn get_emitted_power(block: &Block) -> (r: Option<u8>)
    ensures
        r == spec_emitted_power(*block),
{
    match block.id {
        BlockId::RedstoneTorch => {
            if decode_torch_lit(block.data) {
                Some(MAX_POWER)
            } else {
                None
            }
        },
        BlockId::RedstoneBlock => Some(MAX_POWER),
        BlockId::Lever => {
            if decode_lever_powered(block.data) {
                Some(MAX_POWER)
            } else {
                None
            }
        },
        BlockId::Button => {
            if decode_button_powered(block.data) {
                Some(MAX_POWER)
            } else {
                None
            }
        },
        BlockId::Repeater => {
            if decode_repeater_powered(block.data) {
                Some(MAX_POWER)
            } else {
                None
            }
        },
        BlockId::Comparator => {
            if decode_comparator_powered(block.data) {
                Some(block.power)
            } else {
                None
            }
        },
        _ => None,
    }
}

/// Whether a source sends its power toward `d` (see `spec_emits_toward`).
pub fn emits_toward(block: &Block, d: Direction) -> (r: bool)
    ensures
        r == spec_emits_toward(*block, d),
{
    match block.id {
        BlockId::RedstoneTorch => {
            if decode_torch_lit(block.data) && decode_torch_on_wall(block.data) {
                d != decode_torch_dir(block.data)
            } else {
                true
            }
        },
        BlockId::Repeater => {
            if decode_repeater_powered(block.data) {
                d == decode_repeater_dir(block.data)
            } else {
                true
            }
        },
        BlockId::Comparator => {
            if decode_comparator_powered(block.data) {
                d == decode_comparator_dir(block.data)
            } else {
                true
            }
        },
        _ => true,
    }
}

fn strong_from(world: &World, x: i32, y: i32, d: Direction) -> (r: Option<u8>)
    requires
        world.wf(),
    ensures
        r == strong_in_dir(world@, x as int, y as int, d),
{
    let Some(neighbor) = neighbor_block(world, x, y, d) else {
        return None;
    };
    let from = d.opposite();
    match neighbor.id {
        BlockId::RedstoneTorch => {
            if decode_torch_lit(neighbor.data) && (!decode_torch_on_wall(neighbor.data)
                || decode_torch_dir(neighbor.data) != from) {
                Some(MAX_POWER)
            } else {
                None
            }
        },
        BlockId::Repeater => {
            if decode_repeater_powered(neighbor.data) && decode_repeater_dir(neighbor.data)
                == from {
                Some(MAX_POWER)
            } else {
                None
            }
        },
        BlockId::Comparator => {
            if decode_comparator_powered(neighbor.data) && decode_comparator_dir(neighbor.data)
                == from {
                Some(neighbor.power)
            } else {
                None
            }
        },
        _ => None,
    }
}

pub fn block_is_strongly_powered(world: &World, x: i32, y: i32) -> (r: u8)
    requires
        world.wf(),
    ensures
        r == spec_strongly_powered(world@, x as int, y as int),
{
    if let Some(p) = strong_from(world, x, y, Direction::North) {
        return p;
    }
    if let Some(p) = strong_from(world, x, y, Direction::South) {
        return p;
    }
    if let Some(p) = strong_from(world, x, y, Direction::East) {
        return p;
    }
    if let Some(p) = strong_from(world, x, y, Direction::West) {
        return p;
    }
    0
}

pub fn wire_connects_in_dir(world: &World, x: i32, y: i32, dir: Direction) -> (r: bool)
    requires
        world.wf(),
    ensures
        r == spec_wire_connects(world@, x as int, y as int, dir),
{
    let Some(neighbor) = neighbor_block(world, x, y, dir) else {
        return false;
    };
    match neighbor.id {
        BlockId::RedstoneWire => true,
        BlockId::RedstoneTorch => true,
        BlockId::RedstoneBlock => true,
        BlockId::Repeater => {
            let rd = decode_repeater_dir(neighbor.data);
            let dir_to_wire = dir.opposite();
            rd == dir_to_wire || rd == dir_to_wire.opposite()
        },
        BlockId::Comparator => true,
        BlockId::Lever => true,
        BlockId::Button => true,
        BlockId::Target => true,
        _ => false,
    }
}

fn wire_powers_toward(world: &World, x: i32, y: i32, dir: Direction) -> (r: bool)
    requires
        world.wf(),
    ensures
        r == spec_wire_powers_toward(world@, x as int, y as int, dir),
{
    let c_n = wire_connects_in_dir(world, x, y, Direction::North);
    let c_s = wire_connects_in_dir(world, x, y, Direction::South);
    let c_e = wire_connects_in_dir(world, x, y, Direction::East);
    let c_w = wire_connects_in_dir(world, x, y, Direction::West);
    let count: u8 = (if c_n {
        1u8
    } else {
        0
    }) + (if c_s {
        1u8
    } else {
        0
    }) + (if c_e {
        1u8
    } else {
        0
    }) + (if c_w {
        1u8
    } else {
        0
    });
    if count == 0 {
        true
    } else if count == 1 {
        let d = if c_n {
            Direction::North
        } else if c_s {
            Direction::South
        } else if c_e {
            Direction::East
        } else {
            Direction::West
        };
        dir == d || dir == d.opposite()
    } else {
        match dir {
            Direction::North => c_n,
            Direction::South => c_s,
            Direction::East => c_e,
            Direction::West => c_w,
        }
    }
}

/// The weak power that the neighbour in direction `d` gives `(x, y)`.
fn power_from_dir(world: &World, x: i32, y: i32, d: Direction) -> (r: u8)
    requires
        world.wf(),
    ensures
        r == power_from(world@, x as int, y as int, d),
{
    let Some((nbx, nby)) = neighbor_pos(x, y, d) else {
        proof {
            world.lemma_out_of_range(nx(x as int, d), ny(y as int, d));
        }
        return 0;
    };
    let Some(neighbor) = block_at_pos(world, nbx, nby) else {
        return 0;
    };
    let back = d.opposite();
    match neighbor.id {
        BlockId::RedstoneWire => {
            if neighbor.power > 0 && wire_powers_toward(world, nbx, nby, back) {
                neighbor.power
            } else {
                0
            }
        },
        BlockId::RedstoneTorch => {
            if decode_torch_lit(neighbor.data) {
                if !decode_torch_on_wall(neighbor.data) || decode_torch_dir(neighbor.data) != back {
                    MAX_POWER
                } else {
                    0
                }
            } else {
                0
            }
        },
        BlockId::Lever => {
            if decode_lever_powered(neighbor.data) {
                MAX_POWER
            } else {
                0
            }
        },
        BlockId::Button => {
            if decode_button_powered(neighbor.data) {
                MAX_POWER
            } else {
                0
            }
        },
        BlockId::Repeater => {
            if decode_repeater_powered(neighbor.data) && decode_repeater_dir(neighbor.data) == back {
                MAX_POWER
            } else {
                0
            }
        },
        BlockId::Comparator => {
            if decode_comparator_powered(neighbor.data) && decode_comparator_dir(neighbor.data)
                == back {
                neighbor.power
            } else {
                0
            }
        },
        _ => 0,
    }
}

/// Whether the neighbour in direction `d` powers `(x, y)` at all.
fn has_power_from_dir(world: &World, x: i32, y: i32, d: Direction) -> (r: bool)
    requires
        world.wf(),
    ensures
        r == has_power_from(world@, x as int, y as int, d),
{
    let Some((nbx, nby)) = neighbor_pos(x, y, d) else {
        proof {
            world.lemma_out_of_range(nx(x as int, d), ny(y as int, d));
        }
        return false;
    };
    let Some(neighbor) = block_at_pos(world, nbx, nby) else {
        return false;
    };
    let back = d.opposite();
    match neighbor.id {
        BlockId::RedstoneWire => neighbor.power > 0 && wire_powers_toward(world, nbx, nby, back),
        BlockId::RedstoneTorch => decode_torch_lit(neighbor.data) && (!decode_torch_on_wall(
            neighbor.data,
        ) || decode_torch_dir(neighbor.data) != back),
        BlockId::Lever => decode_lever_powered(neighbor.data),
        BlockId::Button => decode_button_powered(neighbor.data),
        BlockId::Repeater => decode_repeater_powered(neighbor.data) && decode_repeater_dir(
            neighbor.data,
        ) == back,
        BlockId::Comparator => decode_comparator_powered(neighbor.data) && decode_comparator_dir(
            neighbor.data,
        ) == back,
        _ => false,
    }
}

fn has_power_unless(world: &World, x: i32, y: i32, d: Direction, exclude: Option<(i32, i32)>) -> (r:
    bool)
    requires
        world.wf(),
    ensures
        r == has_power_from_unless(
            world@,
            x as int,
            y as int,
            d,
            match exclude {
                Some(e) => Some((e.0 as int, e.1 as int)),
                None => None,
            },
        ),
{
    match neighbor_pos(x, y, d) {
        Some((a, b)) => {
            if let Some((ex, ey)) = exclude {
                if ex == a && ey == b {
                    return false;
                }
            }
            has_power_from_dir(world, x, y, d)
        },
        None => {
            proof {
                world.lemma_out_of_range(nx(x as int, d), ny(y as int, d));
            }
            false
        },
    }
}

fn block_has_power(world: &World, x: i32, y: i32, exclude: Option<(i32, i32)>) -> (r: bool)
    requires
        world.wf(),
    ensures
        r == spec_block_has_power(
            world@,
            x as int,
            y as int,
            match exclude {
                Some(e) => Some((e.0 as int, e.1 as int)),
                None => None,
            },
        ),
{
    has_power_unless(world, x, y, Direction::North, exclude) || has_power_unless(
        world,
        x,
        y,
        Direction::South,
        exclude,
    ) || has_power_unless(world, x, y, Direction::East, exclude) || has_power_unless(
        world,
        x,
        y,
        Direction::West,
        exclude,
    )
}

fn block_get_power(world: &World, x: i32, y: i32) -> (r: u8)
    requires
        world.wf(),
    ensures
        r == spec_block_get_power(world@, x as int, y as int),
{
    let mut max_power = 0u8;
    let p = power_from_dir(world, x, y, Direction::North);
    if p > max_power {
        max_power = p;
    }
    let p = power_from_dir(world, x, y, Direction::South);
    if p > max_power {
        max_power = p;
    }
    let p = power_from_dir(world, x, y, Direction::East);
    if p > max_power {
        max_power = p;
    }
    let p = power_from_dir(world, x, y, Direction::West);
    if p > max_power {
        max_power = p;
    }
    max_power
}

pub fn torch_is_blocked(world: &World, x: i32, y: i32) -> (r: bool)
    requires
        world.wf(),
    ensures
        r == spec_torch_is_blocked(world@, x as int, y as int),
{
    let Some(block) = block_at_pos(world, x, y) else {
        return false;
    };
    let on_wall = decode_torch_on_wall(block.data);
    let dir = decode_torch_dir(block.data);
    if on_wall {
        match neighbor_pos(x, y, dir) {
            Some((ax, ay)) => block_has_power(world, ax, ay, Some((x, y))),
            None => {
                proof {
                    lemma_has_power_off_grid(world, x as int, y as int, dir);
                }
                false
            },
        }
    } else {
        false
    }
}

/// The cell behind an `i32` cell is off the grid only when every cell next
/// to it other than the first cell is off the grid too.
proof fn lemma_has_power_off_grid(world: &World, x: int, y: int, d: Direction)
    requires
        world.wf(),
        i32::MIN <= x <= i32::MAX,
        i32::MIN <= y <= i32::MAX,
        !(i32::MIN <= nx(x, d) <= i32::MAX && i32::MIN <= ny(y, d) <= i32::MAX),
    ensures
        !spec_block_has_power(world@, nx(x, d), ny(y, d), Some((x, y))),
{
    let ax = nx(x, d);
    let ay = ny(y, d);
    lemma_off_grid_dir(world, x, y, d, Direction::North);
    lemma_off_grid_dir(world, x, y, d, Direction::South);
    lemma_off_grid_dir(world, x, y, d, Direction::East);
    lemma_off_grid_dir(world, x, y, d, Direction::West);
}

proof fn lemma_off_grid_dir(world: &World, x: int, y: int, d: Direction, e: Direction)
    requires
        world.wf(),
        i32::MIN <= x <= i32::MAX,
        i32::MIN <= y <= i32::MAX,
        !(i32::MIN <= nx(x, d) <= i32::MAX && i32::MIN <= ny(y, d) <= i32::MAX),
    ensures
        !has_power_from_unless(world@, nx(x, d), ny(y, d), e, Some((x, y))),
{
    let ax = nx(x, d);
    let ay = ny(y, d);
    if (nx(ax, e), ny(ay, e)) != (x, y) {
        assert(!(i32::MIN <= nx(ax, e) <= i32::MAX && i32::MIN <= ny(ay, e) <= i32::MAX)) by {
            match d {
                Direction::North => {},
                Direction::South => {},
                Direction::East => {},
                Direction::West => {},
            }
            match e {
                Direction::North => {},
                Direction::South => {},
                Direction::East => {},
                Direction::West => {},
            }
        }
        world.lemma_out_of_range(nx(ax, e), ny(ay, e));
    }
}

pub fn get_input_power(world: &World, x: i32, y: i32, read_containers: bool) -> (r: u8)
    requires
        world.wf(),
    ensures
        r == spec_get_input_power(world@, x as int, y as int, read_containers),
{
    let Some(block) = block_at_pos(world, x, y) else {
        return 0;
    };
    match block.id {
        BlockId::Air => 0,
        BlockId::RedstoneWire => block.power,
        BlockId::RedstoneTorch => {
            if decode_torch_lit(block.data) {
                MAX_POWER
            } else {
                0
            }
        },
        BlockId::RedstoneBlock => MAX_POWER,
        BlockId::Lever => {
            if decode_lever_powered(block.data) {
                MAX_POWER
            } else {
                0
            }
        },
        BlockId::Button => {
            if decode_button_powered(block.data) {
                MAX_POWER
            } else {
                0
            }
        },
        BlockId::Repeater => {
            if decode_repeater_powered(block.data) {
                MAX_POWER
            } else {
                0
            }
        },
        BlockId::Comparator => {
            if decode_comparator_powered(block.data) {
                block.power
            } else {
                0
            }
        },
        BlockId::SolidBlock | BlockId::Target | BlockId::RedstoneLamp => block_get_power(world, x, y),
        BlockId::Barrel => {
            let p = block_get_power(world, x, y);
            if read_containers {
                let s = decode_barrel_strength(block.data);
                if p >= s {
                    p
                } else {
                    s
                }
            } else {
                p
            }
        },
    }
}

pub fn get_input_power_toward(
    world: &World,
    x: i32,
    y: i32,
    toward: Direction,
    read_containers: bool,
) -> (r: u8)
    requires
        world.wf(),
    ensures
        r == spec_get_input_power_toward(world@, x as int, y as int, toward, read_containers),
{
    let Some(block) = block_at_pos(world, x, y) else {
        return 0;
    };
    match block.id {
        BlockId::Repeater => {
            if decode_repeater_powered(block.data) && decode_repeater_dir(block.data) == toward {
                MAX_POWER
            } else {
                0
            }
        },
        BlockId::Comparator => {
            if decode_comparator_powered(block.data) && decode_comparator_dir(block.data)
                == toward {
                block.power
            } else {
                0
            }
        },
        _ => get_input_power(world, x, y, read_containers),
    }
}

pub fn get_input_power_from_side(world: &World, x: i32, y: i32, from_caller: Direction) -> (r: u8)
    requires
        world.wf(),
    ensures
        r == spec_get_input_power_from_side(world@, x as int, y as int, from_caller),
{
    let Some(block) = block_at_pos(world, x, y) else {
        return 0;
    };
    match block.id {
        BlockId::RedstoneWire => block.power,
        BlockId::RedstoneTorch => {
            if decode_torch_lit(block.data) {
                MAX_POWER
            } else {
                0
            }
        },
        BlockId::RedstoneBlock => MAX_POWER,
        BlockId::Lever => {
            if decode_lever_powered(block.data) {
                MAX_POWER
            } else {
                0
            }
        },
        BlockId::Button => {
            if decode_button_powered(block.data) {
                MAX_POWER
            } else {
                0
            }
        },
        BlockId::Repeater => {
            if decode_repeater_powered(block.data) && decode_repeater_dir(block.data)
                == from_caller.opposite() {
                MAX_POWER
            } else {
                0
            }
        },
        BlockId::Comparator => {
            if decode_comparator_powered(block.data) && decode_comparator_dir(block.data)
                == from_caller.opposite() {
                block.power
            } else {
                0
            }
        },
        BlockId::SolidBlock | BlockId::Target | BlockId::RedstoneLamp | BlockId::Barrel => {
            block_is_strongly_powered(world, x, y)
        },
        _ => 0,
    }
}

pub fn comparator_side_power(world: &World, x: i32, y: i32, from_side: Direction) -> (r: u8)
    requires
        world.wf(),
    ensures
        r == spec_comparator_side_power(world@, x as int, y as int, from_side),
{
    let Some(block) = block_at_pos(world, x, y) else {
        return 0;
    };
    match block.id {
        BlockId::RedstoneWire => block.power,
        BlockId::RedstoneBlock => MAX_POWER,
        BlockId::Repeater => {
            if decode_repeater_powered(block.data) && decode_repeater_dir(block.data)
                == from_side.opposite() {
                MAX_POWER
            } else {
                0
            }
        },
        BlockId::Comparator => {
            if decode_comparator_powered(block.data) && decode_comparator_dir(block.data)
                == from_side.opposite() {
                block.power
            } else {
                0
            }
        },
        _ => 0,
    }
}

fn lights_from_dir(world: &World, x: i32, y: i32, d: Direction) -> (r: bool)
    requires
        world.wf(),
    ensures
        r == lights_from(world@, x as int, y as int, d),
{
    let Some((nbx, nby)) = neighbor_pos(x, y, d) else {
        proof {
            world.lemma_out_of_range(nx(x as int, d), ny(y as int, d));
        }
        return false;
    };
    let Some(neighbor) = block_at_pos(world, nbx, nby) else {
        return false;
    };
    match neighbor.id {
        BlockId::RedstoneBlock => true,
        BlockId::SolidBlock | BlockId::Target | BlockId::Barrel | BlockId::RedstoneLamp => {
            block_is_strongly_powered(world, nbx, nby) > 0 || block_get_power(world, nbx, nby) > 0
        },
        _ => has_power_from_dir(world, x, y, d),
    }
}

pub fn is_block_powered(world: &World, x: i32, y: i32) -> (r: bool)
    requires
        world.wf(),
    ensures
        r == spec_is_block_powered(world@, x as int, y as int),
{
    lights_from_dir(world, x, y, Direction::North) || lights_from_dir(world, x, y, Direction::South)
        || lights_from_dir(world, x, y, Direction::East) || lights_from_dir(
        world,
        x,
        y,
        Direction::West,
    )
}

// ── Wire power propagation ──

/// The power that a source next to `(x, y)`, in direction `d`, feeds into a
/// wire at `(x, y)`: an emitting block facing that way, or a strongly
/// powered conductor.
pub open spec fn source_into(w: Cells, x: int, y: int, d: Direction) -> u8 {
    match at(w, nx(x, d), ny(y, d)) {
        None => 0u8,
        Some(n) => max_u8(
            match spec_emitted_power(n) {
                Some(p) => if spec_emits_toward(n, spec_opposite(d)) {
                    p
                } else {
                    0u8
                },
                None => 0u8,
            },
            if solid_like(n.id) {
                spec_strongly_powered(w, nx(x, d), ny(y, d))
            } else {
                0u8
            },
        ),
    }
}

/// The strongest source feeding a wire at `(x, y)` directly.
pub open spec fn spec_direct_power(w: Cells, x: int, y: int) -> u8 {
    max4(
        source_into(w, x, y, Direction::North),
        source_into(w, x, y, Direction::South),
        source_into(w, x, y, Direction::East),
        source_into(w, x, y, Direction::West),
    )
}

/// What a neighbouring wire in direction `d` passes on: its power less one.
pub open spec fn wire_step_from(w: Cells, x: int, y: int, d: Direction) -> u8 {
    match at(w, nx(x, d), ny(y, d)) {
        None => 0u8,
        Some(n) => if n.id == BlockId::RedstoneWire && n.power > 1 {
            (n.power - 1) as u8
        } else {
            0u8
        },
    }
}

#[verifier::opaque]
/// The power a wire at `(x, y)` settles at, given its neighbours: the
/// strongest direct source or the strongest neighbouring wire less one.
pub open spec fn spec_relax(w: Cells, x: int, y: int) -> u8 {
    max_u8(
        spec_direct_power(w, x, y),
        max4(
            wire_step_from(w, x, y, Direction::North),
            wire_step_from(w, x, y, Direction::South),
            wire_step_from(w, x, y, Direction::East),
            wire_step_from(w, x, y, Direction::West),
        ),
    )
}

/// The power recorded in a conductor: its strong power if it has any, else
/// the largest weak power around it.
pub open spec fn spec_solid_power(w: Cells, x: int, y: int) -> u8 {
    let sp = spec_strongly_powered(w, x, y);
    if sp > 0 {
        sp
    } else {
        spec_block_get_power(w, x, y)
    }
}

/// Same cells, and every cell has the same kind and packed state.
pub open spec fn same_shape(a: Cells, b: Cells) -> bool {
    &&& a.dom() == b.dom()
    &&& forall|p: (int, int)|
        #![trigger a[p]]
        #![trigger b[p]]
        a.dom().contains(p) ==> b[p].id == a[p].id && b[p].data == a[p].data
}

/// Blocks whose `power` field the wire pass does not compute.
pub open spec fn carries_signal(id: BlockId) -> bool {
    id != BlockId::RedstoneWire && !solid_like(id)
}

/// Equal except for the power of wires and conductors.
pub open spec fn same_signals(a: Cells, b: Cells) -> bool {
    &&& same_shape(a, b)
    &&& forall|p: (int, int)|
        #![trigger a[p]]
        #![trigger b[p]]
        a.dom().contains(p) && carries_signal(a[p].id) ==> b[p].power == a[p].power
}

/// Equal except for the power of conductors.
pub open spec fn same_except_solid(a: Cells, b: Cells) -> bool {
    &&& same_shape(a, b)
    &&& forall|p: (int, int)|
        #![trigger a[p]]
        #![trigger b[p]]
        a.dom().contains(p) && !solid_like(a[p].id) ==> b[p].power == a[p].power
}

/// `new` is `old` after the wire pass: only wire and conductor powers
/// differ; every wire holds the power its neighbours settle it at, and
/// every conductor records the power around it.
pub open spec fn wire_power_settled(old: Cells, new: Cells) -> bool {
    &&& same_signals(old, new)
    &&& forall|p: (int, int)|
        #![trigger new[p]]
        new.dom().contains(p) && new[p].id == BlockId::RedstoneWire ==> new[p].power == spec_relax(
            new,
            p.0,
            p.1,
        )
    &&& forall|p: (int, int)|
        #![trigger new[p]]
        new.dom().contains(p) && solid_like(new[p].id) ==> new[p].power == spec_solid_power(
            new,
            p.0,
            p.1,
        )
}

/// The world after the wire pass (unique by `lemma_wire_power_unique`).
pub open spec fn spec_calculate_wire_power(w: Cells) -> Cells {
    choose|m: Cells| wire_power_settled(w, m)
}

pub proof fn lemma_signals_strong(a: Cells, b: Cells, x: int, y: int)
    requires
        same_signals(a, b),
    ensures
        spec_strongly_powered(a, x, y) == spec_strongly_powered(b, x, y),
{
    assert(strong_in_dir(a, x, y, Direction::North) == strong_in_dir(b, x, y, Direction::North));
    assert(strong_in_dir(a, x, y, Direction::South) == strong_in_dir(b, x, y, Direction::South));
    assert(strong_in_dir(a, x, y, Direction::East) == strong_in_dir(b, x, y, Direction::East));
    assert(strong_in_dir(a, x, y, Direction::West) == strong_in_dir(b, x, y, Direction::West));
}

proof fn lemma_signals_source(a: Cells, b: Cells, x: int, y: int, d: Direction)
    requires
        same_signals(a, b),
    ensures
        source_into(a, x, y, d) == source_into(b, x, y, d),
{
    lemma_signals_strong(a, b, nx(x, d), ny(y, d));
}

/// The direct sources of a wire do not depend on wire or conductor powers.
pub proof fn lemma_signals_direct(a: Cells, b: Cells, x: int, y: int)
    requires
        same_signals(a, b),
    ensures
        spec_direct_power(a, x, y) == spec_direct_power(b, x, y),
{
    lemma_signals_source(a, b, x, y, Direction::North);
    lemma_signals_source(a, b, x, y, Direction::South);
    lemma_signals_source(a, b, x, y, Direction::East);
    lemma_signals_source(a, b, x, y, Direction::West);
}

proof fn lemma_shape_connects(a: Cells, b: Cells, x: int, y: int)
    requires
        same_shape(a, b),
    ensures
        spec_wire_powers_toward(a, x, y, Direction::North) == spec_wire_powers_toward(b, x, y, Direction::North),
        spec_wire_powers_toward(a, x, y, Direction::South) == spec_wire_powers_toward(b, x, y, Direction::South),
        spec_wire_powers_toward(a, x, y, Direction::East) == spec_wire_powers_toward(b, x, y, Direction::East),
        spec_wire_powers_toward(a, x, y, Direction::West) == spec_wire_powers_toward(b, x, y, Direction::West),
{
    assert(spec_wire_connects(a, x, y, Direction::North) == spec_wire_connects(b, x, y, Direction::North));
    assert(spec_wire_connects(a, x, y, Direction::South) == spec_wire_connects(b, x, y, Direction::South));
    assert(spec_wire_connects(a, x, y, Direction::East) == spec_wire_connects(b, x, y, Direction::East));
    assert(spec_wire_connects(a, x, y, Direction::West) == spec_wire_connects(b, x, y, Direction::West));
}

proof fn lemma_except_solid_power_from(a: Cells, b: Cells, x: int, y: int, d: Direction)
    requires
        same_except_solid(a, b),
    ensures
        power_from(a, x, y, d) == power_from(b, x, y, d),
        has_power_from(a, x, y, d) == has_power_from(b, x, y, d),
{
    lemma_shape_connects(a, b, nx(x, d), ny(y, d));
}

/// The weak power around a cell does not depend on conductor powers.
pub proof fn lemma_except_solid_get_power(a: Cells, b: Cells, x: int, y: int)
    requires
        same_except_solid(a, b),
    ensures
        spec_block_get_power(a, x, y) == spec_block_get_power(b, x, y),
        spec_solid_power(a, x, y) == spec_solid_power(b, x, y),
{
    lemma_except_solid_power_from(a, b, x, y, Direction::North);
    lemma_except_solid_power_from(a, b, x, y, Direction::South);
    lemma_except_solid_power_from(a, b, x, y, Direction::East);
    lemma_except_solid_power_from(a, b, x, y, Direction::West);
    lemma_signals_strong(a, b, x, y);
}

proof fn lemma_relax_level(
    a: Cells,
    b: Cells,
    x: int,
    y: int,
    v: int,
)
    requires
        same_signals(a, b),
        1 <= v,
        forall|p: (int, int)|
            #![trigger a[p]]
            a.dom().contains(p) && a[p].id == BlockId::RedstoneWire ==> (a[p].power >= v + 1
                <==> b[p].power >= v + 1),
    ensures
        spec_relax(a, x, y) >= v <==> spec_relax(b, x, y) >= v,
{
    reveal(spec_relax);
    lemma_signals_direct(a, b, x, y);
}

proof fn lemma_levels(w: Cells, a: Cells, b: Cells, v: int)
    requires
        wire_power_settled(w, a),
        wire_power_settled(w, b),
        1 <= v <= 256,
    ensures
        forall|p: (int, int)|
            #![trigger a[p]]
            a.dom().contains(p) && a[p].id == BlockId::RedstoneWire ==> (a[p].power >= v
                <==> b[p].power >= v),
    decreases 256 - v,
{
    assert(same_signals(a, b));
    if v < 256 {
        lemma_levels(w, a, b, v + 1);
        assert forall|p: (int, int)|
            #![trigger a[p]]
            a.dom().contains(p) && a[p].id == BlockId::RedstoneWire implies (a[p].power >= v
                <==> b[p].power >= v) by {
            lemma_relax_level(a, b, p.0, p.1, v);
        }
    }
}

/// The wire pass has a single outcome: two worlds that both settle the same
/// starting world are equal. (Power loses one level per wire, so a wire's
/// level is fixed by the levels above it.)
pub proof fn lemma_wire_power_unique(w: Cells, a: Cells, b: Cells)
    requires
        wire_power_settled(w, a),
        wire_power_settled(w, b),
    ensures
        a == b,
{
    lemma_settled_wires_equal(w, a, b);
    assert forall|p: (int, int)| #[trigger] a.dom().contains(p) implies a[p] == b[p] by {
        lemma_settled_cell_equal(w, a, b, p);
    }
    assert(a =~= b);
}

/// The wire pass leaves its own result as it is: a world that the pass has
/// settled is its own settled world.
pub proof fn lemma_wire_power_idempotent(w: Cells, f: Cells)
    requires
        wire_power_settled(w, f),
    ensures
        wire_power_settled(f, f),
        spec_calculate_wire_power(w) == f,
        spec_calculate_wire_power(f) == f,
{
    assert(wire_power_settled(f, f));
    lemma_wire_power_unique(w, spec_calculate_wire_power(w), f);
    lemma_wire_power_unique(f, spec_calculate_wire_power(f), f);
}

/// After the wire pass, a wire next to a conductor (solid block, target,
/// lamp or barrel) that is strongly powered at level `p` holds at least
/// `p`, and a wire next to a redstone block holds at least 15.
pub proof fn lemma_wire_fed_by_neighbour(w: Cells, f: Cells, x: int, y: int, d: Direction)
    requires
        wire_power_settled(w, f),
        f.dom().contains((x, y)),
        f[(x, y)].id == BlockId::RedstoneWire,
        w.dom().contains((x + spec_dx(d), y + spec_dy(d))),
    ensures
        ({
            let n = w[(x + spec_dx(d), y + spec_dy(d))];
            &&& (n.id == BlockId::SolidBlock || n.id == BlockId::Target || n.id
                == BlockId::RedstoneLamp || n.id == BlockId::Barrel) ==> f[(x, y)].power
                >= spec_strongly_powered(w, x + spec_dx(d), y + spec_dy(d))
            &&& n.id == BlockId::RedstoneBlock ==> f[(x, y)].power >= 15
        }),
{
    let cx = x + spec_dx(d);
    let cy = y + spec_dy(d);
    reveal(spec_relax);
    assert(f[(x, y)].power == spec_relax(f, x, y));
    lemma_signals_strong(w, f, cx, cy);
    assert(f.dom().contains((cx, cy)));
    assert(f[(cx, cy)].id == w[(cx, cy)].id);
    assert(spec_relax(f, x, y) >= spec_direct_power(f, x, y));
    assert(spec_direct_power(f, x, y) >= source_into(f, x, y, d));
}

proof fn lemma_settled_wires_equal(w: Cells, a: Cells, b: Cells)
    requires
        wire_power_settled(w, a),
        wire_power_settled(w, b),
    ensures
        same_except_solid(a, b),
{
    assert(same_signals(a, b));
    assert forall|p: (int, int)|
        #![trigger a[p]]
        a.dom().contains(p) && a[p].id == BlockId::RedstoneWire implies a[p].power == b[p].power by {
        if a[p].power >= 1 {
            lemma_levels(w, a, b, a[p].power as int);
        }
        if b[p].power >= 1 {
            lemma_levels(w, a, b, b[p].power as int);
        }
    }
}

proof fn lemma_settled_cell_equal(w: Cells, a: Cells, b: Cells, p: (int, int))
    requires
        wire_power_settled(w, a),
        wire_power_settled(w, b),
        same_except_solid(a, b),
        a.dom().contains(p),
    ensures
        a[p] == b[p],
{
    if solid_like(a[p].id) {
        lemma_except_solid_get_power(a, b, p.0, p.1);
    }
}

// ── The wire pass, executable ──

/// How far the wires of a block list are from full power, summed.
pub open spec fn total_slack(s: Seq<Block>) -> nat
    decreases s.len(),
{
    if s.len() == 0 {
        0
    } else {
        total_slack(s.drop_last()) + wire_slack(s.last())
    }
}

pub open spec fn wire_slack(b: Block) -> nat {
    if b.id == BlockId::RedstoneWire {
        (255 - b.power) as nat
    } else {
        0
    }
}

proof fn lemma_slack_update(s: Seq<Block>, i: int, b: Block)
    requires
        0 <= i < s.len(),
    ensures
        total_slack(s.update(i, b)) + wire_slack(s[i]) == total_slack(s) + wire_slack(b),
    decreases s.len(),
{
    let t = s.update(i, b);
    if i == s.len() - 1 {
        assert(t.drop_last() =~= s.drop_last());
    } else {
        assert(t.drop_last() =~= s.drop_last().update(i, b));
        lemma_slack_update(s.drop_last(), i, b);
    }
}

pub open spec fn is_wire(w: Cells, p: (int, int)) -> bool {
    w.dom().contains(p) && w[p].id == BlockId::RedstoneWire
}

pub open spec fn nb(p: (int, int), d: Direction) -> (int, int) {
    (nx(p.0, d), ny(p.1, d))
}

/// The cell `p` is recorded in the queue with power `v`.
pub open spec fn queued(q: Seq<(i32, i32, u8)>, p: (int, int), v: u8) -> bool {
    exists|i: int| 0 <= i < q.len() && #[trigger] q[i] == (p.0 as i32, p.1 as i32, v)
}

pub open spec fn in_i32(p: (int, int)) -> bool {
    i32::MIN <= p.0 <= i32::MAX && i32::MIN <= p.1 <= i32::MAX
}

pub open spec fn qpos(e: (i32, i32, u8)) -> (int, int) {
    (e.0 as int, e.1 as int)
}

/// A wire's neighbours hold at least its power less one.
pub open spec fn passes_on(w: Cells, p: (int, int), d: Direction) -> bool {
    is_wire(w, nb(p, d)) ==> w[nb(p, d)].power + 1 >= w[p].power
}

pub open spec fn settled_at(w: Cells, p: (int, int)) -> bool {
    passes_on(w, p, Direction::North) && passes_on(w, p, Direction::South) && passes_on(
        w,
        p,
        Direction::East,
    ) && passes_on(w, p, Direction::West)
}

/// Only wire powers differ.
pub open spec fn wires_only(w0: Cells, w: Cells) -> bool {
    &&& same_shape(w0, w)
    &&& forall|p: (int, int)|
        #![trigger w[p]]
        w.dom().contains(p) && w[p].id != BlockId::RedstoneWire ==> w[p] == w0[p]
}

/// The propagation invariant: every wire holds at least its direct power and
/// no more than its neighbours justify; a wire whose neighbours lag behind
/// is still queued; queue entries name wires and never overstate them.
pub open spec fn bfs_inv(w0: Cells, w: Cells, q: Seq<(i32, i32, u8)>) -> bool {
    &&& wires_only(w0, w)
    &&& forall|p: (int, int)|
        #![trigger w[p]]
        is_wire(w, p) ==> spec_direct_power(w, p.0, p.1) <= w[p].power && w[p].power <= spec_relax(
            w,
            p.0,
            p.1,
        )
    &&& forall|p: (int, int)|
        #![trigger w[p]]
        is_wire(w, p) && w[p].power > 1 ==> settled_at(w, p) || queued(q, p, w[p].power)
    &&& forall|i: int|
        0 <= i < q.len() ==> is_wire(w, qpos(#[trigger] q[i])) && q[i].2 <= w[qpos(q[i])].power
}

/// `w2`, `q2` come from `w`, `q` by raising to `np` each wire next to `p`
/// that is below `np`, queueing each raised wire.
pub open spec fn relaxed(
    w: Cells,
    q: Seq<(i32, i32, u8)>,
    w2: Cells,
    q2: Seq<(i32, i32, u8)>,
    p: (int, int),
    np: u8,
) -> bool {
    &&& wires_only(w, w2)
    &&& q2.len() >= q.len()
    &&& q2.subrange(0, q.len() as int) == q
    &&& forall|c: (int, int)|
        #![trigger w2[c]]
        w2.dom().contains(c) && w2[c] != w[c] ==> is_wire(w, c) && w[c].power < np && w2[c].power
            == np && (c == nb(p, Direction::North) || c == nb(p, Direction::South) || c == nb(
            p,
            Direction::East,
        ) || c == nb(p, Direction::West))
    &&& forall|i: int|
        q.len() <= i < q2.len() ==> is_wire(w2, qpos(#[trigger] q2[i])) && q2[i].2 == np
            && w2[qpos(q2[i])].power == np
    &&& forall|c: (int, int)|
        #![trigger w2[c]]
        w2.dom().contains(c) && w2[c] != w[c] ==> queued(q2, c, np)
}

pub open spec fn reaches(w: Cells, p: (int, int), np: u8, d: Direction) -> bool {
    is_wire(w, nb(p, d)) ==> w[nb(p, d)].power >= np
}

fn direct_power(world: &World, x: i32, y: i32) -> (r: u8)
    requires
        world.wf(),
    ensures
        r == spec_direct_power(world@, x as int, y as int),
{
    let a = source_from(world, x, y, Direction::North);
    let b = source_from(world, x, y, Direction::South);
    let c = source_from(world, x, y, Direction::East);
    let d = source_from(world, x, y, Direction::West);
    let m1 = if a >= b {
        a
    } else {
        b
    };
    let m2 = if m1 >= c {
        m1
    } else {
        c
    };
    if m2 >= d {
        m2
    } else {
        d
    }
}

fn source_from(world: &World, x: i32, y: i32, d: Direction) -> (r: u8)
    requires
        world.wf(),
    ensures
        r == source_into(world@, x as int, y as int, d),
{
    let Some((nbx, nby)) = neighbor_pos(x, y, d) else {
        proof {
            world.lemma_out_of_range(nx(x as int, d), ny(y as int, d));
        }
        return 0;
    };
    let Some(n) = block_at_pos(world, nbx, nby) else {
        return 0;
    };
    let emitted: u8 = match get_emitted_power(&n) {
        Some(p) => if emits_toward(&n, d.opposite()) {
            p
        } else {
            0
        },
        None => 0,
    };
    let strong: u8 = if n.id == BlockId::SolidBlock || n.id == BlockId::Target || n.id
        == BlockId::RedstoneLamp || n.id == BlockId::Barrel {
        block_is_strongly_powered(world, nbx, nby)
    } else {
        0
    };
    if emitted >= strong {
        emitted
    } else {
        strong
    }
}

/// Raises the wire next to `(x, y)` in direction `d` to `np` if it is lower,
/// and queues it.
fn relax_neighbor(
    world: &mut World,
    queue: &mut std::collections::VecDeque<(i32, i32, u8)>,
    x: i32,
    y: i32,
    d: Direction,
    np: u8,
)
    requires
        old(world).wf(),
    ensures
        final(world).wf(),
        final(world).keys@ == old(world).keys@,
        ({
            let w = old(world)@;
            let c = nb((x as int, y as int), d);
            if is_wire(w, c) && w[c].power < np {
                &&& final(world)@ == w.insert(
                    c,
                    Block { id: w[c].id, power: np, data: w[c].data },
                )
                &&& final(queue)@ == old(queue)@.push((c.0 as i32, c.1 as i32, np))
                &&& total_slack(final(world).cells@) < total_slack(old(world).cells@)
            } else {
                &&& final(world)@ == w
                &&& final(queue)@ == old(queue)@
                &&& final(world).cells@ == old(world).cells@
            }
        }),
{
    let Some((nbx, nby)) = neighbor_pos(x, y, d) else {
        proof {
            world.lemma_out_of_range(nx(x as int, d), ny(y as int, d));
        }
        return;
    };
    let Some((k, j)) = world.locate(nbx, nby) else {
        return;
    };
    let b = world.block_at(k, j);
    if b.id == BlockId::RedstoneWire && np > b.power {
        let ghost cells0 = world.cells@;
        let nb_block = Block { id: b.id, power: np, data: b.data };
        proof {
            lemma_slack_update(cells0, k * 256 + j, nb_block);
        }
        world.set_at(k, j, nb_block);
        queue.push_back((nbx, nby, np));
    }
}

proof fn lemma_relax_step(
    w: Cells,
    q: Seq<(i32, i32, u8)>,
    w1: Cells,
    q1: Seq<(i32, i32, u8)>,
    w2: Cells,
    q2: Seq<(i32, i32, u8)>,
    p: (int, int),
    np: u8,
    d: Direction,
)
    requires
        relaxed(w, q, w1, q1, p, np),
        is_wire(w1, nb(p, d)) ==> in_i32(nb(p, d)),
        ({
            let c = nb(p, d);
            if is_wire(w1, c) && w1[c].power < np {
                &&& w2 == w1.insert(c, Block { id: w1[c].id, power: np, data: w1[c].data })
                &&& q2 == q1.push((c.0 as i32, c.1 as i32, np))
            } else {
                &&& w2 == w1
                &&& q2 == q1
            }
        }),
    ensures
        relaxed(w, q, w2, q2, p, np),
        reaches(w2, p, np, d),
        forall|e: Direction| reaches(w1, p, np, e) ==> reaches(w2, p, np, e),
{
    let c = nb(p, d);
    if is_wire(w1, c) && w1[c].power < np {
        assert(q2.subrange(0, q.len() as int) =~= q1.subrange(0, q.len() as int));
        assert forall|i: int| q.len() <= i < q2.len() implies is_wire(w2, qpos(#[trigger] q2[i]))
            && q2[i].2 == np && w2[qpos(q2[i])].power == np by {
            if i < q1.len() {
                assert(q2[i] == q1[i]);
            }
        }
        assert forall|cc: (int, int)| #![trigger w2[cc]] w2.dom().contains(cc) && w2[cc] != w[cc] implies queued(q2, cc, np) by {
            if cc == c {
                assert(q2[q1.len() as int] == (c.0 as i32, c.1 as i32, np));
            } else {
                let i = choose|i: int| 0 <= i < q1.len() && #[trigger] q1[i] == (cc.0 as i32, cc.1 as i32, np);
                assert(q2[i] == q1[i]);
            }
        }
        assert forall|cc: (int, int)| #![trigger w2[cc]] w2.dom().contains(cc) && w2[cc] != w[cc] implies is_wire(w, cc) && w[cc].power < np && w2[cc].power
            == np && (cc == nb(p, Direction::North) || cc == nb(p, Direction::South) || cc == nb(
            p,
            Direction::East,
        ) || cc == nb(p, Direction::West)) by {
            if cc == c {
                if w1[cc] != w[cc] {
                    assert(w1[cc].power == np);
                }
                match d {
                    Direction::North => {},
                    Direction::South => {},
                    Direction::East => {},
                    Direction::West => {},
                }
            } else {
                assert(w2[cc] == w1[cc]);
            }
        }
        assert(wires_only(w, w2)) by {
            assert(w2.dom() =~= w.dom());
        }
    }
}

/// Raises every wire next to `(x, y)` that is below `np` to `np`, queueing
/// each one.
fn relax_all(
    world: &mut World,
    queue: &mut std::collections::VecDeque<(i32, i32, u8)>,
    x: i32,
    y: i32,
    np: u8,
)
    requires
        old(world).wf(),
    ensures
        final(world).wf(),
        final(world).keys@ == old(world).keys@,
        relaxed(old(world)@, old(queue)@, final(world)@, final(queue)@, (x as int, y as int), np),
        reaches(final(world)@, (x as int, y as int), np, Direction::North),
        reaches(final(world)@, (x as int, y as int), np, Direction::South),
        reaches(final(world)@, (x as int, y as int), np, Direction::East),
        reaches(final(world)@, (x as int, y as int), np, Direction::West),
        total_slack(final(world).cells@) + final(queue)@.len() <= total_slack(old(world).cells@)
            + old(queue)@.len(),
{
    let ghost p = (x as int, y as int);
    let ghost w0 = world@;
    let ghost q0 = queue@;
    proof {
        assert(q0.subrange(0, q0.len() as int) =~= q0);
        assert(w0.dom() =~= w0.dom());
        assert(relaxed(w0, q0, w0, q0, p, np));
    }
    let ghost w1 = world@;
    let ghost q1 = queue@;
    proof {
        if is_wire(world@, nb(p, Direction::North)) {
            world.lemma_in_dom(nb(p, Direction::North));
        }
    }
    relax_neighbor(world, queue, x, y, Direction::North, np);
    proof {
        lemma_relax_step(w0, q0, w1, q1, world@, queue@, p, np, Direction::North);
    }
    let ghost w1 = world@;
    let ghost q1 = queue@;
    proof {
        if is_wire(world@, nb(p, Direction::South)) {
            world.lemma_in_dom(nb(p, Direction::South));
        }
    }
    relax_neighbor(world, queue, x, y, Direction::South, np);
    proof {
        lemma_relax_step(w0, q0, w1, q1, world@, queue@, p, np, Direction::South);
    }
    let ghost w1 = world@;
    let ghost q1 = queue@;
    proof {
        if is_wire(world@, nb(p, Direction::East)) {
            world.lemma_in_dom(nb(p, Direction::East));
        }
    }
    relax_neighbor(world, queue, x, y, Direction::East, np);
    proof {
        lemma_relax_step(w0, q0, w1, q1, world@, queue@, p, np, Direction::East);
    }
    let ghost w1 = world@;
    let ghost q1 = queue@;
    proof {
        if is_wire(world@, nb(p, Direction::West)) {
            world.lemma_in_dom(nb(p, Direction::West));
        }
    }
    relax_neighbor(world, queue, x, y, Direction::West, np);
    proof {
        lemma_relax_step(w0, q0, w1, q1, world@, queue@, p, np, Direction::West);
    }
}

pub open spec fn dom_in_i32(w: Cells) -> bool {
    forall|c: (int, int)| #[trigger] w.dom().contains(c) ==> in_i32(c)
}

/// Wire powers only grow.
pub open spec fn wires_grow(w: Cells, w2: Cells) -> bool {
    &&& wires_only(w, w2)
    &&& forall|c: (int, int)|
        #![trigger w2[c]]
        is_wire(w, c) ==> w2[c].power >= w[c].power
}

proof fn lemma_wires_only_signals(a: Cells, b: Cells)
    requires
        wires_only(a, b),
    ensures
        same_signals(a, b),
{
}

proof fn lemma_wires_only_trans(a: Cells, b: Cells, c: Cells)
    requires
        wires_only(a, b),
        wires_only(b, c),
    ensures
        wires_only(a, c),
{
    assert(a.dom() =~= c.dom());
}

proof fn lemma_relax_mono(w: Cells, w2: Cells, c: (int, int))
    requires
        wires_grow(w, w2),
    ensures
        spec_relax(w, c.0, c.1) <= spec_relax(w2, c.0, c.1),
        spec_direct_power(w, c.0, c.1) == spec_direct_power(w2, c.0, c.1),
{
    reveal(spec_relax);
    lemma_wires_only_signals(w, w2);
    lemma_signals_direct(w, w2, c.0, c.1);
    assert(is_wire(w, nb(c, Direction::North)) ==> w2[nb(c, Direction::North)].power >= w[nb(c, Direction::North)].power);
    assert(is_wire(w, nb(c, Direction::South)) ==> w2[nb(c, Direction::South)].power >= w[nb(c, Direction::South)].power);
    assert(is_wire(w, nb(c, Direction::East)) ==> w2[nb(c, Direction::East)].power >= w[nb(c, Direction::East)].power);
    assert(is_wire(w, nb(c, Direction::West)) ==> w2[nb(c, Direction::West)].power >= w[nb(c, Direction::West)].power);
}

/// A wire raised from its neighbour `p` is justified by `p`.
proof fn lemma_relax_from_neighbor(w2: Cells, p: (int, int), d: Direction, c: (int, int), v: u8)
    requires
        c == nb(p, d),
        is_wire(w2, p),
        w2[p].power >= v,
        v > 1,
    ensures
        spec_relax(w2, c.0, c.1) >= v - 1,
{
    reveal(spec_relax);
    let e = spec_opposite(d);
    assert(nb(c, e) == p) by {
        match d {
            Direction::North => {},
            Direction::South => {},
            Direction::East => {},
            Direction::West => {},
        }
    }
    assert(wire_step_from(w2, c.0, c.1, e) >= v - 1);
    match e {
        Direction::North => {},
        Direction::South => {},
        Direction::East => {},
        Direction::West => {},
    }
}

proof fn lemma_bfs_step(
    w0: Cells,
    w: Cells,
    q: Seq<(i32, i32, u8)>,
    w2: Cells,
    q2: Seq<(i32, i32, u8)>,
    p: (int, int),
    pv: u8,
)
    requires
        bfs_inv(w0, w, q),
        dom_in_i32(w),
        q.len() > 0,
        qpos(q[0]) == p,
        q[0].2 == pv,
        pv > 1 ==> {
            &&& relaxed(w, q.subrange(1, q.len() as int), w2, q2, p, (pv - 1) as u8)
            &&& reaches(w2, p, (pv - 1) as u8, Direction::North)
            &&& reaches(w2, p, (pv - 1) as u8, Direction::South)
            &&& reaches(w2, p, (pv - 1) as u8, Direction::East)
            &&& reaches(w2, p, (pv - 1) as u8, Direction::West)
        },
        pv <= 1 ==> w2 == w && q2 == q.subrange(1, q.len() as int),
    ensures
        bfs_inv(w0, w2, q2),
{
    let qr = q.subrange(1, q.len() as int);
    let np = (pv - 1) as u8;
    assert(is_wire(w, p) && pv <= w[p].power) by {
        assert(is_wire(w, qpos(q[0])));
    }
    if pv <= 1 {
        assert(relaxed(w, qr, w2, q2, p, 0)) by {
            assert(q2.subrange(0, qr.len() as int) =~= qr);
            assert(w.dom() =~= w2.dom());
        }
    }
    let npp: u8 = if pv > 1 { np } else { 0 };
    assert(relaxed(w, qr, w2, q2, p, npp));
    assert(wires_grow(w, w2)) by {
        assert forall|c: (int, int)| #![trigger w2[c]] is_wire(w, c) implies w2[c].power >= w[c].power by {
            if w2[c] != w[c] {
            }
        }
    }
    lemma_wires_only_trans(w0, w, w2);
    assert(w2[p] == w[p]) by {
        if w2[p] != w[p] {
            match Direction::North {
                _ => {},
            }
            assert(p != nb(p, Direction::North));
            assert(p != nb(p, Direction::South));
            assert(p != nb(p, Direction::East));
            assert(p != nb(p, Direction::West));
        }
    }
    // Every wire is between its direct power and what its neighbours justify.
    assert forall|c: (int, int)| #![trigger w2[c]] is_wire(w2, c) implies spec_direct_power(w2, c.0, c.1) <= w2[c].power && w2[c].power <= spec_relax(w2, c.0, c.1) by {
        assert(is_wire(w, c));
        lemma_relax_mono(w, w2, c);
        if w2[c] != w[c] {
            if c == nb(p, Direction::North) {
                lemma_relax_from_neighbor(w2, p, Direction::North, c, pv);
            } else if c == nb(p, Direction::South) {
                lemma_relax_from_neighbor(w2, p, Direction::South, c, pv);
            } else if c == nb(p, Direction::East) {
                lemma_relax_from_neighbor(w2, p, Direction::East, c, pv);
            } else {
                lemma_relax_from_neighbor(w2, p, Direction::West, c, pv);
            }
        }
    }
    // A wire ahead of a neighbour is still queued.
    assert forall|c: (int, int)| #![trigger w2[c]] is_wire(w2, c) && w2[c].power > 1 implies settled_at(w2, c) || queued(q2, c, w2[c].power) by {
        assert(is_wire(w, c));
        if w2[c] != w[c] {
        } else if c == p && pv == w[p].power {
        } else {
            if queued(q, c, w[c].power) {
                let i = choose|i: int| 0 <= i < q.len() && #[trigger] q[i] == (c.0 as i32, c.1 as i32, w[c].power);
                if i == 0 {
                    assert(in_i32(c));
                    assert(in_i32(p));
                    assert(false);
                }
                assert(qr[i - 1] == q[i]);
                assert(q2[i - 1] == qr[i - 1]) by {
                    assert(q2.subrange(0, qr.len() as int)[i - 1] == q2[i - 1]);
                }
            } else {
                assert(settled_at(w, c));
                assert(passes_on(w2, c, Direction::North));
                assert(passes_on(w2, c, Direction::South));
                assert(passes_on(w2, c, Direction::East));
                assert(passes_on(w2, c, Direction::West));
            }
        }
    }
    // Queue entries name wires and do not overstate them.
    assert forall|i: int| 0 <= i < q2.len() implies is_wire(w2, qpos(#[trigger] q2[i])) && q2[i].2 <= w2[qpos(q2[i])].power by {
        if i < qr.len() {
            assert(q2[i] == qr[i]) by {
                assert(q2.subrange(0, qr.len() as int)[i] == q2[i]);
            }
            assert(qr[i] == q[i + 1]);
            assert(is_wire(w, qpos(q[i + 1])));
        }
    }
}

proof fn lemma_bfs_done(w0: Cells, w: Cells)
    requires
        bfs_inv(w0, w, Seq::empty()),
    ensures
        forall|c: (int, int)|
            #![trigger w[c]]
            is_wire(w, c) ==> w[c].power == spec_relax(w, c.0, c.1),
{
    assert forall|c: (int, int)| #![trigger w[c]] is_wire(w, c) implies w[c].power == spec_relax(w, c.0, c.1) by {
        reveal(spec_relax);
        lemma_step_le(w0, w, c, Direction::North);
        lemma_step_le(w0, w, c, Direction::South);
        lemma_step_le(w0, w, c, Direction::East);
        lemma_step_le(w0, w, c, Direction::West);
    }
}

#[verifier::spinoff_prover]
proof fn lemma_step_le(w0: Cells, w: Cells, c: (int, int), d: Direction)
    requires
        bfs_inv(w0, w, Seq::empty()),
        is_wire(w, c),
    ensures
        wire_step_from(w, c.0, c.1, d) <= w[c].power,
{
    let n = nb(c, d);
    if is_wire(w, n) && w[n].power > 1 {
        let e = spec_opposite(d);
        assert(nb(n, e) == c) by {
            match d {
                Direction::North => {},
                Direction::South => {},
                Direction::East => {},
                Direction::West => {},
            }
        }
        assert(!queued(Seq::<(i32, i32, u8)>::empty(), n, w[n].power));
        assert(settled_at(w, n));
        assert(passes_on(w, n, e)) by {
            match e {
                Direction::North => {},
                Direction::South => {},
                Direction::East => {},
                Direction::West => {},
            }
        }
    }
}

proof fn lemma_except_solid_relax(a: Cells, b: Cells, c: (int, int))
    requires
        same_except_solid(a, b),
    ensures
        spec_relax(a, c.0, c.1) == spec_relax(b, c.0, c.1),
{
    reveal(spec_relax);
    lemma_signals_direct(a, b, c.0, c.1);
}

fn solid_power(world: &World, x: i32, y: i32) -> (r: u8)
    requires
        world.wf(),
    ensures
        r == spec_solid_power(world@, x as int, y as int),
{
    let sp = block_is_strongly_powered(world, x, y);
    if sp > 0 {
        sp
    } else {
        block_get_power(world, x, y)
    }
}

/// Sets every wire to the power of its strongest direct source and queues
/// every wire that got some power.
fn seed_wires(world: &mut World, queue: &mut std::collections::VecDeque<(i32, i32, u8)>)
    requires
        old(world).wf(),
        old(queue)@.len() == 0,
    ensures
        final(world).wf(),
        final(world).keys@ == old(world).keys@,
        bfs_inv(old(world)@, final(world)@, final(queue)@),
{
    let ghost w0 = world@;
    let n = world.cells.len();
    let mut i: usize = 0;
    while i < n
        invariant
            i <= n,
            world.wf(),
            world.keys@ == old(world).keys@,
            world.cells.len() == n,
            old(world).wf(),
            w0 == old(world)@,
            wires_only(w0, world@),
            forall|c: (int, int)|
                #![trigger world@[c]]
                is_wire(world@, c) && old(world).flat_of(c) < i ==> world@[c].power
                    == spec_direct_power(w0, c.0, c.1) && (world@[c].power > 0 ==> queued(
                    queue@,
                    c,
                    world@[c].power,
                )),
            forall|c: (int, int)|
                #![trigger world@[c]]
                world@.dom().contains(c) && old(world).flat_of(c) >= i ==> world@[c] == w0[c],
            forall|m: int|
                0 <= m < queue@.len() ==> is_wire(world@, qpos(#[trigger] queue@[m])) && queue@[m].2
                    <= world@[qpos(queue@[m])].power && old(world).flat_of(qpos(queue@[m])) < i,
        decreases n - i,
    {
        let k = i / 256;
        let j = i % 256;
        proof {
            old(world).lemma_flat(i as int);
        }
        let b = world.block_at(k, j);
        if b.id == BlockId::RedstoneWire {
            let (x, y) = world.pos_at(k, j);
            let d = direct_power(world, x, y);
            let ghost wb = world@;
            let ghost qb = queue@;
            proof {
                lemma_wires_only_signals(w0, wb);
                lemma_signals_direct(w0, wb, x as int, y as int);
            }
            world.set_at(k, j, Block { id: b.id, power: d, data: b.data });
            if d > 0 {
                queue.push_back((x, y, d));
            }
            proof {
                let pc = (x as int, y as int);
                assert(wires_only(w0, world@)) by {
                    assert(world@.dom() =~= w0.dom());
                }
                assert forall|c: (int, int)|
                    #![trigger world@[c]]
                    is_wire(world@, c) && old(world).flat_of(c) < i + 1 implies world@[c].power
                        == spec_direct_power(w0, c.0, c.1) && (world@[c].power > 0 ==> queued(
                        queue@,
                        c,
                        world@[c].power,
                    )) by {
                    if c == pc {
                        if d > 0 {
                            assert(queue@[queue@.len() - 1] == (x, y, d));
                        }
                    } else {
                        old(world).lemma_flat_range(c);
                        if world@[c].power > 0 {
                            let m = choose|m: int| 0 <= m < qb.len() && #[trigger] qb[m] == (c.0 as i32, c.1 as i32, world@[c].power);
                            assert(queue@[m] == qb[m]);
                        }
                    }
                }
                assert forall|c: (int, int)|
                    #![trigger world@[c]]
                    world@.dom().contains(c) && old(world).flat_of(c) >= i + 1 implies world@[c] == w0[c] by {
                    if c == pc {
                    }
                }
                assert forall|m: int|
                    0 <= m < queue@.len() implies is_wire(world@, qpos(#[trigger] queue@[m])) && queue@[m].2
                        <= world@[qpos(queue@[m])].power && old(world).flat_of(qpos(queue@[m])) < i + 1 by {
                    if m < qb.len() {
                        assert(queue@[m] == qb[m]);
                        assert(qpos(qb[m]) != pc);
                    }
                }
            }
        }
        i = i + 1;
    }
    proof {
        assert forall|c: (int, int)| #![trigger world@[c]] is_wire(world@, c) implies spec_direct_power(world@, c.0, c.1) <= world@[c].power && world@[c].power <= spec_relax(world@, c.0, c.1) by {
            reveal(spec_relax);
            old(world).lemma_flat_range(c);
            lemma_wires_only_signals(w0, world@);
            lemma_signals_direct(w0, world@, c.0, c.1);
        }
        assert forall|c: (int, int)| #![trigger world@[c]] is_wire(world@, c) && world@[c].power > 1 implies settled_at(world@, c) || queued(queue@, c, world@[c].power) by {
            old(world).lemma_flat_range(c);
        }
    }
}

/// Passes power along the wires until no wire is behind its neighbours.
fn propagate(world: &mut World, queue: &mut std::collections::VecDeque<(i32, i32, u8)>, Ghost(w0): Ghost<Cells>)
    requires
        old(world).wf(),
        bfs_inv(w0, old(world)@, old(queue)@),
    ensures
        final(world).wf(),
        final(world).keys@ == old(world).keys@,
        bfs_inv(w0, final(world)@, Seq::empty()),
{
    proof {
        world.lemma_dom_in_i32();
    }
    loop
        invariant
            world.wf(),
            world.keys@ == old(world).keys@,
            bfs_inv(w0, world@, queue@),
            dom_in_i32(world@),
        ensures
            world.wf(),
            world.keys@ == old(world).keys@,
            bfs_inv(w0, world@, queue@),
            queue@.len() == 0,
        decreases queue@.len() + total_slack(world.cells@),
    {
        let ghost wq = world@;
        let ghost qq = queue@;
        match queue.pop_front() {
            None => {
                break;
            },
            Some((x, y, p)) => {
                if p > 1 {
                    relax_all(world, queue, x, y, p - 1);
                }
                proof {
                    lemma_bfs_step(w0, wq, qq, world@, queue@, (x as int, y as int), p);
                    world.lemma_dom_in_i32();
                }
            },
        }
    }
    proof {
        assert(queue@ =~= Seq::<(i32, i32, u8)>::empty());
    }
}

/// Records in every conductor the power around it.
fn record_conductor_power(world: &mut World)
    requires
        old(world).wf(),
    ensures
        final(world).wf(),
        final(world).keys@ == old(world).keys@,
        same_except_solid(old(world)@, final(world)@),
        forall|c: (int, int)|
            #![trigger final(world)@[c]]
            final(world)@.dom().contains(c) && solid_like(final(world)@[c].id) ==> final(world)@[c].power
                == spec_solid_power(final(world)@, c.0, c.1),
{
    let ghost w2 = world@;
    let n = world.cells.len();
    let mut i: usize = 0;
    while i < n
        invariant
            i <= n,
            world.wf(),
            world.keys@ == old(world).keys@,
            world.cells.len() == n,
            old(world).wf(),
            w2 == old(world)@,
            same_except_solid(w2, world@),
            forall|c: (int, int)|
                #![trigger world@[c]]
                world@.dom().contains(c) && solid_like(w2[c].id) && old(world).flat_of(c) < i
                    ==> world@[c].power == spec_solid_power(w2, c.0, c.1),
            forall|c: (int, int)|
                #![trigger world@[c]]
                world@.dom().contains(c) && !(solid_like(w2[c].id) && old(world).flat_of(c) < i)
                    ==> world@[c] == w2[c],
        decreases n - i,
    {
        let k = i / 256;
        let j = i % 256;
        proof {
            old(world).lemma_flat(i as int);
        }
        let b = world.block_at(k, j);
        if b.id == BlockId::SolidBlock || b.id == BlockId::Target || b.id == BlockId::RedstoneLamp
            || b.id == BlockId::Barrel {
            let (x, y) = world.pos_at(k, j);
            proof {
                lemma_except_solid_get_power(w2, world@, x as int, y as int);
            }
            let pw = solid_power(world, x, y);
            let ghost wb = world@;
            world.set_at(k, j, Block { id: b.id, power: pw, data: b.data });
            proof {
                let pc = (x as int, y as int);
                assert(world@.dom() =~= wb.dom());
                assert(same_except_solid(w2, world@));
                assert forall|c: (int, int)|
                    #![trigger world@[c]]
                    world@.dom().contains(c) && solid_like(w2[c].id) && old(world).flat_of(c) < i + 1
                        implies world@[c].power == spec_solid_power(w2, c.0, c.1) by {
                    if c != pc {
                        old(world).lemma_flat_range(c);
                        assert(world@[c] == wb[c]);
                    }
                }
                assert forall|c: (int, int)|
                    #![trigger world@[c]]
                    world@.dom().contains(c) && !(solid_like(w2[c].id) && old(world).flat_of(c) < i + 1)
                        implies world@[c] == w2[c] by {
                    if c != pc {
                        assert(world@[c] == wb[c]);
                    }
                }
            }
        }
        i = i + 1;
    }
    proof {
        let f = world@;
        assert forall|c: (int, int)|
            #![trigger f[c]]
            f.dom().contains(c) && solid_like(f[c].id) implies f[c].power == spec_solid_power(f, c.0, c.1) by {
            old(world).lemma_flat_range(c);
            lemma_except_solid_get_power(w2, f, c.0, c.1);
        }
    }
}

/// Recomputes the power of every wire and conductor: wires are fed by the
/// sources next to them and pass their power on, one level weaker per step;
/// conductors then record the power around them.
pub fn calculate_wire_power(world: &mut World)
    requires
        old(world).wf(),
    ensures
        final(world).wf(),
        final(world).keys@ == old(world).keys@,
        wire_power_settled(old(world)@, final(world)@),
        final(world)@ == spec_calculate_wire_power(old(world)@),
{
    let ghost w0 = world@;
    let mut queue: std::collections::VecDeque<(i32, i32, u8)> = std::collections::VecDeque::new();
    seed_wires(world, &mut queue);
    propagate(world, &mut queue, Ghost(w0));
    let ghost w2 = world@;
    proof {
        lemma_bfs_done(w0, w2);
    }
    record_conductor_power(world);
    proof {
        let f = world@;
        assert(same_signals(w0, f));
        assert forall|c: (int, int)|
            #![trigger f[c]]
            f.dom().contains(c) && f[c].id == BlockId::RedstoneWire implies f[c].power == spec_relax(f, c.0, c.1) by {
            lemma_except_solid_relax(w2, f, c);
        }
        assert(wire_power_settled(w0, f));
        lemma_wire_power_unique(w0, f, spec_calculate_wire_power(w0));
    }
}

} // verus!
