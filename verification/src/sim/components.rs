use vstd::prelude::*;

use crate::block::{
    bit, decode_button_counter, decode_button_powered, decode_comparator_dir,
    decode_comparator_mode, decode_comparator_powered, decode_lamp_lit, decode_lever_dir,
    decode_repeater_counter, decode_repeater_delay, decode_repeater_dir, decode_repeater_powered,
    decode_torch_dir, decode_torch_lit, decode_torch_on_wall, encode_button, encode_comparator,
    encode_lamp, encode_repeater, encode_torch, lemma_direction_laws, spec_button_counter,
    spec_button_powered, spec_comparator_mode, spec_comparator_powered, spec_decode_dir,
    spec_encode_button, spec_encode_comparator, spec_encode_repeater, spec_encode_torch,
    spec_from_delta, spec_lamp_lit, spec_opposite, spec_repeater_counter, spec_repeater_delay,
    spec_repeater_powered, spec_rotate_ccw, spec_rotate_cw, spec_torch_dir, spec_torch_lit,
    spec_torch_on_wall, Block, BlockId, ComparatorMode, Direction, lemma_comparator_roundtrip,
    lemma_lamp_barrel_roundtrip, spec_dx, spec_dy, lemma_button_roundtrip, lemma_torch_roundtrip,
    lemma_repeater_roundtrip,
};
use crate::sim::power::{
    at, comparator_side_power, get_input_power_toward, is_block_powered, max_u8, neighbor_pos,
    block_at_pos, nx, ny, spec_comparator_side_power, spec_get_input_power_toward,
    spec_is_block_powered, spec_torch_is_blocked, torch_is_blocked, Cells,
    lemma_redstone_block_powers,
};
use crate::world::World;

verus! {

/// The direction pointing from `(nx, ny)` toward `(tx, ty)` (north if they
/// are not neighbours).
pub open spec fn spec_dir_from_neighbor(tx: int, ty: int, nbx: int, nby: int) -> Direction {
    match spec_from_delta(tx - nbx, ty - nby) {
        Some(d) => d,
        None => Direction::North,
    }
}

/// Whether the neighbour on side `s` of `(x, y)` is a powered repeater or
/// comparator pointing at `(x, y)`.
pub open spec fn locked_by(w: Cells, x: int, y: int, s: Direction) -> bool {
    match at(w, nx(x, s), ny(y, s)) {
        None => false,
        Some(n) => {
            let to_us = spec_opposite(s);
            (n.id == BlockId::Repeater && spec_repeater_powered(n.data) && spec_decode_dir(n.data)
                == to_us) || (n.id == BlockId::Comparator && spec_comparator_powered(n.data)
                && spec_decode_dir(n.data) == to_us)
        },
    }
}

/// A repeater facing `dir` is locked by a powered repeater or comparator
/// pointing into either of its sides.
pub open spec fn spec_check_repeater_locked(w: Cells, x: int, y: int, dir: Direction) -> bool {
    locked_by(w, x, y, spec_rotate_ccw(dir)) || locked_by(w, x, y, spec_rotate_cw(dir))
}

/// The powered flag and countdown of a repeater after one tick.
pub open spec fn repeater_next_state(w: Cells, x: int, y: int, data: u16) -> (bool, int) {
    let dir = spec_decode_dir(data);
    let delay = spec_repeater_delay(data);
    let was_powered = spec_repeater_powered(data);
    let counter = spec_repeater_counter(data);
    if spec_check_repeater_locked(w, x, y, dir) {
        (was_powered, counter)
    } else {
        let back = spec_opposite(dir);
        let should_be_powered = spec_get_input_power_toward(
            w,
            nx(x, back),
            ny(y, back),
            dir,
            false,
        ) > 0;
        if counter > 0 {
            if counter > 1 {
                (was_powered, counter - 1)
            } else {
                (!was_powered, 0)
            }
        } else if should_be_powered != was_powered {
            if delay == 0 {
                (should_be_powered, 0)
            } else {
                (was_powered, delay + 1)
            }
        } else {
            (was_powered, 0)
        }
    }
}

/// The packed data of a repeater after one tick: a counting repeater counts
/// down and flips when it reaches one; an idle repeater whose input
/// disagrees with its output flips at once (delay 0) or starts counting
/// from its delay plus one; a locked repeater keeps its state.
pub open spec fn spec_repeater_next(w: Cells, x: int, y: int, data: u16) -> u16 {
    let st = repeater_next_state(w, x, y, data);
    spec_encode_repeater(
        spec_decode_dir(data),
        spec_repeater_delay(data),
        spec_check_repeater_locked(w, x, y, spec_decode_dir(data)),
        st.0,
        st.1,
    ) as u16
}

/// The output power of a comparator at `(x, y)`.
pub open spec fn spec_comparator_output(w: Cells, x: int, y: int, data: u16) -> u8 {
    let dir = spec_decode_dir(data);
    let back = spec_opposite(dir);
    let input = spec_get_input_power_toward(w, nx(x, back), ny(y, back), dir, true);
    let l = spec_rotate_ccw(dir);
    let r = spec_rotate_cw(dir);
    let side = max_u8(
        spec_comparator_side_power(w, nx(x, l), ny(y, l), l),
        spec_comparator_side_power(w, nx(x, r), ny(y, r), r),
    );
    match spec_comparator_mode(data) {
        ComparatorMode::Compare => if input >= side {
            input
        } else {
            0u8
        },
        ComparatorMode::Subtract => if input > side {
            (input - side) as u8
        } else {
            0u8
        },
    }
}

/// A block of the second phase after one tick, read against `w`.
pub open spec fn spec_phase2_block(w: Cells, x: int, y: int, b: Block) -> Block {
    match b.id {
        BlockId::RedstoneTorch => {
            let should_be_lit = !spec_torch_is_blocked(w, x, y);
            if spec_torch_lit(b.data) != should_be_lit {
                Block {
                    data: spec_encode_torch(
                        should_be_lit,
                        spec_torch_on_wall(b.data),
                        spec_torch_dir(b.data),
                    ) as u16,
                    ..b
                }
            } else {
                b
            }
        },
        BlockId::Comparator => {
            let out = spec_comparator_output(w, x, y, b.data);
            let should_be_powered = out > 0;
            Block {
                power: out,
                data: if should_be_powered != spec_comparator_powered(b.data) {
                    spec_encode_comparator(
                        spec_decode_dir(b.data),
                        spec_comparator_mode(b.data),
                        should_be_powered,
                    ) as u16
                } else {
                    b.data
                },
                ..b
            }
        },
        BlockId::Button => {
            let counter = spec_button_counter(b.data);
            if spec_button_powered(b.data) && counter > 0 {
                Block {
                    data: spec_encode_button(
                        spec_decode_dir(b.data),
                        counter > 1,
                        if counter > 1 {
                            counter - 1
                        } else {
                            0
                        },
                    ) as u16,
                    ..b
                }
            } else {
                b
            }
        },
        BlockId::RedstoneLamp => {
            let should_be_lit = spec_is_block_powered(w, x, y);
            if spec_lamp_lit(b.data) != should_be_lit {
                Block { data: bit(should_be_lit) as u16, ..b }
            } else {
                b
            }
        },
        _ => b,
    }
}

/// Whether the second phase records a write for the block at `(x, y)`:
/// every comparator, and every other block whose state changes.
pub open spec fn phase2_writes(w: Cells, x: int, y: int, b: Block) -> bool {
    match b.id {
        BlockId::Comparator => true,
        BlockId::RedstoneTorch | BlockId::Button | BlockId::RedstoneLamp => spec_phase2_block(
            w,
            x,
            y,
            b,
        ) != b,
        _ => false,
    }
}

/// First phase: every repeater ticks, all read against the same world.
pub open spec fn spec_phase1(w: Cells) -> Cells {
    Map::new(
        |p: (int, int)| w.dom().contains(p),
        |p: (int, int)|
            if w[p].id == BlockId::Repeater {
                Block { data: spec_repeater_next(w, p.0, p.1, w[p].data), ..w[p] }
            } else {
                w[p]
            },
    )
}

/// Second phase: torches, comparators, buttons and lamps tick, all read
/// against the world after the first phase.
pub open spec fn spec_phase2(w: Cells) -> Cells {
    Map::new(|p: (int, int)| w.dom().contains(p), |p: (int, int)| spec_phase2_block(w, p.0, p.1, w[p]))
}

/// One tick of every component.
pub open spec fn spec_update_components(w: Cells) -> Cells {
    spec_phase2(spec_phase1(w))
}

pub open spec fn repeater_changes(w: Cells, p: (int, int)) -> bool {
    w[p].id == BlockId::Repeater && spec_repeater_next(w, p.0, p.1, w[p].data) != w[p].data
}

/// Whether a tick records any write: a repeater that changes, a comparator,
/// or a torch, button or lamp that changes.
pub open spec fn spec_components_changed(w: Cells) -> bool {
    let w1 = spec_phase1(w);
    (exists|p: (int, int)| #[trigger] w.dom().contains(p) && repeater_changes(w, p)) || (exists|
        p: (int, int),
    | #[trigger] w1.dom().contains(p) && phase2_writes(w1, p.0, p.1, w1[p]))
}

/// A tick that records no write changes nothing.
pub proof fn lemma_quiet_tick(w: Cells)
    requires
        !spec_components_changed(w),
    ensures
        spec_update_components(w) == w,
{
    let w1 = spec_phase1(w);
    assert forall|p: (int, int)| #[trigger] w.dom().contains(p) implies w1[p] == w[p] by {
        assert(!repeater_changes(w, p));
    }
    assert(w1 =~= w);
    assert forall|p: (int, int)| #[trigger] w1.dom().contains(p) implies spec_phase2_block(
        w1,
        p.0,
        p.1,
        w1[p],
    ) == w1[p] by {
        assert(!phase2_writes(w1, p.0, p.1, w1[p]));
    }
    assert(spec_phase2(w1) =~= w1);
}

/// A comparator's tick, stated over its inputs read after the repeaters
/// have ticked: with `rear` the signal behind it (containers read by their
/// strength) and `side` the stronger of its two side inputs, compare mode
/// outputs `rear` whenever `rear >= side` (equal inputs pass) and 0 only when
/// a side is strictly stronger; subtract mode outputs `rear - side`, or 0 when
/// that is not positive. The comparator keeps its direction and mode, and
/// its powered flag says whether the output is above 0.
pub proof fn lemma_comparator_tick(w: Cells, x: int, y: int)
    requires
        w.dom().contains((x, y)),
        w[(x, y)].id == BlockId::Comparator,
    ensures
        ({
            let w1 = spec_phase1(w);
            let b = w[(x, y)];
            let dir = spec_decode_dir(b.data);
            let rear = spec_get_input_power_toward(w1, x - spec_dx(dir), y - spec_dy(dir), dir, true);
            let l = spec_rotate_ccw(dir);
            let r = spec_rotate_cw(dir);
            let ls = spec_comparator_side_power(w1, x + spec_dx(l), y + spec_dy(l), l);
            let rs = spec_comparator_side_power(w1, x + spec_dx(r), y + spec_dy(r), r);
            let side = if ls >= rs {
                ls
            } else {
                rs
            };
            let out = spec_update_components(w)[(x, y)];
            &&& out.id == BlockId::Comparator
            &&& spec_comparator_mode(b.data) == ComparatorMode::Compare ==> out.power == if rear
                >= side {
                rear
            } else {
                0
            }
            &&& spec_comparator_mode(b.data) == ComparatorMode::Subtract ==> out.power == if rear
                >= side {
                rear - side
            } else {
                0
            }
            &&& spec_comparator_powered(out.data) == (out.power > 0)
            &&& spec_decode_dir(out.data) == dir
            &&& spec_comparator_mode(out.data) == spec_comparator_mode(b.data)
        }),
{
    let w1 = spec_phase1(w);
    let b = w[(x, y)];
    assert(w1[(x, y)] == b);
    let dir = spec_decode_dir(b.data);
    lemma_direction_laws(dir);
    assert(nx(x, spec_opposite(dir)) == x - spec_dx(dir) && ny(y, spec_opposite(dir)) == y - spec_dy(dir)) by {
        match dir {
            Direction::North => {},
            Direction::South => {},
            Direction::East => {},
            Direction::West => {},
        }
    }
    let out = spec_comparator_output(w1, x, y, b.data);
    lemma_comparator_roundtrip(dir, spec_comparator_mode(b.data), out > 0);
}

/// A lamp with a redstone block on any side is lit after a tick.
pub proof fn lemma_lamp_lit_by_redstone_block(w: Cells, x: int, y: int, d: Direction)
    requires
        w.dom().contains((x, y)),
        w[(x, y)].id == BlockId::RedstoneLamp,
        w.dom().contains((x + spec_dx(d), y + spec_dy(d))),
        w[(x + spec_dx(d), y + spec_dy(d))].id == BlockId::RedstoneBlock,
    ensures
        spec_update_components(w)[(x, y)].id == BlockId::RedstoneLamp,
        spec_lamp_lit(spec_update_components(w)[(x, y)].data),
{
    let w1 = spec_phase1(w);
    assert(w1[(x, y)] == w[(x, y)]);
    assert(w1[(x + spec_dx(d), y + spec_dy(d))] == w[(x + spec_dx(d), y + spec_dy(d))]);
    lemma_redstone_block_powers(w1, x, y, d);
    lemma_lamp_barrel_roundtrip(true, 0);
}

/// A pressed button counts down one tick: with `c > 0` ticks left it has
/// `c - 1` left after a tick and stays pressed while any remain; it keeps
/// its direction. An unpressed button stays as it is.
pub proof fn lemma_button_tick(w: Cells, x: int, y: int)
    requires
        w.dom().contains((x, y)),
        w[(x, y)].id == BlockId::Button,
    ensures
        ({
            let b = w[(x, y)];
            let out = spec_update_components(w)[(x, y)];
            let c = spec_button_counter(b.data);
            &&& out.id == BlockId::Button
            &&& spec_button_powered(b.data) && c > 0 ==> {
                &&& spec_button_counter(out.data) == c - 1
                &&& spec_button_powered(out.data) == (c > 1)
                &&& spec_decode_dir(out.data) == spec_decode_dir(b.data)
            }
            &&& !spec_button_powered(b.data) ==> out == b
        }),
{
    let w1 = spec_phase1(w);
    let b = w[(x, y)];
    assert(w1[(x, y)] == b);
    let c = spec_button_counter(b.data);
    assert(0 <= c < 32);
    if spec_button_powered(b.data) && c > 0 {
        lemma_button_roundtrip(spec_decode_dir(b.data), c > 1, (c - 1) as u8);
    }
}

/// A torch standing on the floor is never blocked, so it is lit after a
/// tick, and keeps standing where it is.
pub proof fn lemma_floor_torch_lit(w: Cells, x: int, y: int)
    requires
        w.dom().contains((x, y)),
        w[(x, y)].id == BlockId::RedstoneTorch,
        !spec_torch_on_wall(w[(x, y)].data),
    ensures
        spec_update_components(w)[(x, y)].id == BlockId::RedstoneTorch,
        spec_torch_lit(spec_update_components(w)[(x, y)].data),
        !spec_torch_on_wall(spec_update_components(w)[(x, y)].data),
{
    let w1 = spec_phase1(w);
    let b = w[(x, y)];
    assert(w1[(x, y)] == b);
    lemma_torch_roundtrip(true, false, spec_torch_dir(b.data));
}

/// A repeater's tick, read against the world before the tick: a locked one
/// keeps its output and countdown; otherwise a counting one counts down and
/// flips its output when the count runs out, and an idle one whose rear
/// input (`> 0` or not) disagrees with its output flips at once with delay
/// 0, or starts counting from its delay plus one. Direction and delay stay.
pub proof fn lemma_repeater_tick(w: Cells, x: int, y: int)
    requires
        w.dom().contains((x, y)),
        w[(x, y)].id == BlockId::Repeater,
    ensures
        ({
            let b = w[(x, y)];
            let out = spec_update_components(w)[(x, y)];
            let dir = spec_decode_dir(b.data);
            let on = spec_repeater_powered(b.data);
            let c = spec_repeater_counter(b.data);
            let delay = spec_repeater_delay(b.data);
            let input = spec_get_input_power_toward(w, x - spec_dx(dir), y - spec_dy(dir), dir, false) > 0;
            &&& out.id == BlockId::Repeater
            &&& spec_decode_dir(out.data) == dir
            &&& spec_repeater_delay(out.data) == delay
            &&& spec_check_repeater_locked(w, x, y, dir) ==> spec_repeater_powered(out.data) == on
                && spec_repeater_counter(out.data) == c
            &&& !spec_check_repeater_locked(w, x, y, dir) ==> {
                &&& c > 1 ==> spec_repeater_powered(out.data) == on && spec_repeater_counter(out.data) == c - 1
                &&& c == 1 ==> spec_repeater_powered(out.data) == !on && spec_repeater_counter(out.data) == 0
                &&& c == 0 && input != on && delay == 0 ==> spec_repeater_powered(out.data) == input
                    && spec_repeater_counter(out.data) == 0
                &&& c == 0 && input != on && delay > 0 ==> spec_repeater_powered(out.data) == on
                    && spec_repeater_counter(out.data) == delay + 1
                &&& c == 0 && input == on ==> spec_repeater_powered(out.data) == on
                    && spec_repeater_counter(out.data) == 0
            }
        }),
{
    let b = w[(x, y)];
    let dir = spec_decode_dir(b.data);
    lemma_direction_laws(dir);
    assert(nx(x, spec_opposite(dir)) == x - spec_dx(dir) && ny(y, spec_opposite(dir)) == y - spec_dy(dir)) by {
        match dir {
            Direction::North => {},
            Direction::South => {},
            Direction::East => {},
            Direction::West => {},
        }
    }
    let delay = spec_repeater_delay(b.data);
    let c = spec_repeater_counter(b.data);
    assert(0 <= delay < 4 && 0 <= c < 8);
    let st = repeater_next_state(w, x, y, b.data);
    assert(0 <= st.1 < 8);
    lemma_repeater_roundtrip(
        dir,
        delay as u8,
        spec_check_repeater_locked(w, x, y, dir),
        st.0,
        st.1 as u8,
    );
    let w1 = spec_phase1(w);
    assert(w1[(x, y)].id == BlockId::Repeater);
}

pub fn dir_from_neighbor(tx: i32, ty: i32, nbx: i32, nby: i32) -> (r: Direction)
    requires
        i32::MIN <= tx - nbx <= i32::MAX,
        i32::MIN <= ty - nby <= i32::MAX,
    ensures
        r == spec_dir_from_neighbor(tx as int, ty as int, nbx as int, nby as int),
{
    match Direction::from_delta(tx - nbx, ty - nby) {
        Some(d) => d,
        None => Direction::North,
    }
}

fn locked_from(world: &World, x: i32, y: i32, s: Direction) -> (r: bool)
    requires
        world.wf(),
    ensures
        r == locked_by(world@, x as int, y as int, s),
{
    let Some((sx, sy)) = neighbor_pos(x, y, s) else {
        proof {
            world.lemma_out_of_range(nx(x as int, s), ny(y as int, s));
        }
        return false;
    };
    let Some(block) = block_at_pos(world, sx, sy) else {
        return false;
    };
    proof {
        lemma_direction_laws(s);
    }
    let dir_to_us = dir_from_neighbor(x, y, sx, sy);
    if block.id == BlockId::Repeater {
        let rd = decode_repeater_dir(block.data);
        if decode_repeater_powered(block.data) && rd == dir_to_us {
            return true;
        }
    }
    if block.id == BlockId::Comparator {
        let cd = decode_comparator_dir(block.data);
        if decode_comparator_powered(block.data) && cd == dir_to_us {
            return true;
        }
    }
    false
}

fn check_repeater_locked(world: &World, x: i32, y: i32, dir: Direction) -> (r: bool)
    requires
        world.wf(),
    ensures
        r == spec_check_repeater_locked(world@, x as int, y as int, dir),
{
    locked_from(world, x, y, dir.rotate_ccw()) || locked_from(world, x, y, dir.rotate_cw())
}

/// The power read from the cell behind `(x, y)` (opposite `dir`) by a
/// component facing `dir`.
fn input_behind(world: &World, x: i32, y: i32, dir: Direction, read_containers: bool) -> (r: u8)
    requires
        world.wf(),
    ensures
        r == ({
            let back = spec_opposite(dir);
            spec_get_input_power_toward(world@, nx(x as int, back), ny(y as int, back), dir, read_containers)
        }),
{
    let back = dir.opposite();
    match neighbor_pos(x, y, back) {
        Some((bx, by)) => get_input_power_toward(world, bx, by, dir, read_containers),
        None => {
            proof {
                world.lemma_out_of_range(nx(x as int, back), ny(y as int, back));
            }
            0
        },
    }
}

fn side_power(world: &World, x: i32, y: i32, s: Direction) -> (r: u8)
    requires
        world.wf(),
    ensures
        r == spec_comparator_side_power(world@, nx(x as int, s), ny(y as int, s), s),
{
    match neighbor_pos(x, y, s) {
        Some((sx, sy)) => comparator_side_power(world, sx, sy, s),
        None => {
            proof {
                world.lemma_out_of_range(nx(x as int, s), ny(y as int, s));
            }
            0
        },
    }
}

fn repeater_next(world: &World, x: i32, y: i32, data: u16) -> (r: u16)
    requires
        world.wf(),
    ensures
        r == spec_repeater_next(world@, x as int, y as int, data),
{
    let dir = decode_repeater_dir(data);
    let delay = decode_repeater_delay(data);
    let locked = check_repeater_locked(world, x, y, dir);
    let was_powered = decode_repeater_powered(data);
    let counter = decode_repeater_counter(data);
    let (new_powered, new_counter) = if locked {
        (was_powered, counter)
    } else {
        let input_power = input_behind(world, x, y, dir, false);
        let should_be_powered = input_power > 0;
        if counter > 0 {
            if counter > 1 {
                (was_powered, counter - 1)
            } else {
                (!was_powered, 0)
            }
        } else if should_be_powered != was_powered {
            if delay == 0 {
                (should_be_powered, 0)
            } else {
                (was_powered, delay + 1)
            }
        } else {
            (was_powered, 0)
        }
    };
    encode_repeater(dir, delay, locked, new_powered, new_counter)
}

fn comparator_output(world: &World, x: i32, y: i32, data: u16) -> (r: u8)
    requires
        world.wf(),
    ensures
        r == spec_comparator_output(world@, x as int, y as int, data),
{
    let dir = decode_comparator_dir(data);
    let mode = decode_comparator_mode(data);
    let input_power = input_behind(world, x, y, dir, true);
    let left_power = side_power(world, x, y, dir.rotate_ccw());
    let right_power = side_power(world, x, y, dir.rotate_cw());
    let side_power = if left_power >= right_power {
        left_power
    } else {
        right_power
    };
    match mode {
        ComparatorMode::Compare => {
            if input_power >= side_power {
                input_power
            } else {
                0
            }
        },
        ComparatorMode::Subtract => input_power.saturating_sub(side_power),
    }
}

/// The second-phase update of one block, and whether a write is recorded.
fn phase2_block(world: &World, x: i32, y: i32, b: Block) -> (r: (Block, bool))
    requires
        world.wf(),
    ensures
        r.0 == spec_phase2_block(world@, x as int, y as int, b),
        r.1 == phase2_writes(world@, x as int, y as int, b),
{
    match b.id {
        BlockId::RedstoneTorch => {
            let lit = decode_torch_lit(b.data);
            let on_wall = decode_torch_on_wall(b.data);
            let dir = decode_torch_dir(b.data);
            let should_be_lit = !torch_is_blocked(world, x, y);
            if lit != should_be_lit {
                let nb = Block { id: b.id, power: b.power, data: encode_torch(should_be_lit, on_wall, dir) };
                (nb, nb != b)
            } else {
                (b, false)
            }
        },
        BlockId::Comparator => {
            let dir = decode_comparator_dir(b.data);
            let mode = decode_comparator_mode(b.data);
            let output_power = comparator_output(world, x, y, b.data);
            let was_powered = decode_comparator_powered(b.data);
            let should_be_powered = output_power > 0;
            let data = if should_be_powered != was_powered {
                encode_comparator(dir, mode, should_be_powered)
            } else {
                b.data
            };
            (Block { id: b.id, power: output_power, data }, true)
        },
        BlockId::Button => {
            let dir = decode_lever_dir(b.data);
            let powered = decode_button_powered(b.data);
            let counter = decode_button_counter(b.data);
            if powered && counter > 0 {
                let (new_powered, new_counter) = if counter > 1 {
                    (true, counter - 1)
                } else {
                    (false, 0)
                };
                let nb = Block { id: b.id, power: b.power, data: encode_button(dir, new_powered, new_counter) };
                (nb, nb != b)
            } else {
                (b, false)
            }
        },
        BlockId::RedstoneLamp => {
            let lit = decode_lamp_lit(b.data);
            let should_be_lit = is_block_powered(world, x, y);
            if lit != should_be_lit {
                let nb = Block { id: b.id, power: b.power, data: encode_lamp(should_be_lit) };
                (nb, nb != b)
            } else {
                (b, false)
            }
        },
        _ => (b, false),
    }
}

/// The first phase against a snapshot `snap`: every repeater ticks.
fn tick_repeaters(world: &mut World, snap: &World) -> (changed: bool)
    requires
        old(world).wf(),
        snap.wf(),
        snap.keys@ == old(world).keys@,
        snap@ == old(world)@,
    ensures
        final(world).wf(),
        final(world).keys@ == old(world).keys@,
        final(world)@ == spec_phase1(snap@),
        changed == exists|p: (int, int)| #[trigger] snap@.dom().contains(p) && repeater_changes(snap@, p),
{
    let ghost w0 = snap@;
    let n = world.cells.len();
    let mut changed = false;
    let mut i: usize = 0;
    while i < n
        invariant
            i <= n,
            world.wf(),
            world.keys@ == old(world).keys@,
            world.cells.len() == n,
            snap.wf(),
            snap.keys@ == old(world).keys@,
            w0 == snap@,
            world@.dom() == w0.dom(),
            forall|c: (int, int)|
                #![trigger world@[c]]
                world@.dom().contains(c) ==> world@[c] == if snap.flat_of(c) < i {
                    spec_phase1(w0)[c]
                } else {
                    w0[c]
                },
            changed == exists|c: (int, int)|
                #![trigger w0.dom().contains(c)]
                w0.dom().contains(c) && snap.flat_of(c) < i && repeater_changes(w0, c),
        decreases n - i,
    {
        let k = i / 256;
        let j = i % 256;
        proof {
            snap.lemma_flat(i as int);
        }
        let ghost pc = snap.pos_of(k as int, j as int);
        let b = snap.block_at(k, j);
        let ghost wb = world@;
        let ghost cb = changed;
        if b.id == BlockId::Repeater {
            let (x, y) = snap.pos_at(k, j);
            let nd = repeater_next(snap, x, y, b.data);
            if nd != b.data {
                world.set_at(k, j, Block { id: b.id, power: b.power, data: nd });
                changed = true;
            }
        }
        proof {
            assert(world@.dom() =~= w0.dom());
            assert forall|c: (int, int)|
                #![trigger world@[c]]
                world@.dom().contains(c) implies world@[c] == if snap.flat_of(c) < i + 1 {
                    spec_phase1(w0)[c]
                } else {
                    w0[c]
                } by {
                snap.lemma_flat_range(c);
                if c != pc {
                    assert(world@[c] == wb[c]);
                }
            }
            if changed != cb {
                assert(w0.dom().contains(pc) && snap.flat_of(pc) < i + 1 && repeater_changes(w0, pc));
            }
            if changed {
                if !cb {
                } else {
                    let c = choose|c: (int, int)|
                        #![trigger w0.dom().contains(c)]
                        w0.dom().contains(c) && snap.flat_of(c) < i && repeater_changes(w0, c);
                    assert(w0.dom().contains(c) && snap.flat_of(c) < i + 1 && repeater_changes(w0, c));
                }
            } else {
                assert forall|c: (int, int)|
                    #![trigger w0.dom().contains(c)]
                    w0.dom().contains(c) && snap.flat_of(c) < i + 1 implies !repeater_changes(w0, c) by {
                    if c != pc {
                        snap.lemma_flat_range(c);
                    }
                }
            }
        }
        i = i + 1;
    }
    proof {
        assert forall|c: (int, int)| #[trigger] w0.dom().contains(c) implies snap.flat_of(c) < n by {
            snap.lemma_flat_range(c);
        }
        assert(world@ =~= spec_phase1(w0));
    }
    changed
}

/// The second phase against a snapshot `snap`: torches, comparators,
/// buttons and lamps tick.
fn tick_others(world: &mut World, snap: &World) -> (changed: bool)
    requires
        old(world).wf(),
        snap.wf(),
        snap.keys@ == old(world).keys@,
        snap@ == old(world)@,
    ensures
        final(world).wf(),
        final(world).keys@ == old(world).keys@,
        final(world)@ == spec_phase2(snap@),
        changed == exists|p: (int, int)| #[trigger] snap@.dom().contains(p) && phase2_writes(snap@, p.0, p.1, snap@[p]),
{
    let ghost w0 = snap@;
    let n = world.cells.len();
    let mut changed = false;
    let mut i: usize = 0;
    while i < n
        invariant
            i <= n,
            world.wf(),
            world.keys@ == old(world).keys@,
            world.cells.len() == n,
            snap.wf(),
            snap.keys@ == old(world).keys@,
            w0 == snap@,
            world@.dom() == w0.dom(),
            forall|c: (int, int)|
                #![trigger world@[c]]
                world@.dom().contains(c) ==> world@[c] == if snap.flat_of(c) < i {
                    spec_phase2(w0)[c]
                } else {
                    w0[c]
                },
            changed == exists|c: (int, int)|
                #![trigger w0.dom().contains(c)]
                w0.dom().contains(c) && snap.flat_of(c) < i && phase2_writes(w0, c.0, c.1, w0[c]),
        decreases n - i,
    {
        let k = i / 256;
        let j = i % 256;
        proof {
            snap.lemma_flat(i as int);
        }
        let ghost pc = snap.pos_of(k as int, j as int);
        let b = snap.block_at(k, j);
        let ghost wb = world@;
        let ghost cb = changed;
        let (x, y) = snap.pos_at(k, j);
        let (nb, writes) = phase2_block(snap, x, y, b);
        if writes {
            world.set_at(k, j, nb);
            changed = true;
        }
        proof {
            assert(world@.dom() =~= w0.dom());
            assert forall|c: (int, int)|
                #![trigger world@[c]]
                world@.dom().contains(c) implies world@[c] == if snap.flat_of(c) < i + 1 {
                    spec_phase2(w0)[c]
                } else {
                    w0[c]
                } by {
                snap.lemma_flat_range(c);
                if c != pc {
                    assert(world@[c] == wb[c]);
                }
            }
            if changed != cb {
                assert(w0.dom().contains(pc) && snap.flat_of(pc) < i + 1 && phase2_writes(w0, pc.0, pc.1, w0[pc]));
            }
            if changed {
                if !cb {
                } else {
                    let c = choose|c: (int, int)|
                        #![trigger w0.dom().contains(c)]
                        w0.dom().contains(c) && snap.flat_of(c) < i && phase2_writes(w0, c.0, c.1, w0[c]);
                    assert(w0.dom().contains(c) && snap.flat_of(c) < i + 1 && phase2_writes(w0, c.0, c.1, w0[c]));
                }
            } else {
                assert forall|c: (int, int)|
                    #![trigger w0.dom().contains(c)]
                    w0.dom().contains(c) && snap.flat_of(c) < i + 1 implies !phase2_writes(w0, c.0, c.1, w0[c]) by {
                    if c != pc {
                        snap.lemma_flat_range(c);
                    }
                }
            }
        }
        i = i + 1;
    }
    proof {
        assert forall|c: (int, int)| #[trigger] w0.dom().contains(c) implies snap.flat_of(c) < n by {
            snap.lemma_flat_range(c);
        }
        assert(world@ =~= spec_phase2(w0));
    }
    changed
}

/// One tick of every component: repeaters first, all against the world as
/// it was; then torches, comparators, buttons and lamps, all against the
/// world after the repeaters. Returns whether any write was recorded.
pub fn update_components(world: &mut World) -> (changed: bool)
    requires
        old(world).wf(),
    ensures
        final(world).wf(),
        final(world).keys@ == old(world).keys@,
        final(world)@ == spec_update_components(old(world)@),
        changed == spec_components_changed(old(world)@),
{
    let snap = world.snapshot();
    let c1 = tick_repeaters(world, &snap);
    let snap2 = world.snapshot();
    let c2 = tick_others(world, &snap2);
    c1 || c2
}

} // verus!
