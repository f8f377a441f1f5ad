use vstd::prelude::*;

use crate::block::{
    decode_barrel_strength, decode_comparator_dir, decode_comparator_mode,
    decode_comparator_powered, decode_lever_dir, decode_lever_powered, decode_repeater_delay,
    decode_repeater_dir, decode_repeater_locked, decode_repeater_powered, plain,
    spec_barrel_strength, spec_comparator_mode, spec_comparator_powered, spec_decode_dir,
    spec_dx, spec_dy, spec_encode_barrel, spec_encode_button, spec_encode_comparator,
    spec_encode_lever, spec_encode_repeater, spec_encode_torch, spec_lever_powered,
    spec_repeater_delay, spec_repeater_locked, spec_repeater_powered, with_data, Block, BlockId,
    lemma_button_roundtrip, lemma_comparator_roundtrip, lemma_lamp_barrel_roundtrip,
    lemma_lever_roundtrip, lemma_repeater_roundtrip, spec_button_counter, spec_button_powered,
    spec_repeater_counter,
    ComparatorMode, Direction,
};
use crate::constants::{BARREL_STRENGTH_COUNT, REPEATER_DELAY_COUNT};
use crate::sim::power::{at, block_at_pos, neighbor_pos, nx, ny, solid_like};
use crate::world::World;

verus! {

/// The entries of the block palette.
#[derive(Debug, Clone, Copy, PartialEq, Eq, Structural)]
pub enum SelectBlock {
    RedstoneWire,
    RedstoneTorch,
    RedstoneBlock,
    Repeater,
    Comparator,
    Lever,
    Button,
    SolidBlock,
    RedstoneLamp,
    Target,
    Barrel,
    Eraser,
}

/// The palette in display order.
pub open spec fn palette_order() -> Seq<SelectBlock> {
    seq![
        SelectBlock::RedstoneWire,
        SelectBlock::RedstoneTorch,
        SelectBlock::RedstoneBlock,
        SelectBlock::Repeater,
        SelectBlock::Comparator,
        SelectBlock::Lever,
        SelectBlock::Button,
        SelectBlock::SolidBlock,
        SelectBlock::RedstoneLamp,
        SelectBlock::Target,
        SelectBlock::Barrel,
        SelectBlock::Eraser,
    ]
}

/// The block placed for a palette entry, turned toward `d` where it has a
/// direction.
pub open spec fn spec_to_block(s: SelectBlock, d: Direction) -> Block {
    match s {
        SelectBlock::RedstoneWire => plain(BlockId::RedstoneWire),
        SelectBlock::RedstoneTorch => with_data(BlockId::RedstoneTorch, spec_encode_torch(true, true, d)),
        SelectBlock::RedstoneBlock => plain(BlockId::RedstoneBlock),
        SelectBlock::Repeater => with_data(BlockId::Repeater, spec_encode_repeater(d, 0, false, false, 0)),
        SelectBlock::Comparator => with_data(
            BlockId::Comparator,
            spec_encode_comparator(d, ComparatorMode::Compare, false),
        ),
        SelectBlock::Lever => with_data(BlockId::Lever, spec_encode_lever(d, false)),
        SelectBlock::Button => with_data(BlockId::Button, spec_encode_button(d, false, 0)),
        SelectBlock::SolidBlock => plain(BlockId::SolidBlock),
        SelectBlock::RedstoneLamp => plain(BlockId::RedstoneLamp),
        SelectBlock::Target => plain(BlockId::Target),
        SelectBlock::Barrel => with_data(BlockId::Barrel, spec_encode_barrel(0)),
        SelectBlock::Eraser => plain(BlockId::Air),
    }
}

pub open spec fn spec_palette_color(s: SelectBlock) -> (u8, u8, u8, u8) {
    match s {
        SelectBlock::RedstoneWire => (200, 30, 30, 255),
        SelectBlock::RedstoneTorch => (255, 120, 20, 255),
        SelectBlock::RedstoneBlock => (180, 30, 30, 255),
        SelectBlock::Repeater => (160, 140, 120, 255),
        SelectBlock::Comparator => (150, 150, 160, 255),
        SelectBlock::Lever => (120, 100, 80, 255),
        SelectBlock::Button => (140, 140, 100, 255),
        SelectBlock::SolidBlock => (100, 100, 100, 255),
        SelectBlock::RedstoneLamp => (200, 200, 80, 255),
        SelectBlock::Target => (200, 80, 80, 255),
        SelectBlock::Barrel => (120, 90, 60, 255),
        SelectBlock::Eraser => (200, 60, 60, 255),
    }
}

pub open spec fn spec_label(s: SelectBlock) -> Seq<char> {
    match s {
        SelectBlock::RedstoneWire => "Wire"@,
        SelectBlock::RedstoneTorch => "Torch"@,
        SelectBlock::RedstoneBlock => "RBlk"@,
        SelectBlock::Repeater => "Rep"@,
        SelectBlock::Comparator => "Cmp"@,
        SelectBlock::Lever => "Lvr"@,
        SelectBlock::Button => "Btn"@,
        SelectBlock::SolidBlock => "Blk"@,
        SelectBlock::RedstoneLamp => "Lmp"@,
        SelectBlock::Target => "Tgt"@,
        SelectBlock::Barrel => "Brl"@,
        SelectBlock::Eraser => "Erase"@,
    }
}

/// Entries that take the direction of the cursor when placed.
pub open spec fn needs_dir(s: SelectBlock) -> bool {
    s == SelectBlock::Repeater || s == SelectBlock::Comparator || s == SelectBlock::Lever || s
        == SelectBlock::Button || s == SelectBlock::RedstoneTorch
}

impl SelectBlock {
    /// The number of palette entries.
    pub fn count() -> (r: usize)
        ensures
            r == palette_order().len(),
    {
        12
    }

    /// The palette entry at position `i`, if there is one.
    pub fn from_index(i: usize) -> (r: Option<SelectBlock>)
        ensures
            i < 12 ==> r == Some(palette_order()[i as int]),
            i >= 12 ==> r is None,
    {
        match i {
            0 => Some(SelectBlock::RedstoneWire),
            1 => Some(SelectBlock::RedstoneTorch),
            2 => Some(SelectBlock::RedstoneBlock),
            3 => Some(SelectBlock::Repeater),
            4 => Some(SelectBlock::Comparator),
            5 => Some(SelectBlock::Lever),
            6 => Some(SelectBlock::Button),
            7 => Some(SelectBlock::SolidBlock),
            8 => Some(SelectBlock::RedstoneLamp),
            9 => Some(SelectBlock::Target),
            10 => Some(SelectBlock::Barrel),
            11 => Some(SelectBlock::Eraser),
            _ => None,
        }
    }

    /// The position of this entry in the palette.
    pub fn index(self) -> (r: usize)
        ensures
            r < 12,
            palette_order()[r as int] == self,
    {
        match self {
            SelectBlock::RedstoneWire => 0,
            SelectBlock::RedstoneTorch => 1,
            SelectBlock::RedstoneBlock => 2,
            SelectBlock::Repeater => 3,
            SelectBlock::Comparator => 4,
            SelectBlock::Lever => 5,
            SelectBlock::Button => 6,
            SelectBlock::SolidBlock => 7,
            SelectBlock::RedstoneLamp => 8,
            SelectBlock::Target => 9,
            SelectBlock::Barrel => 10,
            SelectBlock::Eraser => 11,
        }
    }

    /// The entry after this one, wrapping around at the end (Tab).
    pub fn next(self) -> (r: SelectBlock)
        ensures
            ({
                let i = palette_order().index_of(self);
                r == palette_order()[(i + 1) % 12]
            }),
    {
        let i = self.index();
        proof {
            reveal_palette_unique(i as int, self);
        }
        match SelectBlock::from_index((i + 1) % 12) {
            Some(s) => s,
            None => self,
        }
    }

    pub fn to_block(self, cursor_dir: Direction) -> (r: Block)
        ensures
            r == spec_to_block(self, cursor_dir),
    {
        match self {
            SelectBlock::RedstoneWire => Block::wire(),
            SelectBlock::RedstoneTorch => Block::torch(true, true, cursor_dir),
            SelectBlock::RedstoneBlock => Block::redstone_block(),
            SelectBlock::Repeater => Block::repeater(cursor_dir, 0, false, false),
            SelectBlock::Comparator => Block::comparator(cursor_dir, ComparatorMode::Compare, false),
            SelectBlock::Lever => Block::lever(cursor_dir, false),
            SelectBlock::Button => Block::button(cursor_dir, false),
            SelectBlock::SolidBlock => Block::solid(),
            SelectBlock::RedstoneLamp => Block::lamp(),
            SelectBlock::Target => Block::target(),
            SelectBlock::Barrel => Block::barrel(0),
            SelectBlock::Eraser => Block::air(),
        }
    }

    /// The swatch colour of the entry, as red, green, blue and alpha.
    pub fn palette_color(&self) -> (r: (u8, u8, u8, u8))
        ensures
            r == spec_palette_color(*self),
    {
        match self {
            SelectBlock::RedstoneWire => (200, 30, 30, 255),
            SelectBlock::RedstoneTorch => (255, 120, 20, 255),
            SelectBlock::RedstoneBlock => (180, 30, 30, 255),
            SelectBlock::Repeater => (160, 140, 120, 255),
            SelectBlock::Comparator => (150, 150, 160, 255),
            SelectBlock::Lever => (120, 100, 80, 255),
            SelectBlock::Button => (140, 140, 100, 255),
            SelectBlock::SolidBlock => (100, 100, 100, 255),
            SelectBlock::RedstoneLamp => (200, 200, 80, 255),
            SelectBlock::Target => (200, 80, 80, 255),
            SelectBlock::Barrel => (120, 90, 60, 255),
            SelectBlock::Eraser => (200, 60, 60, 255),
        }
    }

    /// The short name shown under the swatch.
    pub fn label(&self) -> (r: &'static str)
        ensures
            r@ == spec_label(*self),
    {
        match self {
            SelectBlock::RedstoneWire => "Wire",
            SelectBlock::RedstoneTorch => "Torch",
            SelectBlock::RedstoneBlock => "RBlk",
            SelectBlock::Repeater => "Rep",
            SelectBlock::Comparator => "Cmp",
            SelectBlock::Lever => "Lvr",
            SelectBlock::Button => "Btn",
            SelectBlock::SolidBlock => "Blk",
            SelectBlock::RedstoneLamp => "Lmp",
            SelectBlock::Target => "Tgt",
            SelectBlock::Barrel => "Brl",
            SelectBlock::Eraser => "Erase",
        }
    }
}

proof fn reveal_palette_unique(i: int, s: SelectBlock)
    requires
        0 <= i < 12,
        palette_order()[i] == s,
    ensures
        palette_order().index_of(s) == i,
{
    let p = palette_order();
    assert(p.contains(s));
    let j = p.index_of(s);
    assert(p[j] == s);
    assert(forall|a: int, b: int| 0 <= a < 12 && 0 <= b < 12 && a != b ==> p[a] != p[b]);
}

/// The number key (1 to 9, then 0) that selects the palette entry at
/// position `i`; none past the tenth.
pub open spec fn spec_key_label(i: int) -> Seq<char> {
    if i == 0 {
        "1"@
    } else if i == 1 {
        "2"@
    } else if i == 2 {
        "3"@
    } else if i == 3 {
        "4"@
    } else if i == 4 {
        "5"@
    } else if i == 5 {
        "6"@
    } else if i == 6 {
        "7"@
    } else if i == 7 {
        "8"@
    } else if i == 8 {
        "9"@
    } else if i == 9 {
        "0"@
    } else {
        ""@
    }
}

pub fn key_label(i: usize) -> (r: &'static str)
    ensures
        r@ == spec_key_label(i as int),
{
    match i {
        0 => "1",
        1 => "2",
        2 => "3",
        3 => "4",
        4 => "5",
        5 => "6",
        6 => "7",
        7 => "8",
        8 => "9",
        9 => "0",
        _ => "",
    }
}

/// What a left click does to an existing block, if it interacts with it:
/// a barrel's strength steps up (wrapping at 16), a lever flips, a button is
/// pressed, a repeater's delay steps up (wrapping at 4), a comparator
/// switches mode.
pub open spec fn spec_click_block(b: Block) -> Option<Block> {
    match b.id {
        BlockId::Barrel => Some(
            with_data(BlockId::Barrel, spec_encode_barrel((spec_barrel_strength(b.data) + 1) % 16)),
        ),
        BlockId::Lever => Some(
            with_data(BlockId::Lever, spec_encode_lever(spec_decode_dir(b.data), !spec_lever_powered(b.data))),
        ),
        BlockId::Button => Some(
            with_data(BlockId::Button, spec_encode_button(spec_decode_dir(b.data), true, 20)),
        ),
        BlockId::Repeater => Some(
            with_data(
                BlockId::Repeater,
                spec_encode_repeater(
                    spec_decode_dir(b.data),
                    (spec_repeater_delay(b.data) + 1) % 4,
                    spec_repeater_locked(b.data),
                    spec_repeater_powered(b.data),
                    0,
                ),
            ),
        ),
        BlockId::Comparator => Some(
            with_data(
                BlockId::Comparator,
                spec_encode_comparator(
                    spec_decode_dir(b.data),
                    match spec_comparator_mode(b.data) {
                        ComparatorMode::Compare => ComparatorMode::Subtract,
                        ComparatorMode::Subtract => ComparatorMode::Compare,
                    },
                    spec_comparator_powered(b.data),
                ),
            ),
        ),
        _ => None,
    }
}

/// What a click does to each kind, read back through the decoders: a lever
/// flips its powered flag and keeps its direction (so two clicks give back
/// its flag); a button comes out pressed for 20 ticks facing the same way;
/// a repeater's delay steps up by one, wrapping from 3 to 0, and keeps its
/// direction, lock and output, with no tick pending; a comparator switches
/// between compare and subtract and keeps its direction and output; a
/// barrel's strength steps up by one, wrapping from 15 to 0. Any other
/// block is not worked by a click. A worked block keeps its kind and starts
/// with no power of its own.
#[verifier::spinoff_prover]
#[verifier::rlimit(40)]
pub proof fn lemma_click_block(b: Block)
    ensures
        (b.id == BlockId::Lever || b.id == BlockId::Button || b.id == BlockId::Repeater || b.id
            == BlockId::Comparator || b.id == BlockId::Barrel) <==> spec_click_block(b) is Some,
        spec_click_block(b) matches Some(c) ==> c.id == b.id && c.power == 0,
        b.id == BlockId::Lever ==> ({
            let c = spec_click_block(b)->0;
            &&& spec_lever_powered(c.data) == !spec_lever_powered(b.data)
            &&& spec_decode_dir(c.data) == spec_decode_dir(b.data)
            &&& spec_lever_powered(spec_click_block(c)->0.data) == spec_lever_powered(b.data)
        }),
        b.id == BlockId::Button ==> ({
            let c = spec_click_block(b)->0;
            &&& spec_button_powered(c.data)
            &&& spec_button_counter(c.data) == 20
            &&& spec_decode_dir(c.data) == spec_decode_dir(b.data)
        }),
        b.id == BlockId::Repeater ==> ({
            let c = spec_click_block(b)->0;
            &&& spec_repeater_delay(c.data) == if spec_repeater_delay(b.data) == 3 {
                0
            } else {
                spec_repeater_delay(b.data) + 1
            }
            &&& spec_decode_dir(c.data) == spec_decode_dir(b.data)
            &&& spec_repeater_locked(c.data) == spec_repeater_locked(b.data)
            &&& spec_repeater_powered(c.data) == spec_repeater_powered(b.data)
            &&& spec_repeater_counter(c.data) == 0
        }),
        b.id == BlockId::Comparator ==> ({
            let c = spec_click_block(b)->0;
            &&& spec_comparator_mode(c.data) != spec_comparator_mode(b.data)
            &&& spec_decode_dir(c.data) == spec_decode_dir(b.data)
            &&& spec_comparator_powered(c.data) == spec_comparator_powered(b.data)
        }),
        b.id == BlockId::Barrel ==> ({
            let c = spec_click_block(b)->0;
            spec_barrel_strength(c.data) == if spec_barrel_strength(b.data) == 15 {
                0
            } else {
                spec_barrel_strength(b.data) + 1
            }
        }),
{
    let d = spec_decode_dir(b.data);
    match b.id {
        BlockId::Lever => {
            let p = spec_lever_powered(b.data);
            lemma_lever_roundtrip(d, !p);
            let c = spec_click_block(b)->0;
            assert(spec_decode_dir(c.data) == d);
            lemma_lever_roundtrip(d, p);
        },
        BlockId::Button => {
            lemma_button_roundtrip(d, true, 20);
        },
        BlockId::Repeater => {
            let dl = spec_repeater_delay(b.data);
            assert(0 <= dl < 4);
            lemma_repeater_roundtrip(
                d,
                ((dl + 1) % 4) as u8,
                spec_repeater_locked(b.data),
                spec_repeater_powered(b.data),
                0,
            );
        },
        BlockId::Comparator => {
            let m = match spec_comparator_mode(b.data) {
                ComparatorMode::Compare => ComparatorMode::Subtract,
                ComparatorMode::Subtract => ComparatorMode::Compare,
            };
            lemma_comparator_roundtrip(d, m, spec_comparator_powered(b.data));
        },
        BlockId::Barrel => {
            let st = spec_barrel_strength(b.data);
            assert(0 <= st < 16);
            lemma_lamp_barrel_roundtrip(false, ((st + 1) % 16) as u8);
        },
        _ => {},
    }
}

pub fn click_block(block: Block) -> (r: Option<Block>)
    ensures
        r == spec_click_block(block),
{
    match block.id {
        BlockId::Barrel => {
            let strength = (decode_barrel_strength(block.data) + 1) % BARREL_STRENGTH_COUNT;
            Some(Block::barrel(strength))
        },
        BlockId::Lever => {
            let powered = !decode_lever_powered(block.data);
            Some(Block::lever(decode_lever_dir(block.data), powered))
        },
        BlockId::Button => Some(Block::button(decode_lever_dir(block.data), true)),
        BlockId::Repeater => {
            let dir = decode_repeater_dir(block.data);
            let delay = (decode_repeater_delay(block.data) + 1) % REPEATER_DELAY_COUNT;
            let locked = decode_repeater_locked(block.data);
            let powered = decode_repeater_powered(block.data);
            Some(Block::repeater(dir, delay, locked, powered))
        },
        BlockId::Comparator => {
            let dir = decode_comparator_dir(block.data);
            let mode = match decode_comparator_mode(block.data) {
                ComparatorMode::Compare => ComparatorMode::Subtract,
                ComparatorMode::Subtract => ComparatorMode::Compare,
            };
            let powered = decode_comparator_powered(block.data);
            Some(Block::comparator(dir, mode, powered))
        },
        _ => None,
    }
}

/// The direction of a drag from `prev` to `cur`: along the axis that moved
/// more (horizontal when both moved equally only if the vertical move is
/// zero), or none when the cursor did not move.
pub open spec fn spec_drag_direction(dx: int, dy: int) -> Option<Direction> {
    let adx = if dx < 0 { -dx } else { dx };
    let ady = if dy < 0 { -dy } else { dy };
    if adx > ady {
        Some(if dx > 0 { Direction::East } else { Direction::West })
    } else if dy != 0 {
        Some(if dy > 0 { Direction::South } else { Direction::North })
    } else {
        None
    }
}

pub fn drag_direction(prev: Option<(i32, i32)>, cur: (i32, i32)) -> (r: Option<Direction>)
    ensures
        r == match prev {
            Some(p) => spec_drag_direction(cur.0 - p.0, cur.1 - p.1),
            None => spec_drag_direction(0, 0),
        },
{
    let (ddx, ddy): (i64, i64) = match prev {
        Some((px, py)) => (cur.0 as i64 - px as i64, cur.1 as i64 - py as i64),
        None => (0, 0),
    };
    let adx: i64 = if ddx < 0 { -ddx } else { ddx };
    let ady: i64 = if ddy < 0 { -ddy } else { ddy };
    if adx > ady {
        Some(if ddx > 0 { Direction::East } else { Direction::West })
    } else if ddy != 0 {
        Some(if ddy > 0 { Direction::South } else { Direction::North })
    } else {
        None
    }
}

/// The block placed at `(wx, wy)` for palette entry `selected`: entries with
/// a direction face `dir` (south if none); a torch clicked near the cell
/// centre stands on the floor, otherwise it hangs on the conductor behind it
/// if there is one, and stands on the floor if not.
pub open spec fn spec_placement_block(
    w: Map<(int, int), Block>,
    selected: SelectBlock,
    wx: int,
    wy: int,
    dir: Option<Direction>,
    is_center: bool,
) -> Block {
    let d = match dir {
        Some(d) => d,
        None => Direction::South,
    };
    if needs_dir(selected) {
        if selected == SelectBlock::RedstoneTorch {
            if is_center {
                with_data(BlockId::RedstoneTorch, spec_encode_torch(true, false, Direction::North))
            } else if at(w, nx(wx, d), ny(wy, d)) matches Some(b) && solid_like(b.id) {
                with_data(BlockId::RedstoneTorch, spec_encode_torch(true, true, d))
            } else {
                with_data(BlockId::RedstoneTorch, spec_encode_torch(true, false, Direction::North))
            }
        } else {
            spec_to_block(selected, d)
        }
    } else {
        spec_to_block(selected, Direction::North)
    }
}

pub fn placement_block(
    world: &World,
    selected: SelectBlock,
    wx: i32,
    wy: i32,
    dir: Option<Direction>,
    is_center: bool,
) -> (r: Block)
    requires
        world.wf(),
    ensures
        r == spec_placement_block(world@, selected, wx as int, wy as int, dir, is_center),
{
    let needs = selected == SelectBlock::Repeater || selected == SelectBlock::Comparator || selected
        == SelectBlock::Lever || selected == SelectBlock::Button || selected
        == SelectBlock::RedstoneTorch;
    if needs {
        if selected == SelectBlock::RedstoneTorch {
            if is_center {
                Block::torch(true, false, Direction::North)
            } else {
                let d = match dir {
                    Some(d) => d,
                    None => Direction::South,
                };
                let behind = match neighbor_pos(wx, wy, d) {
                    Some((bx, by)) => block_at_pos(world, bx, by),
                    None => {
                        proof {
                            world.lemma_out_of_range(nx(wx as int, d), ny(wy as int, d));
                        }
                        None
                    },
                };
                match behind {
                    Some(b) => {
                        if b.id == BlockId::SolidBlock || b.id == BlockId::Target || b.id
                            == BlockId::RedstoneLamp || b.id == BlockId::Barrel {
                            Block::torch(true, true, d)
                        } else {
                            Block::torch(true, false, Direction::North)
                        }
                    },
                    None => Block::torch(true, false, Direction::North),
                }
            }
        } else {
            let d = match dir {
                Some(d) => d,
                None => Direction::South,
            };
            selected.to_block(d)
        }
    } else {
        selected.to_block(Direction::North)
    }
}

} // verus!
