use vstd::prelude::*;

use crate::block::{Block, BlockId};
use crate::constants::CHUNK_CELLS;
use crate::world::World;

verus! {

/// The identifier of a block kind in exported structure files.
pub open spec fn spec_block_id_name(id: BlockId) -> Seq<char> {
    match id {
        BlockId::Air => "air"@,
        BlockId::SolidBlock => "solid_block"@,
        BlockId::RedstoneWire => "redstone_wire"@,
        BlockId::RedstoneTorch => "redstone_torch"@,
        BlockId::RedstoneBlock => "redstone_block"@,
        BlockId::Repeater => "repeater"@,
        BlockId::Comparator => "comparator"@,
        BlockId::Lever => "lever"@,
        BlockId::Button => "button"@,
        BlockId::RedstoneLamp => "redstone_lamp"@,
        BlockId::Target => "target"@,
        BlockId::Barrel => "barrel"@,
    }
}

/// Each kind exports under its own name, the snake-case form of the kind:
/// air, solid_block, redstone_wire, redstone_torch, redstone_block,
/// repeater, comparator, lever, button, redstone_lamp, target, barrel. No
/// two kinds share a name, so a reader of the export can tell every kind
/// apart.
pub proof fn lemma_block_id_names(a: BlockId, b: BlockId)
    ensures
        spec_block_id_name(BlockId::Air) == "air"@,
        spec_block_id_name(BlockId::SolidBlock) == "solid_block"@,
        spec_block_id_name(BlockId::RedstoneWire) == "redstone_wire"@,
        spec_block_id_name(BlockId::RedstoneTorch) == "redstone_torch"@,
        spec_block_id_name(BlockId::RedstoneBlock) == "redstone_block"@,
        spec_block_id_name(BlockId::Repeater) == "repeater"@,
        spec_block_id_name(BlockId::Comparator) == "comparator"@,
        spec_block_id_name(BlockId::Lever) == "lever"@,
        spec_block_id_name(BlockId::Button) == "button"@,
        spec_block_id_name(BlockId::RedstoneLamp) == "redstone_lamp"@,
        spec_block_id_name(BlockId::Target) == "target"@,
        spec_block_id_name(BlockId::Barrel) == "barrel"@,
        spec_block_id_name(a) == spec_block_id_name(b) ==> a == b,
{
    reveal_strlit("air");
    reveal_strlit("solid_block");
    reveal_strlit("redstone_wire");
    reveal_strlit("redstone_torch");
    reveal_strlit("redstone_block");
    reveal_strlit("repeater");
    reveal_strlit("comparator");
    reveal_strlit("lever");
    reveal_strlit("button");
    reveal_strlit("redstone_lamp");
    reveal_strlit("target");
    reveal_strlit("barrel");
    if spec_block_id_name(a) == spec_block_id_name(b) && a != b {
        let sa = spec_block_id_name(a);
        let sb = spec_block_id_name(b);
        assert(sa.len() != sb.len() || exists|i: int| 0 <= i < sa.len() && sa[i] != sb[i]) by {
            if sa.len() == sb.len() {
                assert(sa[0] != sb[0] || sa[sa.len() - 1] != sb[sb.len() - 1] || sa[6] != sb[6]
                    || sa[9] != sb[9]);
            }
        }
    }
}

pub fn block_id_name(id: BlockId) -> (r: &'static str)
    ensures
        r@ == spec_block_id_name(id),
{
    match id {
        BlockId::Air => "air",
        BlockId::SolidBlock => "solid_block",
        BlockId::RedstoneWire => "redstone_wire",
        BlockId::RedstoneTorch => "redstone_torch",
        BlockId::RedstoneBlock => "redstone_block",
        BlockId::Repeater => "repeater",
        BlockId::Comparator => "comparator",
        BlockId::Lever => "lever",
        BlockId::Button => "button",
        BlockId::RedstoneLamp => "redstone_lamp",
        BlockId::Target => "target",
        BlockId::Barrel => "barrel",
    }
}

/// One exported block: its place in the chunk, kind, packed state and power.
pub struct NbtBlock {
    pub x: i8,
    pub y: i8,
    pub block_id: &'static str,
    pub data: i16,
    pub power: i8,
}

/// The exported non-air blocks of one chunk.
pub struct NbtChunk {
    pub cx: i32,
    pub cy: i32,
    pub blocks: Vec<NbtBlock>,
}

/// The local indices of the non-air blocks among the first `n` of a chunk.
pub open spec fn nonair_locals(blocks: Seq<Block>, n: nat) -> Seq<int>
    decreases n,
{
    if n == 0 {
        Seq::empty()
    } else {
        let prev = nonair_locals(blocks, (n - 1) as nat);
        if blocks[n - 1].id != BlockId::Air {
            prev.push(n - 1)
        } else {
            prev
        }
    }
}

/// The block list of the `k`-th stored chunk.
pub open spec fn chunk_blocks(w: World, k: int) -> Seq<Block> {
    w.cells@.subrange(k * 256, k * 256 + 256)
}

/// The stored chunks among the first `n` that hold a non-air block.
pub open spec fn nonempty_chunks(w: World, n: nat) -> Seq<int>
    decreases n,
{
    if n == 0 {
        Seq::empty()
    } else {
        let prev = nonempty_chunks(w, (n - 1) as nat);
        if nonair_locals(chunk_blocks(w, n - 1), 256).len() > 0 {
            prev.push(n - 1)
        } else {
            prev
        }
    }
}

/// `e` is the export record of the block at local index `j` of `b`.
pub open spec fn nbt_block_of(e: NbtBlock, j: int, b: Block) -> bool {
    &&& e.x == (j % 16) as i8
    &&& e.y == (j / 16) as i8
    &&& e.block_id@ == spec_block_id_name(b.id)
    &&& e.data == b.data as i16
    &&& e.power == b.power as i8
}

/// `c` is the export record of the `k`-th stored chunk of `w`.
pub open spec fn nbt_chunk_of(c: NbtChunk, w: World, k: int) -> bool {
    let locals = nonair_locals(chunk_blocks(w, k), 256);
    &&& c.cx == w.keys@[k].0
    &&& c.cy == w.keys@[k].1
    &&& c.blocks@.len() == locals.len()
    &&& forall|i: int|
        0 <= i < locals.len() ==> nbt_block_of(
            #[trigger] c.blocks@[i],
            locals[i],
            chunk_blocks(w, k)[locals[i]],
        )
}

fn export_chunk(world: &World, k: usize) -> (r: NbtChunk)
    requires
        world.wf(),
        k < world.keys.len(),
    ensures
        nbt_chunk_of(r, *world, k as int),
{
    let ghost cb = chunk_blocks(*world, k as int);
    let mut blocks: Vec<NbtBlock> = Vec::new();
    let mut j: usize = 0;
    while j < CHUNK_CELLS
        invariant
            j <= 256,
            world.wf(),
            k < world.keys.len(),
            cb == chunk_blocks(*world, k as int),
            blocks@.len() == nonair_locals(cb, j as nat).len(),
            forall|i: int|
                0 <= i < nonair_locals(cb, j as nat).len() ==> nbt_block_of(
                    #[trigger] blocks@[i],
                    nonair_locals(cb, j as nat)[i],
                    cb[nonair_locals(cb, j as nat)[i]],
                ),
        decreases 256 - j,
    {
        let block = world.block_at(k, j);
        proof {
            assert(cb[j as int] == world.cells@[k * 256 + j]);
        }
        if block.id != BlockId::Air {
            let ghost prev = blocks@;
            blocks.push(
                NbtBlock {
                    x: (j % 16) as i8,
                    y: (j / 16) as i8,
                    block_id: block_id_name(block.id),
                    data: block.data as i16,
                    power: block.power as i8,
                },
            );
            proof {
                assert forall|i: int|
                    0 <= i < nonair_locals(cb, (j + 1) as nat).len() implies nbt_block_of(
                        #[trigger] blocks@[i],
                        nonair_locals(cb, (j + 1) as nat)[i],
                        cb[nonair_locals(cb, (j + 1) as nat)[i]],
                    ) by {
                    if i < prev.len() {
                        assert(blocks@[i] == prev[i]);
                    }
                }
            }
        }
        j = j + 1;
    }
    let key = world.keys[k];
    NbtChunk { cx: key.0, cy: key.1, blocks }
}

/// The export records of a world: one per stored chunk that holds a non-air
/// block, in storage order, listing its non-air blocks row by row.
pub fn nbt_chunks(world: &World) -> (r: Vec<NbtChunk>)
    requires
        world.wf(),
    ensures
        ({
            let ks = nonempty_chunks(*world, world.keys.len() as nat);
            &&& r@.len() == ks.len()
            &&& forall|i: int| 0 <= i < ks.len() ==> nbt_chunk_of(#[trigger] r@[i], *world, ks[i])
        }),
{
    let mut r: Vec<NbtChunk> = Vec::new();
    let mut k: usize = 0;
    while k < world.keys.len()
        invariant
            k <= world.keys.len(),
            world.wf(),
            r@.len() == nonempty_chunks(*world, k as nat).len(),
            forall|i: int|
                0 <= i < nonempty_chunks(*world, k as nat).len() ==> nbt_chunk_of(
                    #[trigger] r@[i],
                    *world,
                    nonempty_chunks(*world, k as nat)[i],
                ),
        decreases world.keys.len() - k,
    {
        let c = export_chunk(world, k);
        if c.blocks.len() > 0 {
            let ghost prev = r@;
            r.push(c);
            proof {
                assert forall|i: int|
                    0 <= i < nonempty_chunks(*world, (k + 1) as nat).len() implies nbt_chunk_of(
                        #[trigger] r@[i],
                        *world,
                        nonempty_chunks(*world, (k + 1) as nat)[i],
                    ) by {
                    if i < prev.len() {
                        assert(r@[i] == prev[i]);
                    }
                }
            }
        }
        k = k + 1;
    }
    r
}

} // verus!
