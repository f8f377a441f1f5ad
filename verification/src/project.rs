use vstd::prelude::*;

use crate::block::{plain, Block, BlockId};
use crate::constants::CHUNK_CELLS;
use crate::export::{chunk_blocks, nonair_locals, nonempty_chunks};
use crate::world::{chunk_of, in_chunk, local_index, World};

verus! {

/// A saved block: its column and row inside the chunk, and the block.
pub type SavedBlock = (u8, u8, Block);

/// A saved chunk: its coordinates and its non-air blocks.
pub type SavedChunk = ((i32, i32), Vec<SavedBlock>);

/// The saved record of the block at local index `j` of a chunk.
pub open spec fn saved_block(j: int, b: Block) -> SavedBlock {
    ((j % 16) as u8, (j / 16) as u8, b)
}

/// The saved records of the non-air blocks among the first `n` of a chunk.
pub open spec fn saved_upto(cb: Seq<Block>, n: nat) -> Seq<SavedBlock> {
    nonair_locals(cb, n).map_values(|j: int| saved_block(j, cb[j]))
}

/// The saved records of a chunk's non-air blocks, row by row.
pub open spec fn saved_blocks(cb: Seq<Block>) -> Seq<SavedBlock> {
    saved_upto(cb, 256)
}

/// The saved chunks of a world: each stored chunk that holds a non-air
/// block, in storage order.
pub open spec fn spec_saved(w: World) -> Seq<((i32, i32), Seq<SavedBlock>)> {
    nonempty_chunks(w, w.keys.len() as nat).map_values(
        |k: int| (w.keys@[k], saved_blocks(chunk_blocks(w, k))),
    )
}

/// The saved chunks as plain sequences.
pub open spec fn chunks_view(v: Seq<SavedChunk>) -> Seq<((i32, i32), Seq<SavedBlock>)> {
    v.map_values(|e: SavedChunk| (e.0, e.1@))
}

fn saved_chunk_blocks(world: &World, k: usize) -> (r: Vec<SavedBlock>)
    requires
        world.wf(),
        k < world.keys.len(),
    ensures
        r@ == saved_blocks(chunk_blocks(*world, k as int)),
{
    let ghost cb = chunk_blocks(*world, k as int);
    let mut blocks: Vec<SavedBlock> = Vec::new();
    let mut j: usize = 0;
    while j < CHUNK_CELLS
        invariant
            j <= 256,
            world.wf(),
            k < world.keys.len(),
            cb == chunk_blocks(*world, k as int),
            blocks@ == saved_upto(cb, j as nat),
        decreases 256 - j,
    {
        let block = world.block_at(k, j);
        proof {
            assert(cb[j as int] == world.cells@[k * 256 + j]);
        }
        if block.id != BlockId::Air {
            blocks.push(((j % 16) as u8, (j / 16) as u8, block));
        }
        j = j + 1;
        proof {
            assert(blocks@ =~= saved_upto(cb, j as nat));
        }
    }
    blocks
}

/// The chunks of a world as a project file stores them: each stored chunk
/// that holds a non-air block, with its non-air blocks row by row.
pub fn saved_chunks(world: &World) -> (r: Vec<SavedChunk>)
    requires
        world.wf(),
    ensures
        chunks_view(r@) == spec_saved(*world),
{
    let mut r: Vec<SavedChunk> = Vec::new();
    let mut k: usize = 0;
    while k < world.keys.len()
        invariant
            k <= world.keys.len(),
            world.wf(),
            chunks_view(r@) == nonempty_chunks(*world, k as nat).map_values(
                |i: int| (world.keys@[i], saved_blocks(chunk_blocks(*world, i))),
            ),
        decreases world.keys.len() - k,
    {
        let blocks = saved_chunk_blocks(world, k);
        proof {
            assert(nonair_locals(chunk_blocks(*world, k as int), 256).len() == blocks@.len());
        }
        let ghost prev = r@;
        let ghost f = |i: int| (world.keys@[i], saved_blocks(chunk_blocks(*world, i)));
        if blocks.len() > 0 {
            let ghost entry = (world.keys@[k as int], blocks@);
            r.push((world.keys[k], blocks));
            proof {
                assert(chunks_view(r@) =~= chunks_view(prev).push(entry));
                assert(nonempty_chunks(*world, (k + 1) as nat) == nonempty_chunks(
                    *world,
                    k as nat,
                ).push(k as int));
                assert(nonempty_chunks(*world, (k + 1) as nat).map_values(f) =~= nonempty_chunks(
                    *world,
                    k as nat,
                ).map_values(f).push(f(k as int)));
            }
        }
        k = k + 1;
    }
    r
}

/// Both saved coordinates of a block lie inside its chunk.
pub open spec fn saved_block_ok(b: SavedBlock) -> bool {
    b.0 < 16 && b.1 < 16
}

/// A list of saved chunks that a world can hold: every block lies inside
/// its chunk and every chunk is reachable from `i32` cell coordinates.
pub open spec fn loadable(cs: Seq<((i32, i32), Seq<SavedBlock>)>) -> bool {
    forall|i: int|
        0 <= i < cs.len() ==> {
            &&& crate::world::key_in_range(#[trigger] cs[i].0.0 as int, cs[i].0.1 as int)
            &&& forall|t: int| 0 <= t < cs[i].1.len() ==> saved_block_ok(#[trigger] cs[i].1[t])
        }
}

/// The local index that a saved block names.
pub open spec fn saved_local(b: SavedBlock) -> int {
    b.1 as int * 16 + b.0 as int
}

/// The block that loading leaves at local index `j` of a chunk saved as
/// `bs`: the last record for `j`, or air where there is none.
pub open spec fn loaded_block(bs: Seq<SavedBlock>, j: int) -> Block
    decreases bs.len(),
{
    if bs.len() == 0 {
        plain(BlockId::Air)
    } else if saved_local(bs.last()) == j {
        bs.last().2
    } else {
        loaded_block(bs.drop_last(), j)
    }
}

/// `m` with the chunk `(cx, cy)` replaced by the chunk saved as `bs`.
pub open spec fn load_chunk(
    m: Map<(int, int), Block>,
    cx: int,
    cy: int,
    bs: Seq<SavedBlock>,
) -> Map<(int, int), Block> {
    Map::new(
        |p: (int, int)| m.dom().contains(p) || in_chunk(p, cx, cy),
        |p: (int, int)|
            if in_chunk(p, cx, cy) {
                loaded_block(bs, local_index(p.0, p.1))
            } else {
                m[p]
            },
    )
}

/// The world that a list of saved chunks describes: the chunks are loaded
/// in order, and a chunk saved twice keeps its last record.
pub open spec fn spec_load(cs: Seq<((i32, i32), Seq<SavedBlock>)>) -> Map<(int, int), Block>
    decreases cs.len(),
{
    if cs.len() == 0 {
        Map::empty()
    } else {
        let e = cs.last();
        load_chunk(spec_load(cs.drop_last()), e.0.0 as int, e.0.1 as int, e.1)
    }
}

/// Replaces the stored chunk `k` by the chunk saved as `bs`.
fn fill_chunk(world: &mut World, k: usize, bs: &Vec<SavedBlock>)
    requires
        old(world).wf(),
        k < old(world).keys.len(),
        forall|t: int| 0 <= t < bs@.len() ==> saved_block_ok(#[trigger] bs@[t]),
    ensures
        final(world).wf(),
        final(world).keys@ == old(world).keys@,
        final(world)@ == load_chunk(
            old(world)@,
            old(world).keys@[k as int].0 as int,
            old(world).keys@[k as int].1 as int,
            bs@,
        ),
{
    let ghost m0 = world@;
    let ghost cx = world.keys@[k as int].0 as int;
    let ghost cy = world.keys@[k as int].1 as int;
    proof {
        world.lemma_chunk_index(k as int);
        assert forall|p: (int, int)| in_chunk(p, cx, cy) implies #[trigger] m0.dom().contains(p) by {
            assert(world.key_is(k as int, chunk_of(p.0), chunk_of(p.1)));
        }
    }
    let mut j: usize = 0;
    while j < CHUNK_CELLS
        invariant
            j <= 256,
            world.wf(),
            k < world.keys.len(),
            world.keys@ == old(world).keys@,
            cx == world.keys@[k as int].0,
            cy == world.keys@[k as int].1,
            forall|p: (int, int)| in_chunk(p, cx, cy) ==> #[trigger] m0.dom().contains(p),
            world@ == Map::new(
                |p: (int, int)| m0.dom().contains(p),
                |p: (int, int)|
                    if in_chunk(p, cx, cy) && local_index(p.0, p.1) < j {
                        plain(BlockId::Air)
                    } else {
                        m0[p]
                    },
            ),
        decreases 256 - j,
    {
        let ghost before = world@;
        world.set_at(k, j, Block::air());
        proof {
            crate::world::lemma_cell_pos(cx, cy, j as int);
            assert forall|p: (int, int)| #[trigger] m0.dom().contains(p) && in_chunk(p, cx, cy)
                && local_index(p.0, p.1) == j implies p == world.pos_of(k as int, j as int) by {
                crate::world::lemma_local_pos(p.0, p.1);
            }
            assert(world@ =~= Map::new(
                |p: (int, int)| m0.dom().contains(p),
                |p: (int, int)|
                    if in_chunk(p, cx, cy) && local_index(p.0, p.1) < j + 1 {
                        plain(BlockId::Air)
                    } else {
                        m0[p]
                    },
            ));
        }
        j = j + 1;
    }
    proof {
        assert(world@ =~= load_chunk(m0, cx, cy, bs@.take(0)));
    }
    let mut t: usize = 0;
    while t < bs.len()
        invariant
            t <= bs@.len(),
            world.wf(),
            k < world.keys.len(),
            world.keys@ == old(world).keys@,
            cx == world.keys@[k as int].0,
            cy == world.keys@[k as int].1,
            forall|i: int| 0 <= i < bs@.len() ==> saved_block_ok(#[trigger] bs@[i]),
            world@ == load_chunk(m0, cx, cy, bs@.take(t as int)),
        decreases bs@.len() - t,
    {
        let (lx, ly, b) = bs[t];
        proof {
            assert(saved_block_ok(bs@[t as int]));
        }
        let jj: usize = (ly as usize) * 16 + (lx as usize);
        world.set_at(k, jj, b);
        proof {
            let taken = bs@.take(t + 1);
            assert(taken.drop_last() =~= bs@.take(t as int));
            assert(taken.last() == bs@[t as int]);
            crate::world::lemma_cell_pos(cx, cy, jj as int);
            assert forall|p: (int, int)| #[trigger] in_chunk(p, cx, cy) && local_index(p.0, p.1)
                == jj implies p == world.pos_of(k as int, jj as int) by {
                crate::world::lemma_local_pos(p.0, p.1);
            }
            assert(world@ =~= load_chunk(m0, cx, cy, taken));
        }
        t = t + 1;
    }
    proof {
        assert(bs@.take(bs@.len() as int) =~= bs@);
    }
}

/// The world that a project file's chunk list describes.
pub fn world_from_chunks(chunks: &Vec<SavedChunk>) -> (r: World)
    requires
        loadable(chunks_view(chunks@)),
    ensures
        r.wf(),
        r@ == spec_load(chunks_view(chunks@)),
{
    let mut world = World { keys: Vec::new(), cells: Vec::new() };
    proof {
        assert(world@ =~= spec_load(chunks_view(chunks@).take(0)));
    }
    let mut i: usize = 0;
    while i < chunks.len()
        invariant
            i <= chunks@.len(),
            world.wf(),
            loadable(chunks_view(chunks@)),
            world@ == spec_load(chunks_view(chunks@).take(i as int)),
        decreases chunks@.len() - i,
    {
        let ghost cv = chunks_view(chunks@);
        let key = chunks[i].0;
        proof {
            assert(cv[i as int].0 == key);
            assert(crate::world::key_in_range(cv[i as int].0.0 as int, cv[i as int].0.1 as int));
        }
        world.expand_to_chunk(key.0, key.1);
        proof {
            let p = crate::world::cell_pos(key.0 as int, key.1 as int, 0);
            crate::world::lemma_cell_pos(key.0 as int, key.1 as int, 0);
            assert(world@.dom().contains(p));
        }
        let k = match world.find_chunk(key.0, key.1) {
            Some(k) => k,
            None => {
                proof {
                    let p = crate::world::cell_pos(key.0 as int, key.1 as int, 0);
                    assert(world@.dom().contains(p));
                    assert(false);
                }
                0
            },
        };
        proof {
            assert forall|t: int| 0 <= t < chunks@[i as int].1@.len() implies saved_block_ok(
                #[trigger] chunks@[i as int].1@[t],
            ) by {
                assert(cv[i as int].1 == chunks@[i as int].1@);
            }
        }
        let ghost m1 = world@;
        fill_chunk(&mut world, k, &chunks[i].1);
        proof {
            let taken = cv.take(i + 1);
            assert(taken.drop_last() =~= cv.take(i as int));
            assert(taken.last() == cv[i as int]);
            assert(world@ =~= spec_load(taken)) by {
                assert forall|p: (int, int)| #[trigger] m1.dom().contains(p) implies world@.dom().contains(p) by {}
            }
        }
        i = i + 1;
    }
    proof {
        assert(chunks_view(chunks@).take(chunks@.len() as int) =~= chunks_view(chunks@));
    }
    world
}

/// A block as a project file gives it back: air loses any state it had.
pub open spec fn restored(b: Block) -> Block {
    if b.id == BlockId::Air {
        plain(BlockId::Air)
    } else {
        b
    }
}

/// Some cell of the chunk `(cx, cy)` holds a non-air block.
pub open spec fn chunk_in_use(m: Map<(int, int), Block>, cx: int, cy: int) -> bool {
    exists|q: (int, int)|
        in_chunk(q, cx, cy) && #[trigger] m.dom().contains(q) && m[q].id != BlockId::Air
}

/// What a project file keeps of a world: the chunks that hold a non-air
/// block, with air blocks reset.
pub open spec fn saved_part(m: Map<(int, int), Block>) -> Map<(int, int), Block> {
    Map::new(
        |p: (int, int)| m.dom().contains(p) && chunk_in_use(m, chunk_of(p.0), chunk_of(p.1)),
        |p: (int, int)| restored(m[p]),
    )
}

proof fn lemma_nonair_locals(cb: Seq<Block>, n: nat)
    requires
        n <= cb.len(),
    ensures
        forall|i: int|
            0 <= i < nonair_locals(cb, n).len() ==> 0 <= #[trigger] nonair_locals(cb, n)[i] < n
                && cb[nonair_locals(cb, n)[i]].id != BlockId::Air,
        (exists|j: int| 0 <= j < n && cb[j].id != BlockId::Air) ==> nonair_locals(cb, n).len()
            > 0,
    decreases n,
{
    if n > 0 {
        lemma_nonair_locals(cb, (n - 1) as nat);
        if nonair_locals(cb, n).len() == 0 {
            assert forall|j: int| 0 <= j < n implies cb[j].id == BlockId::Air by {
                if j < n - 1 {
                } else {
                }
            }
        }
    }
}

proof fn lemma_saved_local(j: int)
    requires
        0 <= j < 256,
    ensures
        saved_local(saved_block(j, plain(BlockId::Air))) == j,
        saved_block_ok(saved_block(j, plain(BlockId::Air))),
{
    assert(0 <= j % 16 < 16);
    assert(0 <= j / 16 < 16);
    assert(j == (j / 16) * 16 + j % 16);
}

/// Loading the saved blocks of a chunk gives back each of its blocks.
proof fn lemma_chunk_round_trip(cb: Seq<Block>, n: nat)
    requires
        n <= 256,
        cb.len() == 256,
    ensures
        forall|j: int|
            0 <= j < 256 ==> #[trigger] loaded_block(saved_upto(cb, n), j) == if j < n {
                restored(cb[j])
            } else {
                plain(BlockId::Air)
            },
    decreases n,
{
    let g = |i: int| saved_block(i, cb[i]);
    if n > 0 {
        let m = (n - 1) as nat;
        lemma_chunk_round_trip(cb, m);
        let prev = saved_upto(cb, m);
        let cur = saved_upto(cb, n);
        if cb[m as int].id != BlockId::Air {
            assert(cur.drop_last() =~= prev);
            assert(cur.last() == g(m as int));
            lemma_saved_local(m as int);
            assert(saved_local(g(m as int)) == m);
            assert forall|j: int| 0 <= j < 256 implies #[trigger] loaded_block(cur, j) == if j < n {
                restored(cb[j])
            } else {
                plain(BlockId::Air)
            } by {
                if j != m {
                    assert(loaded_block(cur, j) == loaded_block(prev, j));
                }
            }
        } else {
            assert(cur =~= prev);
        }
    }
}

/// The world described by the first `n` chunks of `spec_saved(w)`: the
/// in-use chunks among the first `n` stored ones.
pub open spec fn saved_prefix(w: World, n: int) -> Map<(int, int), Block> {
    Map::new(
        |p: (int, int)|
            w@.dom().contains(p) && w.chunk_index(chunk_of(p.0), chunk_of(p.1)) < n && chunk_in_use(
                w@,
                chunk_of(p.0),
                chunk_of(p.1),
            ),
        |p: (int, int)| restored(w@[p]),
    )
}

proof fn lemma_save_load_prefix(w: World, n: nat)
    requires
        w.wf(),
        n <= w.keys.len(),
    ensures
        spec_load(
            nonempty_chunks(w, n).map_values(
                |k: int| (w.keys@[k], saved_blocks(chunk_blocks(w, k))),
            ),
        ) == saved_prefix(w, n as int),
    decreases n,
{
    let f = |k: int| (w.keys@[k], saved_blocks(chunk_blocks(w, k)));
    if n == 0 {
        assert(saved_prefix(w, 0) =~= Map::empty()) by {
            assert forall|p: (int, int)| !#[trigger] saved_prefix(w, 0).dom().contains(p) by {
                if w@.dom().contains(p) {
                    w.lemma_in_dom(p);
                }
            }
        }
        assert(nonempty_chunks(w, 0).map_values(f) =~= Seq::empty());
    } else {
        let m = (n - 1) as nat;
        lemma_save_load_prefix(w, m);
        let cb = chunk_blocks(w, m as int);
        let cx = w.keys@[m as int].0 as int;
        let cy = w.keys@[m as int].1 as int;
        w.lemma_chunk_index(m as int);
        lemma_nonair_locals(cb, 256);
        let prev = nonempty_chunks(w, m).map_values(f);
        let cur = nonempty_chunks(w, n).map_values(f);
        // The chunk `m` is in use exactly when it saves a block.
        let used = nonair_locals(cb, 256).len() > 0;
        assert(used == chunk_in_use(w@, cx, cy)) by {
            if used {
                let j = nonair_locals(cb, 256)[0];
                let q = crate::world::cell_pos(cx, cy, j);
                crate::world::lemma_cell_pos(cx, cy, j);
                w.lemma_pos_of(m as int, j);
                assert(w@.dom().contains(q));
            }
            if chunk_in_use(w@, cx, cy) {
                let q = choose|q: (int, int)|
                    in_chunk(q, cx, cy) && #[trigger] w@.dom().contains(q) && w@[q].id
                        != BlockId::Air;
                let j = local_index(q.0, q.1);
                crate::world::lemma_local_pos(q.0, q.1);
                w.lemma_pos_of(m as int, j);
                assert(cb[j].id != BlockId::Air);
            }
        }
        assert forall|p: (int, int)| #[trigger] w@.dom().contains(p) implies (w.chunk_index(
            chunk_of(p.0),
            chunk_of(p.1),
        ) == m <==> in_chunk(p, cx, cy)) by {
            w.lemma_in_dom(p);
        }
        if used {
            lemma_chunk_round_trip(cb, 256);
            assert(cur.drop_last() =~= prev);
            assert(cur.last() == f(m as int));
            assert forall|p: (int, int)| in_chunk(p, cx, cy) implies #[trigger] w@.dom().contains(
                p,
            ) && loaded_block(saved_blocks(cb), local_index(p.0, p.1)) == restored(w@[p]) by {
                crate::world::lemma_local_pos(p.0, p.1);
                w.lemma_pos_of(m as int, local_index(p.0, p.1));
            }
            assert(spec_load(cur) =~= saved_prefix(w, n as int));
        } else {
            assert(cur =~= prev);
            assert(spec_load(cur) =~= saved_prefix(w, n as int));
        }
    }
}

/// Saving a world and loading what was saved gives back every chunk that
/// holds a non-air block, block for block (air blocks come back plain);
/// chunks of air alone are not saved.
pub proof fn lemma_save_load(w: World)
    requires
        w.wf(),
    ensures
        spec_load(spec_saved(w)) == saved_part(w@),
{
    lemma_save_load_prefix(w, w.keys.len() as nat);
    assert(saved_prefix(w, w.keys.len() as int) =~= saved_part(w@)) by {
        assert forall|p: (int, int)| #[trigger] w@.dom().contains(p) implies w.chunk_index(
            chunk_of(p.0),
            chunk_of(p.1),
        ) < w.keys.len() by {
            w.lemma_in_dom(p);
        }
    }
}

} // verus!
