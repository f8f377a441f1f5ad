use vstd::prelude::*;

use crate::block::{
    plain, spec_encode_comparator, spec_encode_lever, spec_encode_repeater, spec_encode_torch,
    with_data, Block, BlockId, ComparatorMode, Direction,
};
use crate::constants::{CHUNK_CELLS, CHUNK_SIZE, CHUNK_SIZE_I32, TEST_CIRCUIT_OFFSET, WORLD_CHUNKS_X};

verus! {

/// Chunk coordinates that some `i32` cell can lie in.
pub open spec fn key_in_range(cx: int, cy: int) -> bool {
    &&& -0x800_0000 <= cx < 0x800_0000
    &&& -0x800_0000 <= cy < 0x800_0000
}

/// The chunk that holds a cell (floor division by the chunk size).
pub open spec fn chunk_of(v: int) -> int {
    v / 16
}

/// Where a cell sits inside its chunk's row-major block list.
pub open spec fn local_index(x: int, y: int) -> int {
    (y % 16) * 16 + (x % 16)
}

/// The cell at local index `j` of chunk `(cx, cy)`.
pub open spec fn cell_pos(cx: int, cy: int, j: int) -> (int, int) {
    (cx * 16 + j % 16, cy * 16 + j / 16)
}

/// The cell `(x, y)` as a world-map key.
pub open spec fn pos(x: int, y: int) -> (int, int) {
    (x, y)
}

/// Every cell of the chunk `(cx, cy)` is present in `m`.
pub open spec fn in_chunk(p: (int, int), cx: int, cy: int) -> bool {
    chunk_of(p.0) == cx && chunk_of(p.1) == cy
}

/// `m` with the chunk `(cx, cy)` loaded: cells that were absent become air.
pub open spec fn expanded(m: Map<(int, int), Block>, cx: int, cy: int) -> Map<(int, int), Block> {
    Map::new(
        |p: (int, int)| m.dom().contains(p) || in_chunk(p, cx, cy),
        |p: (int, int)|
            if m.dom().contains(p) {
                m[p]
            } else {
                plain(BlockId::Air)
            },
    )
}

/// Whole chunks are loaded: a map holding one cell of a chunk holds all.
pub open spec fn chunk_closed(m: Map<(int, int), Block>) -> bool {
    forall|p: (int, int), q: (int, int)|
        #![trigger m.dom().contains(p), m.dom().contains(q)]
        m.dom().contains(p) && chunk_of(q.0) == chunk_of(p.0) && chunk_of(q.1) == chunk_of(p.1)
            ==> m.dom().contains(q)
}

/// In a map of whole chunks, loading the chunk of a loaded cell changes
/// nothing.
pub proof fn lemma_expanded_loaded(m: Map<(int, int), Block>, x: int, y: int)
    requires
        chunk_closed(m),
        m.dom().contains((x, y)),
    ensures
        expanded(m, chunk_of(x), chunk_of(y)) == m,
{
    assert forall|q: (int, int)| in_chunk(q, chunk_of(x), chunk_of(y)) implies #[trigger] m.dom().contains(q) by {
        assert(m.dom().contains((x, y)) && m.dom().contains(q));
    }
    assert(expanded(m, chunk_of(x), chunk_of(y)) =~= m);
}

/// Loading a chunk keeps a map of whole chunks whole.
pub proof fn lemma_expanded_closed(m: Map<(int, int), Block>, cx: int, cy: int)
    requires
        chunk_closed(m),
    ensures
        chunk_closed(expanded(m, cx, cy)),
{
    let e = expanded(m, cx, cy);
    assert forall|p: (int, int), q: (int, int)|
        #![trigger e.dom().contains(p), e.dom().contains(q)]
        e.dom().contains(p) && chunk_of(q.0) == chunk_of(p.0) && chunk_of(q.1) == chunk_of(p.1)
            implies e.dom().contains(q) by {
        if m.dom().contains(p) {
            assert(m.dom().contains(p) && m.dom().contains(q));
        }
    }
}

/// Loading a chunk twice is loading it once.
pub proof fn lemma_expand_twice(m: Map<(int, int), Block>, cx: int, cy: int)
    ensures
        expanded(expanded(m, cx, cy), cx, cy) == expanded(m, cx, cy),
{
    assert(expanded(expanded(m, cx, cy), cx, cy) =~= expanded(m, cx, cy));
}

/// The effect of `World::set` on the world map.
pub open spec fn spec_set(m: Map<(int, int), Block>, x: int, y: int, b: Block) -> Map<
    (int, int),
    Block,
> {
    expanded(m, chunk_of(x), chunk_of(y)).insert((x, y), b)
}

/// A read gives back what a write wrote: after `set`, the cell holds the
/// new block, every other loaded cell is unchanged, and only the written
/// cell's chunk can have been loaded.
pub proof fn lemma_set_then_get(m: Map<(int, int), Block>, x: int, y: int, b: Block, q: (int, int))
    ensures
        spec_set(m, x, y, b).dom().contains((x, y)),
        spec_set(m, x, y, b)[(x, y)] == b,
        m.dom().contains(q) && q != (x, y) ==> spec_set(m, x, y, b).dom().contains(q)
            && spec_set(m, x, y, b)[q] == m[q],
        spec_set(m, x, y, b).dom().contains(q) ==> m.dom().contains(q) || in_chunk(
            q,
            chunk_of(x),
            chunk_of(y),
        ),
{
}

/// A second write to a cell overrides the first.
pub proof fn lemma_set_twice(m: Map<(int, int), Block>, x: int, y: int, a: Block, b: Block)
    ensures
        spec_set(spec_set(m, x, y, a), x, y, b) == spec_set(m, x, y, b),
{
    assert(spec_set(spec_set(m, x, y, a), x, y, b) =~= spec_set(m, x, y, b));
}

/// A 16 x 16 square of blocks, stored row by row (`blocks[ly * 16 + lx]`).
#[derive(Clone, Debug)]
pub struct Chunk {
    pub blocks: Vec<Block>,
}

impl Chunk {
    pub open spec fn wf(&self) -> bool {
        self.blocks.len() == 256
    }

    /// A chunk of air.
    pub fn new() -> (r: Self)
        ensures
            r.wf(),
            forall|j: int| 0 <= j < 256 ==> r.blocks@[j] == plain(BlockId::Air),
    {
        let mut blocks: Vec<Block> = Vec::new();
        let mut j: usize = 0;
        while j < CHUNK_CELLS
            invariant
                j <= 256,
                blocks.len() == j,
                forall|k: int| 0 <= k < j ==> blocks@[k] == plain(BlockId::Air),
            decreases 256 - j,
        {
            blocks.push(Block::air());
            j = j + 1;
        }
        Chunk { blocks }
    }
}

/// The loaded world: a set of chunks, each identified by its chunk
/// coordinates. `keys[k]` names the chunk whose blocks are
/// `cells[k * 256 .. (k + 1) * 256]`.
pub struct World {
    pub keys: Vec<(i32, i32)>,
    pub cells: Vec<Block>,
}

impl View for World {
    type V = Map<(int, int), Block>;

    /// Every cell of every loaded chunk, by its world coordinates.
    open spec fn view(&self) -> Map<(int, int), Block> {
        Map::new(
            |p: (int, int)| self.has_chunk(chunk_of(p.0), chunk_of(p.1)),
            |p: (int, int)|
                self.cells@[self.chunk_index(chunk_of(p.0), chunk_of(p.1)) * 256 + local_index(
                    p.0,
                    p.1,
                )],
        )
    }
}

impl World {
    pub open spec fn key_is(&self, k: int, cx: int, cy: int) -> bool {
        self.keys@[k].0 == cx && self.keys@[k].1 == cy
    }

    pub open spec fn has_chunk(&self, cx: int, cy: int) -> bool {
        exists|k: int| 0 <= k < self.keys.len() && #[trigger] self.key_is(k, cx, cy)
    }

    pub open spec fn chunk_index(&self, cx: int, cy: int) -> int {
        choose|k: int| 0 <= k < self.keys.len() && #[trigger] self.key_is(k, cx, cy)
    }

    /// The world's invariant: one block list of 256 cells per chunk, no
    /// chunk twice, and every chunk reachable from `i32` cell coordinates.
    pub open spec fn wf(&self) -> bool {
        &&& self.cells.len() == self.keys.len() * 256
        &&& forall|a: int, b: int|
            0 <= a < self.keys.len() && 0 <= b < self.keys.len() && a != b ==> #[trigger] self.keys@[a]
                != #[trigger] self.keys@[b]
        &&& forall|k: int|
            0 <= k < self.keys.len() ==> key_in_range(
                #[trigger] self.keys@[k].0 as int,
                self.keys@[k].1 as int,
            )
    }

    /// The cell at local index `j` of the `k`-th stored chunk.
    pub open spec fn pos_of(&self, k: int, j: int) -> (int, int) {
        cell_pos(self.keys@[k].0 as int, self.keys@[k].1 as int, j)
    }

    pub proof fn lemma_chunk_index(&self, k: int)
        requires
            self.wf(),
            0 <= k < self.keys.len(),
        ensures
            self.has_chunk(self.keys@[k].0 as int, self.keys@[k].1 as int),
            self.chunk_index(self.keys@[k].0 as int, self.keys@[k].1 as int) == k,
    {
        let cx = self.keys@[k].0 as int;
        let cy = self.keys@[k].1 as int;
        assert(self.key_is(k, cx, cy));
        let c = self.chunk_index(cx, cy);
        assert(self.key_is(c, cx, cy));
        assert(self.keys@[c] == self.keys@[k]);
    }

    /// The cell at local index `j` of the `k`-th stored chunk is in the
    /// world map and holds `cells[k * 256 + j]`.
    pub proof fn lemma_pos_of(&self, k: int, j: int)
        requires
            self.wf(),
            0 <= k < self.keys.len(),
            0 <= j < 256,
        ensures
            ({
                let p = self.pos_of(k, j);
                &&& chunk_of(p.0) == self.keys@[k].0
                &&& chunk_of(p.1) == self.keys@[k].1
                &&& local_index(p.0, p.1) == j
                &&& self@.dom().contains(p)
                &&& self@[p] == self.cells@[k * 256 + j]
                &&& i32::MIN <= p.0 <= i32::MAX
                &&& i32::MIN <= p.1 <= i32::MAX
            }),
    {
        let cx = self.keys@[k].0 as int;
        let cy = self.keys@[k].1 as int;
        let p = self.pos_of(k, j);
        lemma_cell_pos(cx, cy, j);
        self.lemma_chunk_index(k);
        assert(key_in_range(self.keys@[k].0 as int, self.keys@[k].1 as int));
    }

    /// A cell of the world map is the cell at its local index of the chunk
    /// that holds it.
    pub proof fn lemma_in_dom(&self, p: (int, int))
        requires
            self.wf(),
            self@.dom().contains(p),
        ensures
            ({
                let k = self.chunk_index(chunk_of(p.0), chunk_of(p.1));
                &&& 0 <= k < self.keys.len()
                &&& self.key_is(k, chunk_of(p.0), chunk_of(p.1))
                &&& 0 <= local_index(p.0, p.1) < 256
                &&& self.pos_of(k, local_index(p.0, p.1)) == p
                &&& self@[p] == self.cells@[k * 256 + local_index(p.0, p.1)]
                &&& i32::MIN <= p.0 <= i32::MAX
                &&& i32::MIN <= p.1 <= i32::MAX
            }),
    {
        let k = self.chunk_index(chunk_of(p.0), chunk_of(p.1));
        assert(self.key_is(k, chunk_of(p.0), chunk_of(p.1)));
        lemma_local_pos(p.0, p.1);
        assert(key_in_range(self.keys@[k].0 as int, self.keys@[k].1 as int));
    }

    /// Cells outside the `i32` range are never loaded.
    pub proof fn lemma_out_of_range(&self, x: int, y: int)
        requires
            self.wf(),
            !(i32::MIN <= x <= i32::MAX && i32::MIN <= y <= i32::MAX),
        ensures
            !self@.dom().contains((x, y)),
    {
        if self@.dom().contains((x, y)) {
            self.lemma_in_dom((x, y));
        }
    }

    /// Writing the flat cell `k * 256 + j` changes exactly the world cell
    /// `pos_of(k, j)`.
    pub proof fn lemma_write_index(&self, other: &World, k: int, j: int, b: Block)
        requires
            self.wf(),
            0 <= k < self.keys.len(),
            0 <= j < 256,
            other.keys@ == self.keys@,
            other.cells@ == self.cells@.update(k * 256 + j, b),
        ensures
            other.wf(),
            other@ == self@.insert(self.pos_of(k, j), b),
    {
        let p = self.pos_of(k, j);
        self.lemma_pos_of(k, j);
        assert(other.wf());
        assert forall|q: (int, int)| #[trigger] other@.dom().contains(q) <==> self@.insert(
            p,
            b,
        ).dom().contains(q) by {
            assert(other.has_chunk(chunk_of(q.0), chunk_of(q.1)) == self.has_chunk(
                chunk_of(q.0),
                chunk_of(q.1),
            )) by {
                if other.has_chunk(chunk_of(q.0), chunk_of(q.1)) {
                    let c = choose|c: int|
                        0 <= c < other.keys.len() && #[trigger] other.key_is(
                            c,
                            chunk_of(q.0),
                            chunk_of(q.1),
                        );
                    assert(self.key_is(c, chunk_of(q.0), chunk_of(q.1)));
                }
                if self.has_chunk(chunk_of(q.0), chunk_of(q.1)) {
                    let c = choose|c: int|
                        0 <= c < self.keys.len() && #[trigger] self.key_is(
                            c,
                            chunk_of(q.0),
                            chunk_of(q.1),
                        );
                    assert(other.key_is(c, chunk_of(q.0), chunk_of(q.1)));
                }
            }
        }
        assert forall|q: (int, int)| #[trigger] other@.dom().contains(q) implies other@[q]
            == self@.insert(p, b)[q] by {
            self.lemma_in_dom(q);
            let kq = self.chunk_index(chunk_of(q.0), chunk_of(q.1));
            assert(other.chunk_index(chunk_of(q.0), chunk_of(q.1)) == kq);
            if q == p {
            } else {
                lemma_flat_distinct(self, k, j, kq, local_index(q.0, q.1));
            }
        }
        assert(other@ =~= self@.insert(p, b));
    }
}

pub proof fn lemma_cell_pos(cx: int, cy: int, j: int)
    requires
        0 <= j < 256,
    ensures
        chunk_of(cell_pos(cx, cy, j).0) == cx,
        chunk_of(cell_pos(cx, cy, j).1) == cy,
        local_index(cell_pos(cx, cy, j).0, cell_pos(cx, cy, j).1) == j,
{
    let p = cell_pos(cx, cy, j);
    assert(0 <= j % 16 < 16);
    assert(0 <= j / 16 < 16);
    assert(j == (j / 16) * 16 + j % 16);
    vstd::arithmetic::div_mod::lemma_fundamental_div_mod_converse(p.0, 16, cx, j % 16);
    vstd::arithmetic::div_mod::lemma_fundamental_div_mod_converse(p.1, 16, cy, j / 16);
}

pub proof fn lemma_local_pos(x: int, y: int)
    ensures
        0 <= local_index(x, y) < 256,
        cell_pos(chunk_of(x), chunk_of(y), local_index(x, y)) == (x, y),
{
    let l = local_index(x, y);
    assert(0 <= x % 16 < 16);
    assert(0 <= y % 16 < 16);
    assert(x == chunk_of(x) * 16 + x % 16);
    assert(y == chunk_of(y) * 16 + y % 16);
    vstd::arithmetic::div_mod::lemma_fundamental_div_mod_converse(l, 16, y % 16, x % 16);
}

proof fn lemma_flat_distinct(w: &World, k1: int, j1: int, k2: int, j2: int)
    requires
        w.wf(),
        0 <= k1 < w.keys.len(),
        0 <= k2 < w.keys.len(),
        0 <= j1 < 256,
        0 <= j2 < 256,
        w.pos_of(k1, j1) != w.pos_of(k2, j2),
    ensures
        k1 * 256 + j1 != k2 * 256 + j2,
{
    if k1 * 256 + j1 == k2 * 256 + j2 {
        if k1 < k2 {
            assert(k1 * 256 + j1 < (k1 + 1) * 256);
            assert((k1 + 1) * 256 <= k2 * 256);
        } else if k2 < k1 {
            assert(k2 * 256 + j2 < (k2 + 1) * 256);
            assert((k2 + 1) * 256 <= k1 * 256);
        }
    }
}

/// Floor division of a coordinate by the chunk size.
fn floor_div16(v: i32) -> (r: i32)
    ensures
        r == chunk_of(v as int),
        -0x800_0000 <= r < 0x800_0000,
{
    match v.checked_div_euclid(CHUNK_SIZE_I32) {
        Some(q) => q,
        None => 0,
    }
}

pub open spec fn air_cells(m: Map<(int, int), Block>) -> Map<(int, int), Block> {
    Map::new(|p: (int, int)| m.dom().contains(p), |p: (int, int)| plain(BlockId::Air))
}

/// The chunks `0 <= cx < chunks_x`, `0 <= cy < chunks_y`, all air.
pub open spec fn spec_new_world(chunks_x: int, chunks_y: int) -> Map<(int, int), Block> {
    Map::new(
        |p: (int, int)|
            0 <= chunk_of(p.0) < chunks_x && 0 <= chunk_of(p.1) < chunks_y,
        |p: (int, int)| plain(BlockId::Air),
    )
}

impl World {
    pub proof fn lemma_has_chunk_dom(&self, cx: int, cy: int)
        requires
            self.wf(),
        ensures
            self.has_chunk(cx, cy) <==> self@.dom().contains(cell_pos(cx, cy, 0)),
    {
        lemma_cell_pos(cx, cy, 0);
    }

    proof fn lemma_push_chunk(old: &World, new: &World, cx: int, cy: int)
        requires
            old.wf(),
            !old.has_chunk(cx, cy),
            key_in_range(cx, cy),
            new.keys@.len() == old.keys@.len() + 1,
            new.keys@.drop_last() == old.keys@,
            new.keys@.last().0 == cx,
            new.keys@.last().1 == cy,
            new.cells@.len() == old.cells@.len() + 256,
            new.cells@.subrange(0, old.cells@.len() as int) == old.cells@,
            forall|i: int|
                old.cells@.len() <= i < new.cells@.len() ==> new.cells@[i] == plain(BlockId::Air),
        ensures
            new.wf(),
            new@ == expanded(old@, cx, cy),
    {
        let n = old.keys.len() as int;
        assert forall|a: int| 0 <= a < n implies new.keys@[a] == old.keys@[a] by {
            assert(new.keys@.drop_last()[a] == new.keys@[a]);
        }
        assert forall|a: int| 0 <= a < n implies new.keys@[a] != new.keys@[n] by {
            if new.keys@[a] == new.keys@[n] {
                assert(old.key_is(a, cx, cy));
            }
        }
        assert forall|i: int| 0 <= i < old.cells@.len() implies new.cells@[i] == old.cells@[i] by {
            assert(new.cells@.subrange(0, old.cells@.len() as int)[i] == new.cells@[i]);
        }
        assert(new.wf());
        let e = expanded(old@, cx, cy);
        assert forall|q: (int, int)| #[trigger] new@.dom().contains(q) <==> e.dom().contains(q) by {
            let qx = chunk_of(q.0);
            let qy = chunk_of(q.1);
            if new.has_chunk(qx, qy) {
                let c = choose|c: int| 0 <= c < new.keys.len() && #[trigger] new.key_is(c, qx, qy);
                if c < n {
                    assert(old.key_is(c, qx, qy));
                }
            }
            if old.has_chunk(qx, qy) {
                let c = choose|c: int| 0 <= c < old.keys.len() && #[trigger] old.key_is(c, qx, qy);
                assert(new.key_is(c, qx, qy));
            }
            if in_chunk(q, cx, cy) {
                assert(new.key_is(n, qx, qy));
            }
        }
        assert forall|q: (int, int)| #[trigger] new@.dom().contains(q) implies new@[q] == e[q] by {
            new.lemma_in_dom(q);
            let qx = chunk_of(q.0);
            let qy = chunk_of(q.1);
            let c = new.chunk_index(qx, qy);
            let l = local_index(q.0, q.1);
            if c < n {
                assert(old.key_is(c, qx, qy));
                old.lemma_chunk_index(c);
                assert(c * 256 + l < n * 256);
            } else {
                assert(!old.has_chunk(qx, qy)) by {
                    if old.has_chunk(qx, qy) {
                        let c2 = choose|c2: int|
                            0 <= c2 < old.keys.len() && #[trigger] old.key_is(c2, qx, qy);
                        assert(new.key_is(c2, qx, qy));
                    }
                }
                assert(n * 256 <= c * 256 + l);
            }
        }
        assert(new@ =~= e);
    }

    /// Appends an air chunk that is not loaded yet.
    fn push_chunk(&mut self, cx: i32, cy: i32)
        requires
            old(self).wf(),
            !old(self).has_chunk(cx as int, cy as int),
            key_in_range(cx as int, cy as int),
        ensures
            final(self).wf(),
            final(self).keys@ == old(self).keys@.push((cx, cy)),
            final(self)@ == expanded(old(self)@, cx as int, cy as int),
    {
        let ghost n = self.cells.len() as int;
        self.keys.push((cx, cy));
        let mut j: usize = 0;
        while j < CHUNK_CELLS
            invariant
                j <= 256,
                n == old(self).cells@.len(),
                self.keys@ == old(self).keys@.push((cx, cy)),
                self.cells@.len() == n + j,
                self.cells@.subrange(0, n) == old(self).cells@,
                forall|i: int| n <= i < self.cells@.len() ==> self.cells@[i] == plain(BlockId::Air),
            decreases 256 - j,
        {
            self.cells.push(Block::air());
            proof {
                assert(self.cells@.subrange(0, n) =~= old(self).cells@);
            }
            j = j + 1;
        }
        proof {
            assert(self.keys@.drop_last() =~= old(self).keys@);
            World::lemma_push_chunk(&*old(self), self, cx as int, cy as int);
        }
    }

    /// Finds the stored index of the chunk `(cx, cy)`.
    pub(crate) fn find_chunk(&self, cx: i32, cy: i32) -> (r: Option<usize>)
        requires
            self.wf(),
        ensures
            match r {
                Some(k) => k < self.keys.len() && self.key_is(k as int, cx as int, cy as int),
                None => !self.has_chunk(cx as int, cy as int),
            },
    {
        let mut k: usize = 0;
        while k < self.keys.len()
            invariant
                k <= self.keys.len(),
                forall|a: int| 0 <= a < k ==> !#[trigger] self.key_is(a, cx as int, cy as int),
            decreases self.keys.len() - k,
        {
            let key = self.keys[k];
            if key.0 == cx && key.1 == cy {
                return Some(k);
            }
            k = k + 1;
        }
        None
    }

    /// The stored chunk index and local index of the cell `(x, y)`, if its
    /// chunk is loaded.
    pub fn locate(&self, x: i32, y: i32) -> (r: Option<(usize, usize)>)
        requires
            self.wf(),
        ensures
            r is Some <==> self@.dom().contains((x as int, y as int)),
            r matches Some((k, j)) ==> {
                &&& k < self.keys.len()
                &&& j < 256
                &&& self.pos_of(k as int, j as int) == (x as int, y as int)
                &&& self@[(x as int, y as int)] == self.cells@[k * 256 + j]
            },
    {
        let cx = floor_div16(x);
        let cy = floor_div16(y);
        match self.find_chunk(cx, cy) {
            Some(k) => {
                let lx = x - cx * CHUNK_SIZE_I32;
                let ly = y - cy * CHUNK_SIZE_I32;
                let j = (ly as usize) * CHUNK_SIZE + (lx as usize);
                proof {
                    assert(lx == x % 16);
                    assert(ly == y % 16);
                    lemma_local_pos(x as int, y as int);
                    self.lemma_pos_of(k as int, j as int);
                }
                Some((k, j))
            },
            None => None,
        }
    }

    pub fn chunk_at(&self, x: i32, y: i32) -> (r: (i32, i32))
        ensures
            r.0 == chunk_of(x as int),
            r.1 == chunk_of(y as int),
    {
        (floor_div16(x), floor_div16(y))
    }

    pub fn get(&self, x: i32, y: i32) -> (r: Option<&Block>)
        requires
            self.wf(),
        ensures
            r is Some <==> self@.dom().contains((x as int, y as int)),
            r matches Some(b) ==> *b == self@[(x as int, y as int)],
    {
        match self.locate(x, y) {
            Some((k, j)) => Some(&self.cells[k * CHUNK_CELLS + j]),
            None => None,
        }
    }

    /// The block at the cell `j` of the `k`-th stored chunk.
    pub fn block_at(&self, k: usize, j: usize) -> (r: Block)
        requires
            self.wf(),
            k < self.keys.len(),
            j < 256,
        ensures
            r == self@[self.pos_of(k as int, j as int)],
            r == self.cells@[k * 256 + j],
    {
        proof {
            self.lemma_pos_of(k as int, j as int);
        }
        self.cells[k * CHUNK_CELLS + j]
    }

    /// Replaces the block at the cell `j` of the `k`-th stored chunk.
    pub fn set_at(&mut self, k: usize, j: usize, b: Block)
        requires
            old(self).wf(),
            k < old(self).keys.len(),
            j < 256,
        ensures
            final(self).wf(),
            final(self).keys@ == old(self).keys@,
            final(self).cells@ == old(self).cells@.update(k * 256 + j, b),
            final(self)@ == old(self)@.insert(old(self).pos_of(k as int, j as int), b),
    {
        self.cells.set(k * CHUNK_CELLS + j, b);
        proof {
            old(self).lemma_write_index(self, k as int, j as int, b);
        }
    }

    /// The world coordinates of the cell `j` of the `k`-th stored chunk.
    pub fn pos_at(&self, k: usize, j: usize) -> (r: (i32, i32))
        requires
            self.wf(),
            k < self.keys.len(),
            j < 256,
        ensures
            r.0 == self.pos_of(k as int, j as int).0,
            r.1 == self.pos_of(k as int, j as int).1,
    {
        proof {
            self.lemma_pos_of(k as int, j as int);
        }
        let key = self.keys[k];
        let lx = (j % CHUNK_SIZE) as i32;
        let ly = (j / CHUNK_SIZE) as i32;
        (key.0 * CHUNK_SIZE_I32 + lx, key.1 * CHUNK_SIZE_I32 + ly)
    }

    pub fn set(&mut self, x: i32, y: i32, block: Block)
        requires
            old(self).wf(),
        ensures
            final(self).wf(),
            final(self)@ == spec_set(old(self)@, x as int, y as int, block),
    {
        let cx = floor_div16(x);
        let cy = floor_div16(y);
        let ghost m0 = self@;
        let k = match self.find_chunk(cx, cy) {
            Some(k) => {
                proof {
                    self.lemma_chunk_index(k as int);
                    assert(expanded(m0, cx as int, cy as int) =~= m0) by {
                        assert forall|q: (int, int)| in_chunk(q, cx as int, cy as int) implies #[trigger] m0.dom().contains(q) by {
                            assert(self.key_is(k as int, chunk_of(q.0), chunk_of(q.1)));
                        }
                    }
                }
                k
            },
            None => {
                self.push_chunk(cx, cy);
                self.keys.len() - 1
            },
        };
        let lx = x - cx * CHUNK_SIZE_I32;
        let ly = y - cy * CHUNK_SIZE_I32;
        let j = (ly as usize) * CHUNK_SIZE + (lx as usize);
        proof {
            lemma_local_pos(x as int, y as int);
            assert(self.key_is(k as int, cx as int, cy as int));
            assert(self.pos_of(k as int, j as int) == (x as int, y as int));
        }
        self.set_at(k, j, block);
    }

    pub fn in_bounds(&self, x: i32, y: i32) -> (r: bool)
        requires
            self.wf(),
        ensures
            r == self@.dom().contains((x as int, y as int)),
    {
        self.locate(x, y).is_some()
    }

    /// Loads the chunk `(cx, cy)` as air if it is not loaded yet.
    pub fn expand_to_chunk(&mut self, cx: i32, cy: i32)
        requires
            old(self).wf(),
            key_in_range(cx as int, cy as int),
        ensures
            final(self).wf(),
            final(self)@ == expanded(old(self)@, cx as int, cy as int),
            forall|key: (i32, i32)|
                #[trigger] final(self).keys@.contains(key) <==> old(self).keys@.contains(key) || key
                    == (cx, cy),
    {
        let ghost m0 = self@;
        match self.find_chunk(cx, cy) {
            Some(k) => {
                proof {
                    assert(self.keys@[k as int] == (cx, cy));
                }
                proof {
                    assert(expanded(m0, cx as int, cy as int) =~= m0) by {
                        assert forall|q: (int, int)| in_chunk(q, cx as int, cy as int) implies #[trigger] m0.dom().contains(q) by {
                            assert(self.key_is(k as int, chunk_of(q.0), chunk_of(q.1)));
                        }
                    }
                }
            },
            None => {
                self.push_chunk(cx, cy);
                proof {
                    assert(self.keys@[self.keys.len() - 1] == (cx, cy));
                    assert forall|key: (i32, i32)| #[trigger] self.keys@.contains(key) implies old(self).keys@.contains(key) || key == (cx, cy) by {
                        let i = choose|i: int| 0 <= i < self.keys.len() && self.keys@[i] == key;
                        if i < old(self).keys.len() {
                            assert(old(self).keys@[i] == key);
                        }
                    }
                    assert forall|key: (i32, i32)| #[trigger] old(self).keys@.contains(key) implies self.keys@.contains(key) by {
                        let i = choose|i: int| 0 <= i < old(self).keys.len() && old(self).keys@[i] == key;
                        assert(self.keys@[i] == key);
                    }
                }
            },
        }
    }

    /// The coordinates of the loaded chunks.
    pub fn chunk_keys(&self) -> (r: Vec<(i32, i32)>)
        ensures
            r@ == self.keys@,
    {
        let mut r: Vec<(i32, i32)> = Vec::new();
        let mut k: usize = 0;
        while k < self.keys.len()
            invariant
                k <= self.keys.len(),
                r@ == self.keys@.subrange(0, k as int),
            decreases self.keys.len() - k,
        {
            r.push(self.keys[k]);
            k = k + 1;
            proof {
                assert(r@ =~= self.keys@.subrange(0, k as int));
            }
        }
        proof {
            assert(r@ =~= self.keys@);
        }
        r
    }

    /// The smallest rectangle of cells that covers every loaded chunk, as
    /// `(min_x, min_y, end_x, end_y)` with the ends one past the last cell;
    /// none when no chunk is loaded.
    pub fn cell_bounds(&self) -> (r: Option<(i64, i64, i64, i64)>)
        requires
            self.wf(),
        ensures
            r is None <==> self.keys.len() == 0,
            r matches Some(b) ==> {
                &&& forall|k: int|
                    0 <= k < self.keys.len() ==> b.0 <= #[trigger] self.keys@[k].0 * 16 && b.1
                        <= self.keys@[k].1 * 16 && (self.keys@[k].0 + 1) * 16 <= b.2 && (
                    self.keys@[k].1 + 1) * 16 <= b.3
                &&& exists|k: int| 0 <= k < self.keys.len() && b.0 == #[trigger] self.keys@[k].0 * 16
                &&& exists|k: int| 0 <= k < self.keys.len() && b.1 == #[trigger] self.keys@[k].1 * 16
                &&& exists|k: int|
                    0 <= k < self.keys.len() && b.2 == (#[trigger] self.keys@[k].0 + 1) * 16
                &&& exists|k: int|
                    0 <= k < self.keys.len() && b.3 == (#[trigger] self.keys@[k].1 + 1) * 16
            },
    {
        if self.keys.len() == 0 {
            return None;
        }
        let first = self.keys[0];
        let mut x0: i64 = first.0 as i64 * 16;
        let mut y0: i64 = first.1 as i64 * 16;
        let mut x1: i64 = (first.0 as i64 + 1) * 16;
        let mut y1: i64 = (first.1 as i64 + 1) * 16;
        let mut k: usize = 1;
        while k < self.keys.len()
            invariant
                1 <= k <= self.keys.len(),
                forall|i: int|
                    0 <= i < k ==> x0 <= #[trigger] self.keys@[i].0 * 16 && y0 <= self.keys@[i].1
                        * 16 && (self.keys@[i].0 + 1) * 16 <= x1 && (self.keys@[i].1 + 1) * 16 <= y1,
                exists|i: int| 0 <= i < k && x0 == #[trigger] self.keys@[i].0 * 16,
                exists|i: int| 0 <= i < k && y0 == #[trigger] self.keys@[i].1 * 16,
                exists|i: int| 0 <= i < k && x1 == (#[trigger] self.keys@[i].0 + 1) * 16,
                exists|i: int| 0 <= i < k && y1 == (#[trigger] self.keys@[i].1 + 1) * 16,
            decreases self.keys.len() - k,
        {
            let key = self.keys[k];
            let ax: i64 = key.0 as i64 * 16;
            let ay: i64 = key.1 as i64 * 16;
            let bx: i64 = (key.0 as i64 + 1) * 16;
            let by: i64 = (key.1 as i64 + 1) * 16;
            if ax < x0 {
                x0 = ax;
            }
            if ay < y0 {
                y0 = ay;
            }
            if bx > x1 {
                x1 = bx;
            }
            if by > y1 {
                y1 = by;
            }
            k = k + 1;
        }
        Some((x0, y0, x1, y1))
    }

    /// The number of loaded chunks.
    pub fn chunk_count(&self) -> (r: usize)
        ensures
            r == self.keys.len(),
    {
        self.keys.len()
    }
}

/// The chunks visited by `World::new` before `(cx, cy)`, row by row.
pub open spec fn visited_before(chunks_x: int, cx: int, cy: int, qx: int, qy: int) -> bool {
    (0 <= qy < cy && 0 <= qx < chunks_x) || (qy == cy && 0 <= qx < cx)
}

impl World {
    /// A world of `chunks_x` by `chunks_y` air chunks, starting at chunk `(0, 0)`.
    pub fn new(chunks_x: usize, chunks_y: usize) -> (r: Self)
        requires
            chunks_x == 0 || chunks_y == 0 || (chunks_x <= 0x800_0000 && chunks_y <= 0x800_0000),
        ensures
            r.wf(),
            r@ == spec_new_world(chunks_x as int, chunks_y as int),
    {
        let mut w = World { keys: Vec::new(), cells: Vec::new() };
        proof {
            assert(w@ =~= Map::<(int, int), Block>::empty());
        }
        if chunks_x == 0 || chunks_y == 0 {
            proof {
                assert(w@ =~= spec_new_world(chunks_x as int, chunks_y as int));
            }
            return w;
        }
        let mut cy: usize = 0;
        while cy < chunks_y
            invariant
                cy <= chunks_y <= 0x800_0000,
                chunks_x <= 0x800_0000,
                w.wf(),
                w@ == Map::new(
                    |p: (int, int)| visited_before(chunks_x as int, 0, cy as int, chunk_of(p.0), chunk_of(p.1)),
                    |p: (int, int)| plain(BlockId::Air),
                ),
            decreases chunks_y - cy,
        {
            let mut cx: usize = 0;
            while cx < chunks_x
                invariant
                    cx <= chunks_x <= 0x800_0000,
                    cy < chunks_y <= 0x800_0000,
                    w.wf(),
                    w@ == Map::new(
                        |p: (int, int)| visited_before(chunks_x as int, cx as int, cy as int, chunk_of(p.0), chunk_of(p.1)),
                        |p: (int, int)| plain(BlockId::Air),
                    ),
                decreases chunks_x - cx,
            {
                let ghost m0 = w@;
                proof {
                    w.lemma_has_chunk_dom(cx as int, cy as int);
                    lemma_cell_pos(cx as int, cy as int, 0);
                }
                w.push_chunk(cx as i32, cy as i32);
                proof {
                    assert(w@ =~= Map::new(
                        |p: (int, int)| visited_before(chunks_x as int, cx + 1, cy as int, chunk_of(p.0), chunk_of(p.1)),
                        |p: (int, int)| plain(BlockId::Air),
                    ));
                }
                cx = cx + 1;
            }
            proof {
                assert(w@ =~= Map::new(
                    |p: (int, int)| visited_before(chunks_x as int, 0, cy + 1, chunk_of(p.0), chunk_of(p.1)),
                    |p: (int, int)| plain(BlockId::Air),
                ));
            }
            cy = cy + 1;
        }
        proof {
            assert(w@ =~= spec_new_world(chunks_x as int, chunks_y as int));
        }
        w
    }

    /// Turns every loaded cell into air; the loaded chunks stay loaded.
    pub fn clear(&mut self)
        requires
            old(self).wf(),
        ensures
            final(self).wf(),
            final(self).keys@ == old(self).keys@,
            final(self)@ == air_cells(old(self)@),
    {
        let mut i: usize = 0;
        while i < self.cells.len()
            invariant
                i <= self.cells.len(),
                self.keys@ == old(self).keys@,
                self.cells.len() == old(self).cells.len(),
                old(self).wf(),
                forall|a: int| 0 <= a < i ==> self.cells@[a] == plain(BlockId::Air),
            decreases self.cells.len() - i,
        {
            self.cells.set(i, Block::air());
            i = i + 1;
        }
        proof {
            assert(self.wf());
            assert forall|q: (int, int)| #[trigger] self@.dom().contains(q) <==> old(self)@.dom().contains(q) by {
                let qx = chunk_of(q.0);
                let qy = chunk_of(q.1);
                if self.has_chunk(qx, qy) {
                    let c = choose|c: int| 0 <= c < self.keys.len() && #[trigger] self.key_is(c, qx, qy);
                    assert(old(self).key_is(c, qx, qy));
                }
                if old(self).has_chunk(qx, qy) {
                    let c = choose|c: int| 0 <= c < old(self).keys.len() && #[trigger] old(self).key_is(c, qx, qy);
                    assert(self.key_is(c, qx, qy));
                }
            }
            assert forall|q: (int, int)| #[trigger] self@.dom().contains(q) implies self@[q] == plain(BlockId::Air) by {
                self.lemma_in_dom(q);
            }
            assert(self@ =~= air_cells(old(self)@));
        }
    }
}

/// The demonstration circuit laid out by `place_test_circuit`: a torch
/// driving a lamp through wire and a repeater, a lever lighting a lamp
/// through a target block, and a pair of comparators beside a lever.
pub open spec fn spec_test_circuit(m0: Map<(int, int), Block>) -> Map<(int, int), Block> {
    let cx = 29int;
    let cy = 32int;
    let dx = 53int;
    let m1 = spec_set(m0, cx, cy, with_data(BlockId::RedstoneTorch, spec_encode_torch(true, false, Direction::North)));
    let m2 = spec_set(m1, cx + 1, cy, plain(BlockId::RedstoneWire));
    let m3 = spec_set(m2, cx + 2, cy, plain(BlockId::RedstoneWire));
    let m4 = spec_set(m3, cx + 3, cy, with_data(BlockId::Repeater, spec_encode_repeater(Direction::East, 0, false, false, 0)));
    let m5 = spec_set(m4, cx + 4, cy, plain(BlockId::RedstoneWire));
    let m6 = spec_set(m5, cx + 5, cy, plain(BlockId::RedstoneWire));
    let m7 = spec_set(m6, cx + 6, cy, plain(BlockId::RedstoneLamp));
    let m8 = spec_set(m7, cx, cy + 2, with_data(BlockId::Lever, spec_encode_lever(Direction::North, false)));
    let m9 = spec_set(m8, cx + 1, cy + 2, plain(BlockId::RedstoneWire));
    let m10 = spec_set(m9, cx + 2, cy + 2, plain(BlockId::Target));
    let m11 = spec_set(m10, cx + 3, cy + 2, plain(BlockId::RedstoneWire));
    let m12 = spec_set(m11, cx + 4, cy + 2, plain(BlockId::RedstoneLamp));
    let m13 = spec_set(m12, dx, cy, plain(BlockId::RedstoneWire));
    let m14 = spec_set(m13, dx + 1, cy, plain(BlockId::SolidBlock));
    let m15 = spec_set(m14, dx, cy + 1, with_data(BlockId::Comparator, spec_encode_comparator(Direction::South, ComparatorMode::Compare, false)));
    let m16 = spec_set(m15, dx + 1, cy + 1, with_data(BlockId::Comparator, spec_encode_comparator(Direction::North, ComparatorMode::Compare, false)));
    let m17 = spec_set(m16, dx, cy + 2, plain(BlockId::RedstoneWire));
    let m18 = spec_set(m17, dx + 1, cy + 2, plain(BlockId::RedstoneWire));
    let m19 = spec_set(m18, dx, cy + 3, with_data(BlockId::Lever, spec_encode_lever(Direction::North, false)));
    m19
}

impl World {
    /// Lays out the demonstration circuit in the middle of the default world.
    pub fn place_test_circuit(&mut self)
        requires
            old(self).wf(),
        ensures
            final(self).wf(),
            final(self)@ == spec_test_circuit(old(self)@),
    {
        let world_w = WORLD_CHUNKS_X as i32 * CHUNK_SIZE_I32;
        let cx = world_w / 2 - TEST_CIRCUIT_OFFSET;
        let cy = world_w / 2;
        let dx = world_w - 11;
        self.set(cx, cy, Block::torch(true, false, Direction::North));
        self.set(cx + 1, cy, Block::wire());
        self.set(cx + 2, cy, Block::wire());
        self.set(cx + 3, cy, Block::repeater(Direction::East, 0, false, false));
        self.set(cx + 4, cy, Block::wire());
        self.set(cx + 5, cy, Block::wire());
        self.set(cx + 6, cy, Block::lamp());
        self.set(cx, cy + 2, Block::lever(Direction::North, false));
        self.set(cx + 1, cy + 2, Block::wire());
        self.set(cx + 2, cy + 2, Block::target());
        self.set(cx + 3, cy + 2, Block::wire());
        self.set(cx + 4, cy + 2, Block::lamp());
        self.set(dx, cy, Block::wire());
        self.set(dx + 1, cy, Block::solid());
        self.set(dx, cy + 1, Block::comparator(Direction::South, ComparatorMode::Compare, false));
        self.set(dx + 1, cy + 1, Block::comparator(Direction::North, ComparatorMode::Compare, false));
        self.set(dx, cy + 2, Block::wire());
        self.set(dx + 1, cy + 2, Block::wire());
        self.set(dx, cy + 3, Block::lever(Direction::North, false));
    }
}

impl World {
    proof fn lemma_write_index_any(&self, k: int, j: int)
        requires
            self.wf(),
            0 <= k < self.keys.len(),
            0 <= j < 256,
        ensures
            forall|w: World, v: Block|
                #![trigger w.view(), self.cells@.update(k * 256 + j, v)]
                w.keys@ == self.keys@ && w.cells@ == self.cells@.update(k * 256 + j, v) ==> w.wf()
                    && w@ == self@.insert(self.pos_of(k, j), v),
    {
        assert forall|w: World, v: Block|
            #![trigger w.view(), self.cells@.update(k * 256 + j, v)]
            w.keys@ == self.keys@ && w.cells@ == self.cells@.update(k * 256 + j, v) implies w.wf()
                && w@ == self@.insert(self.pos_of(k, j), v) by {
            self.lemma_write_index(&w, k, j, v);
        }
    }

    /// A mutable handle on the block at `(x, y)`, if its chunk is loaded;
    /// what is written through it is the new block of that cell.
    pub fn get_mut(&mut self, x: i32, y: i32) -> (r: Option<&mut Block>)
        requires
            old(self).wf(),
        ensures
            r is Some <==> old(self)@.dom().contains((x as int, y as int)),
            r is Some ==> *r.unwrap() == old(self)@[(x as int, y as int)],
            r is Some ==> final(self).wf() && final(self).keys@ == old(self).keys@ && final(self)@
                == old(self)@.insert((x as int, y as int), *final(r.unwrap())),
            r is None ==> *final(self) == *old(self),
    {
        match self.locate(x, y) {
            Some((k, j)) => {
                proof {
                    self.lemma_write_index_any(k as int, j as int);
                }
                Some(&mut self.cells[k * CHUNK_CELLS + j])
            },
            None => None,
        }
    }
}
impl World {
    /// Calls `f` once on every loaded cell with its world coordinates and its
    /// block, chunk by chunk and row by row within a chunk: for every loaded
    /// cell, a closure state chosen to witness it is one that `f` took a
    /// call with that cell's coordinates and block in.
    pub fn for_each<F>(&self, mut f: F)
        where
            F: FnMut(i32, i32, &Block),
        requires
            self.wf(),
            forall|x: i32, y: i32, b: &Block, g: F| call_requires(g, (x, y, b)),
        ensures
            forall|p: (int, int)|
                #![trigger self@[p]]
                self@.dom().contains(p) ==> ({
                    let g = choose|g: F| #[trigger] call_ensures(g, (p.0 as i32, p.1 as i32, &self@[p]), ());
                    call_ensures(g, (p.0 as i32, p.1 as i32, &self@[p]), ())
                }),
    {
        let ghost n = self.cells.len() as int;
        let mut k: usize = 0;
        while k < self.keys.len()
            invariant
                self.wf(),
                n == self.cells.len(),
                k <= self.keys.len(),
                forall|x: i32, y: i32, b: &Block, g: F| call_requires(g, (x, y, b)),
                forall|i: int|
                    #![trigger self.cells@[i]]
                    0 <= i < k * 256 ==> ({
                        let g = choose|g: F|
                            #[trigger] call_ensures(g, (self.pos_of(i / 256, i % 256).0 as i32, self.pos_of(i / 256, i % 256).1 as i32, &self.cells@[i]), ());
                        call_ensures(g, (self.pos_of(i / 256, i % 256).0 as i32, self.pos_of(i / 256, i % 256).1 as i32, &self.cells@[i]), ())
                    }),
            decreases self.keys.len() - k,
        {
            let mut j: usize = 0;
            while j < CHUNK_CELLS
                invariant
                    self.wf(),
                    n == self.cells.len(),
                    k < self.keys.len(),
                    j <= 256,
                    forall|x: i32, y: i32, b: &Block, g: F| call_requires(g, (x, y, b)),
                    forall|i: int|
                    #![trigger self.cells@[i]]
                    0 <= i < k * 256 + j ==> ({
                        let g = choose|g: F|
                            #[trigger] call_ensures(g, (self.pos_of(i / 256, i % 256).0 as i32, self.pos_of(i / 256, i % 256).1 as i32, &self.cells@[i]), ());
                        call_ensures(g, (self.pos_of(i / 256, i % 256).0 as i32, self.pos_of(i / 256, i % 256).1 as i32, &self.cells@[i]), ())
                    }),
                decreases 256 - j,
            {
                let (x, y) = self.pos_at(k, j);
                let ghost idx = k * 256 + j;
                let ghost f0 = f;
                proof {
                    assert(idx / 256 == k && idx % 256 == j);
                    assert(idx < n) by {
                        assert(idx < (k + 1) * 256);
                        assert((k + 1) * 256 <= self.keys.len() * 256);
                    }
                }
                f(x, y, &self.cells[k * CHUNK_CELLS + j]);
                proof {
                    assert(call_ensures(f0, (x, y, &self.cells@[idx]), ()));
                }
                j = j + 1;
            }
            k = k + 1;
        }
        proof {
            assert forall|p: (int, int)|
                #![trigger self@[p]]
                self@.dom().contains(p) implies ({
                    let g = choose|g: F| #[trigger] call_ensures(g, (p.0 as i32, p.1 as i32, &self@[p]), ());
                    call_ensures(g, (p.0 as i32, p.1 as i32, &self@[p]), ())
                }) by {
                self.lemma_flat_range(p);
                self.lemma_in_dom(p);
                let i = self.flat_of(p);
                assert(self.cells@[i] == self@[p]);
                assert(self.pos_of(i / 256, i % 256) == p);
            }
        }
    }
}

impl World {
    /// Calls `f` once on every loaded cell with its world coordinates and a
    /// mutable handle on its block, chunk by chunk and row by row within a
    /// chunk. The set of loaded cells does not change, and every cell ends
    /// with a block that a call of `f` (as `f` stood at that call) can leave
    /// in place of the block the cell held: a pair of a closure state and a
    /// handle chosen to witness that is such a call.
    pub fn for_each_mut<F>(&mut self, mut f: F)
        where
            F: FnMut(i32, i32, &mut Block),
        requires
            old(self).wf(),
            forall|x: i32, y: i32, b: &mut Block, g: F| call_requires(g, (x, y, b)),
        ensures
            final(self).wf(),
            final(self).keys@ == old(self).keys@,
            final(self)@.dom() == old(self)@.dom(),
            forall|p: (int, int)|
                #![trigger final(self)@[p]]
                old(self)@.dom().contains(p) ==> ({
                    let w = choose|w: (F, &mut Block)|
                        call_ensures(w.0, (p.0 as i32, p.1 as i32, w.1), ()) && mut_ref_current(w.1)
                            == old(self)@[p] && mut_ref_future(w.1) == final(self)@[p];
                    call_ensures(w.0, (p.0 as i32, p.1 as i32, w.1), ()) && mut_ref_current(w.1)
                        == old(self)@[p] && mut_ref_future(w.1) == final(self)@[p]
                }),
    {
        let ghost n = self.cells.len() as int;
        let mut k: usize = 0;
        while k < self.keys.len()
            invariant
                self.wf(),
                self.keys@ == old(self).keys@,
                n == self.cells.len(),
                n == old(self).cells.len(),
                k <= self.keys.len(),
                forall|x: i32, y: i32, b: &mut Block, g: F| call_requires(g, (x, y, b)),
                forall|i: int| k * 256 <= i < n ==> #[trigger] self.cells@[i] == old(self).cells@[i],
                forall|i: int|
                    #![trigger self.cells@[i]]
                    0 <= i < k * 256 ==> ({
                        let w = choose|w: (F, &mut Block)|
                            call_ensures(w.0, (self.pos_of(i / 256, i % 256).0 as i32, self.pos_of(i / 256, i % 256).1 as i32, w.1), ())
                                && mut_ref_current(w.1) == old(self).cells@[i]
                                && mut_ref_future(w.1) == self.cells@[i];
                        call_ensures(w.0, (self.pos_of(i / 256, i % 256).0 as i32, self.pos_of(i / 256, i % 256).1 as i32, w.1), ())
                            && mut_ref_current(w.1) == old(self).cells@[i]
                            && mut_ref_future(w.1) == self.cells@[i]
                    }),
            decreases self.keys.len() - k,
        {
            let mut j: usize = 0;
            while j < CHUNK_CELLS
                invariant
                    self.wf(),
                    self.keys@ == old(self).keys@,
                    n == self.cells.len(),
                    n == old(self).cells.len(),
                    k < self.keys.len(),
                    j <= 256,
                    forall|x: i32, y: i32, b: &mut Block, g: F| call_requires(g, (x, y, b)),
                    forall|i: int|
                        k * 256 + j <= i < n ==> #[trigger] self.cells@[i] == old(self).cells@[i],
                    forall|i: int|
                    #![trigger self.cells@[i]]
                    0 <= i < k * 256 + j ==> ({
                        let w = choose|w: (F, &mut Block)|
                            call_ensures(w.0, (self.pos_of(i / 256, i % 256).0 as i32, self.pos_of(i / 256, i % 256).1 as i32, w.1), ())
                                && mut_ref_current(w.1) == old(self).cells@[i]
                                && mut_ref_future(w.1) == self.cells@[i];
                        call_ensures(w.0, (self.pos_of(i / 256, i % 256).0 as i32, self.pos_of(i / 256, i % 256).1 as i32, w.1), ())
                            && mut_ref_current(w.1) == old(self).cells@[i]
                            && mut_ref_future(w.1) == self.cells@[i]
                    }),
                decreases 256 - j,
            {
                let (x, y) = self.pos_at(k, j);
                let ghost idx = k * 256 + j;
                let ghost before = self.cells@;
                let ghost f0 = f;
                proof {
                    assert(idx / 256 == k && idx % 256 == j);
                    assert(idx < n) by {
                        assert(idx < (k + 1) * 256);
                        assert((k + 1) * 256 <= self.keys.len() * 256);
                    }
                }
                f(x, y, &mut self.cells[k * CHUNK_CELLS + j]);
                j = j + 1;
                proof {
                    let r = choose|r: &mut Block|
                        #[trigger] call_ensures(f0, (x, y, r), ()) && mut_ref_current(r) == before[idx]
                            && mut_ref_future(r) == self.cells@[idx];
                    assert(call_ensures(f0, (x, y, r), ()) && mut_ref_current(r) == before[idx]
                        && mut_ref_future(r) == self.cells@[idx]);
                    let w0 = (f0, r);
                    assert(call_ensures(w0.0, (x, y, w0.1), ()) && mut_ref_current(w0.1)
                        == old(self).cells@[idx] && mut_ref_future(w0.1) == self.cells@[idx]);
                    assert forall|i: int|
                        #![trigger self.cells@[i]]
                        0 <= i < k * 256 + j implies ({
                            let w = choose|w: (F, &mut Block)|
                                call_ensures(w.0, (self.pos_of(i / 256, i % 256).0 as i32, self.pos_of(i / 256, i % 256).1 as i32, w.1), ())
                                    && mut_ref_current(w.1) == old(self).cells@[i]
                                    && mut_ref_future(w.1) == self.cells@[i];
                            call_ensures(w.0, (self.pos_of(i / 256, i % 256).0 as i32, self.pos_of(i / 256, i % 256).1 as i32, w.1), ())
                                && mut_ref_current(w.1) == old(self).cells@[i]
                                && mut_ref_future(w.1) == self.cells@[i]
                        }) by {
                        if i < idx {
                            assert(self.cells@[i] == before[i]);
                        }
                    }
                }
            }
            k = k + 1;
        }
        proof {
            assert forall|q: (int, int)| #[trigger] self@.dom().contains(q) <==> old(self)@.dom().contains(q) by {
                let qx = chunk_of(q.0);
                let qy = chunk_of(q.1);
                if self.has_chunk(qx, qy) {
                    let c = choose|c: int| 0 <= c < self.keys.len() && #[trigger] self.key_is(c, qx, qy);
                    assert(old(self).key_is(c, qx, qy));
                }
                if old(self).has_chunk(qx, qy) {
                    let c = choose|c: int| 0 <= c < old(self).keys.len() && #[trigger] old(self).key_is(c, qx, qy);
                    assert(self.key_is(c, qx, qy));
                }
            }
            assert(self@.dom() =~= old(self)@.dom());
            assert forall|p: (int, int)|
                #![trigger final(self)@[p]]
                old(self)@.dom().contains(p) implies ({
                    let w = choose|w: (F, &mut Block)|
                        call_ensures(w.0, (p.0 as i32, p.1 as i32, w.1), ()) && mut_ref_current(w.1)
                            == old(self)@[p] && mut_ref_future(w.1) == final(self)@[p];
                    call_ensures(w.0, (p.0 as i32, p.1 as i32, w.1), ()) && mut_ref_current(w.1)
                        == old(self)@[p] && mut_ref_future(w.1) == final(self)@[p]
                }) by {
                assert(final(self)@[p] == self@[p]);
                old(self).lemma_flat_range(p);
                let i = old(self).flat_of(p);
                old(self).lemma_in_dom(p);
                self.lemma_in_dom(p);
                let qx = chunk_of(p.0);
                let qy = chunk_of(p.1);
                let a = old(self).chunk_index(qx, qy);
                let b = self.chunk_index(qx, qy);
                if a != b {
                    assert(old(self).keys@[a] == old(self).keys@[b]);
                }
                assert(self.cells@[i] == self@[p]);
                assert(old(self).cells@[i] == old(self)@[p]);
                assert(self.pos_of(i / 256, i % 256) == p);
                assert(0 <= i < n);
            }
        }
    }
}

impl World {
    /// The position of a loaded cell in `cells`.
    pub open spec fn flat_of(&self, p: (int, int)) -> int {
        self.chunk_index(chunk_of(p.0), chunk_of(p.1)) * 256 + local_index(p.0, p.1)
    }

    /// The cell stored at `cells[i]` is `pos_of(i / 256, i % 256)`, whose
    /// position is `i` again; every loaded cell has a position below
    /// `cells.len()`.
    pub proof fn lemma_flat(&self, i: int)
        requires
            self.wf(),
            0 <= i < self.cells.len(),
        ensures
            0 <= i / 256 < self.keys.len(),
            0 <= i % 256 < 256,
            i == (i / 256) * 256 + i % 256,
            self@.dom().contains(self.pos_of(i / 256, i % 256)),
            self.flat_of(self.pos_of(i / 256, i % 256)) == i,
    {
        let k = i / 256;
        let j = i % 256;
        assert(k * 256 <= i < (k + 1) * 256);
        self.lemma_pos_of(k, j);
    }

    pub proof fn lemma_flat_range(&self, p: (int, int))
        requires
            self.wf(),
            self@.dom().contains(p),
        ensures
            0 <= self.flat_of(p) < self.cells.len(),
            self.flat_of(p) / 256 == self.chunk_index(chunk_of(p.0), chunk_of(p.1)),
            self.flat_of(p) % 256 == local_index(p.0, p.1),
            self.pos_of(self.flat_of(p) / 256, self.flat_of(p) % 256) == p,
    {
        self.lemma_in_dom(p);
        let k = self.chunk_index(chunk_of(p.0), chunk_of(p.1));
        let l = local_index(p.0, p.1);
        assert(k * 256 + l < (k + 1) * 256);
        assert((k + 1) * 256 <= self.keys.len() * 256);
        vstd::arithmetic::div_mod::lemma_fundamental_div_mod_converse(k * 256 + l, 256, k, l);
    }
}

impl World {
    /// Every loaded cell has `i32` coordinates.
    pub proof fn lemma_dom_in_i32(&self)
        requires
            self.wf(),
        ensures
            forall|c: (int, int)|
                #[trigger] self@.dom().contains(c) ==> i32::MIN <= c.0 <= i32::MAX && i32::MIN
                    <= c.1 <= i32::MAX,
    {
        assert forall|c: (int, int)| #[trigger] self@.dom().contains(c) implies i32::MIN <= c.0
            <= i32::MAX && i32::MIN <= c.1 <= i32::MAX by {
            self.lemma_in_dom(c);
        }
    }
}

impl World {
    /// Two worlds with the same chunk keys and block lists have the same map.
    pub proof fn lemma_same_view(a: &World, b: &World)
        requires
            a.wf(),
            a.keys@ == b.keys@,
            a.cells@ == b.cells@,
        ensures
            a@ == b@,
            b.wf(),
    {
        assert forall|q: (int, int)| #[trigger] a@.dom().contains(q) <==> b@.dom().contains(q) by {
            let qx = chunk_of(q.0);
            let qy = chunk_of(q.1);
            if a.has_chunk(qx, qy) {
                let c = choose|c: int| 0 <= c < a.keys.len() && #[trigger] a.key_is(c, qx, qy);
                assert(b.key_is(c, qx, qy));
            }
            if b.has_chunk(qx, qy) {
                let c = choose|c: int| 0 <= c < b.keys.len() && #[trigger] b.key_is(c, qx, qy);
                assert(a.key_is(c, qx, qy));
            }
        }
        assert forall|q: (int, int)| #[trigger] a@.dom().contains(q) implies a@[q] == b@[q] by {
            let qx = chunk_of(q.0);
            let qy = chunk_of(q.1);
            let ka = a.chunk_index(qx, qy);
            let kb = b.chunk_index(qx, qy);
            assert(a.key_is(ka, qx, qy));
            assert(b.key_is(kb, qx, qy));
            if ka != kb {
                assert(a.keys@[ka] == a.keys@[kb]);
            }
        }
        assert(a@ =~= b@);
    }

    /// A copy of the world.
    pub fn snapshot(&self) -> (r: World)
        requires
            self.wf(),
        ensures
            r.wf(),
            r.keys@ == self.keys@,
            r.cells@ == self.cells@,
            r@ == self@,
    {
        let keys = self.chunk_keys();
        let mut cells: Vec<Block> = Vec::new();
        let mut i: usize = 0;
        while i < self.cells.len()
            invariant
                i <= self.cells.len(),
                cells@ == self.cells@.subrange(0, i as int),
            decreases self.cells.len() - i,
        {
            cells.push(self.cells[i]);
            i = i + 1;
            proof {
                assert(cells@ =~= self.cells@.subrange(0, i as int));
            }
        }
        proof {
            assert(cells@ =~= self.cells@);
        }
        let r = World { keys, cells };
        proof {
            World::lemma_same_view(self, &r);
        }
        r
    }
}

impl World {
    /// The world map is made of whole chunks.
    pub proof fn lemma_chunk_closed(&self)
        requires
            self.wf(),
        ensures
            chunk_closed(self@),
    {
    }
}

} // verus!
