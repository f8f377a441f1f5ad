use vstd::prelude::*;

use crate::block::{plain, Block, BlockId};
use crate::history::{
    spec_end, spec_record, spec_redo, spec_undo, EditAction, EditChange, History, HistoryState,
};
use crate::constants::{WORLD_CHUNKS_X, WORLD_CHUNKS_Y};
use crate::sim::{spec_run, update_simulation};
use crate::world::{
    chunk_closed, chunk_of, expanded, lemma_expanded_loaded, spec_new_world, spec_set, World,
};

verus! {

/// What `set_block` does to the world map, and the edit it records (none
/// when the cell already holds the block). The chunk of the cell is loaded
/// either way.
pub open spec fn set_block_effect(m: Map<(int, int), Block>, x: int, y: int, b: Block) -> (
    Map<(int, int), Block>,
    Seq<EditChange>,
) {
    let me = expanded(m, chunk_of(x), chunk_of(y));
    let ob = me[(x, y)];
    if ob != b {
        (me.insert((x, y), b), seq![EditChange { x: x as i32, y: y as i32, old_block: ob, new_block: b }])
    } else {
        (me, Seq::empty())
    }
}

/// `set_block` applied to each target in turn: the final map and the edits
/// recorded, in order.
pub open spec fn edits(m: Map<(int, int), Block>, ts: Seq<(int, int, Block)>) -> (
    Map<(int, int), Block>,
    Seq<EditChange>,
)
    decreases ts.len(),
{
    if ts.len() == 0 {
        (m, Seq::empty())
    } else {
        let r = edits(m, ts.drop_last());
        let t = ts.last();
        let e = set_block_effect(r.0, t.0, t.1, t.2);
        (e.0, r.1 + e.1)
    }
}

/// Writes each edit's old block back, in order (what undo does).
pub open spec fn replay_old(m: Map<(int, int), Block>, cs: Seq<EditChange>) -> Map<(int, int), Block>
    decreases cs.len(),
{
    if cs.len() == 0 {
        m
    } else {
        let c = cs.last();
        spec_set(replay_old(m, cs.drop_last()), c.x as int, c.y as int, c.old_block)
    }
}

/// Writes each edit's new block, in order (what redo does).
pub open spec fn replay_new(m: Map<(int, int), Block>, cs: Seq<EditChange>) -> Map<(int, int), Block>
    decreases cs.len(),
{
    if cs.len() == 0 {
        m
    } else {
        let c = cs.last();
        spec_set(replay_new(m, cs.drop_last()), c.x as int, c.y as int, c.new_block)
    }
}

/// A rectangle of blocks copied from the world, row by row.
pub struct ClipboardData {
    pub rows: Vec<Vec<Block>>,
    pub width: usize,
    pub height: usize,
}

impl ClipboardData {
    pub open spec fn wf(&self) -> bool {
        &&& self.width <= i32::MAX
        &&& self.height <= i32::MAX
        &&& self.rows@.len() == self.height
        &&& forall|y: int| 0 <= y < self.height ==> (#[trigger] self.rows@[y])@.len() == self.width
    }

    /// The block at column `x` of row `y`.
    pub open spec fn at(&self, x: int, y: int) -> Block {
        self.rows@[y]@[x]
    }
}

/// `new` is `old` after `set_block(x, y, b)`: the cell's chunk is loaded and
/// the cell takes `b`; a real change is recorded and marks the world for
/// simulation and saving. The clipboard and selection stay.
pub open spec fn set_block_done(old: Editor, new: Editor, x: int, y: int, b: Block) -> bool {
    let e = set_block_effect(old.world@, x, y, b);
    &&& new.wf()
    &&& new.world@ == e.0
    &&& (new.history.state(), new.history.pending()) == spec_record(
        old.history.state(),
        old.history.pending(),
        e.1,
    )
    &&& new.simulation_needed == (old.simulation_needed || e.1.len() > 0)
    &&& new.auto_save_needed == (old.auto_save_needed || e.1.len() > 0)
    &&& new.dirty == (old.dirty || e.1.len() > 0)
    &&& new.clipboard == old.clipboard
    &&& new.select_start == old.select_start
    &&& new.select_end == old.select_end
    &&& new.paste_mode == old.paste_mode
}

/// The clipboard, pasted at `(wx, wy)`, stays within `i32` cells.
pub open spec fn paste_fits(ed: Editor, wx: int, wy: int) -> bool {
    ed.clipboard matches Some(c) ==> wx + c.width <= i32::MAX + 1 && wy + c.height <= i32::MAX + 1
}

/// `new` is `old` after pasting the clipboard at `(wx, wy)` as one action;
/// nothing happens with an empty clipboard.
pub open spec fn paste_done(old: Editor, new: Editor, wx: int, wy: int) -> bool {
    &&& new.wf()
    &&& match old.clipboard {
        Some(c) => {
            let ed = edits(old.world@, paste_targets(old.world@, c, wx, wy, c.height as nat));
            &&& new.world@ == ed.0
            &&& new.history.state() == spec_end(old.history.state(), Some(ed.1))
            &&& new.history.pending() is None
            &&& new.simulation_needed == (old.simulation_needed || ed.1.len() > 0)
            &&& new.auto_save_needed
            &&& new.dirty
            &&& new.clipboard == old.clipboard
            &&& new.select_start == old.select_start
            &&& new.select_end == old.select_end
        },
        None => new == old,
    }
    &&& new.paste_mode == old.paste_mode
}

/// The editing state of the simulator: the world, its edit history, the
/// clipboard and the selection, and what the edits have made pending.
pub struct Editor {
    pub world: World,
    pub history: History,
    pub clipboard: Option<ClipboardData>,
    pub select_start: Option<(i32, i32)>,
    pub select_end: Option<(i32, i32)>,
    pub paste_mode: bool,
    pub simulation_needed: bool,
    pub auto_save_needed: bool,
    pub dirty: bool,
}

impl Editor {
    pub open spec fn wf(&self) -> bool {
        &&& self.world.wf()
        &&& self.clipboard matches Some(c) ==> c.wf()
    }

    /// An editor on `world` with `history`, nothing selected or copied, and
    /// a simulation pass due.
    pub fn new(world: World, history: History) -> (r: Self)
        requires
            world.wf(),
        ensures
            r.wf(),
            r.world == world,
            r.history == history,
            r.clipboard is None,
            r.select_start is None,
            r.select_end is None,
            !r.paste_mode,
            r.simulation_needed,
            !r.auto_save_needed,
            !r.dirty,
    {
        Editor {
            world,
            history,
            clipboard: None,
            select_start: None,
            select_end: None,
            paste_mode: false,
            simulation_needed: true,
            auto_save_needed: false,
            dirty: false,
        }
    }

    /// Starts over on a new world of air with no history: nothing selected,
    /// copied or pending, and a simulation pass due.
    pub fn start_new(&mut self)
        ensures
            final(self).wf(),
            final(self).world@ == spec_new_world(WORLD_CHUNKS_X as int, WORLD_CHUNKS_Y as int),
            final(self).history.state() == (HistoryState { undo: Seq::empty(), redo: Seq::empty() }),
            final(self).history.pending() is None,
            final(self).clipboard is None,
            final(self).select_start is None,
            final(self).select_end is None,
            !final(self).paste_mode,
            final(self).simulation_needed,
            !final(self).auto_save_needed,
            !final(self).dirty,
    {
        *self = Editor::new(World::new(WORLD_CHUNKS_X, WORLD_CHUNKS_Y), History::new());
    }

    /// Takes a loaded world and history in place of the current ones; the
    /// loaded world is due a simulation pass and counts as saved.
    pub fn load(&mut self, world: World, history: History)
        requires
            old(self).wf(),
            world.wf(),
        ensures
            final(self).wf(),
            *final(self) == (Editor {
                world,
                history,
                simulation_needed: true,
                dirty: false,
                ..*old(self)
            }),
    {
        self.world = world;
        self.history = history;
        self.simulation_needed = true;
        self.dirty = false;
    }

    /// Records that the world was just saved.
    pub fn mark_saved(&mut self)
        ensures
            *final(self) == (Editor { dirty: false, auto_save_needed: false, ..*old(self) }),
    {
        self.dirty = false;
        self.auto_save_needed = false;
    }

    /// Runs the simulation until it settles (at most 20 steps) if an edit
    /// made that due, and clears the due flag.
    pub fn settle_if_needed(&mut self)
        requires
            old(self).wf(),
        ensures
            final(self).wf(),
            if old(self).simulation_needed {
                &&& final(self).world@ == spec_run(old(self).world@, 20).0
                &&& *final(self) == (Editor {
                    world: final(self).world,
                    simulation_needed: false,
                    ..*old(self)
                })
            } else {
                *final(self) == *old(self)
            },
    {
        if self.simulation_needed {
            self.simulation_needed = false;
            update_simulation(&mut self.world);
        }
    }

    /// Puts `block` at `(x, y)`, loading its chunk first; a real change is
    /// recorded in the history and marks the world for simulation and saving.
    pub fn set_block(&mut self, x: i32, y: i32, block: Block)
        requires
            old(self).wf(),
        ensures
            set_block_done(*old(self), *final(self), x as int, y as int, block),
    {
        let (cx, cy) = self.world.chunk_at(x, y);
        self.world.expand_to_chunk(cx, cy);
        let old_block = match self.world.get(x, y) {
            Some(b) => *b,
            None => Block::air(),
        };
        if old_block != block {
            self.history.record(x, y, old_block, block);
            self.world.set(x, y, block);
            self.simulation_needed = true;
            self.auto_save_needed = true;
            self.dirty = true;
            proof {
                let me = expanded(old(self).world@, cx as int, cy as int);
                assert(expanded(me, cx as int, cy as int) =~= me);
            }
        } else {
            proof {
                let e = set_block_effect(old(self).world@, x as int, y as int, block);
                assert(e.1 =~= Seq::<EditChange>::empty());
                match old(self).history.pending() {
                    Some(a) => {
                        assert(a + e.1 =~= a);
                    },
                    None => {},
                }
            }
        }
    }

    /// Opens an edit action.
    pub fn edit_begin(&mut self)
        ensures
            final(self).history.state() == old(self).history.state(),
            final(self).history.pending() == Some(Seq::<EditChange>::empty()),
            final(self).world == old(self).world,
            final(self).clipboard == old(self).clipboard,
            final(self).select_start == old(self).select_start,
            final(self).select_end == old(self).select_end,
            final(self).paste_mode == old(self).paste_mode,
            final(self).simulation_needed == old(self).simulation_needed,
            final(self).auto_save_needed == old(self).auto_save_needed,
            final(self).dirty == old(self).dirty,
    {
        self.history.begin_action();
    }

    /// Closes the edit action and marks the world for saving.
    pub fn edit_end(&mut self)
        ensures
            final(self).history.state() == spec_end(old(self).history.state(), old(self).history.pending()),
            final(self).history.pending() is None,
            final(self).world == old(self).world,
            final(self).clipboard == old(self).clipboard,
            final(self).select_start == old(self).select_start,
            final(self).select_end == old(self).select_end,
            final(self).paste_mode == old(self).paste_mode,
            final(self).simulation_needed == old(self).simulation_needed,
            final(self).auto_save_needed,
            final(self).dirty,
    {
        self.history.end_action();
        self.auto_save_needed = true;
        self.dirty = true;
    }

    /// Writes back the old blocks of the newest action, if there is one.
    pub fn undo(&mut self)
        requires
            old(self).wf(),
        ensures
            final(self).wf(),
            ({
                let u = spec_undo(old(self).history.state());
                &&& final(self).history.state() == u.0
                &&& final(self).history.pending() == old(self).history.pending()
                &&& match u.1 {
                    Some(a) => {
                        &&& final(self).world@ == replay_old(old(self).world@, a)
                        &&& final(self).simulation_needed
                        &&& final(self).auto_save_needed
                        &&& final(self).dirty
                    },
                    None => {
                        &&& final(self).world@ == old(self).world@
                        &&& final(self).simulation_needed == old(self).simulation_needed
                        &&& final(self).auto_save_needed == old(self).auto_save_needed
                        &&& final(self).dirty == old(self).dirty
                    },
                }
            }),
            final(self).clipboard == old(self).clipboard,
            final(self).select_start == old(self).select_start,
            final(self).select_end == old(self).select_end,
            final(self).paste_mode == old(self).paste_mode,
    {
        if let Some(action) = self.history.undo() {
            self.apply_changes(&action, false);
            self.simulation_needed = true;
            self.auto_save_needed = true;
            self.dirty = true;
        }
    }

    /// Writes again the new blocks of the newest undone action, if any.
    pub fn redo(&mut self)
        requires
            old(self).wf(),
        ensures
            final(self).wf(),
            ({
                let u = spec_redo(old(self).history.state());
                &&& final(self).history.state() == u.0
                &&& final(self).history.pending() == old(self).history.pending()
                &&& match u.1 {
                    Some(a) => {
                        &&& final(self).world@ == replay_new(old(self).world@, a)
                        &&& final(self).simulation_needed
                        &&& final(self).auto_save_needed
                        &&& final(self).dirty
                    },
                    None => {
                        &&& final(self).world@ == old(self).world@
                        &&& final(self).simulation_needed == old(self).simulation_needed
                        &&& final(self).auto_save_needed == old(self).auto_save_needed
                        &&& final(self).dirty == old(self).dirty
                    },
                }
            }),
            final(self).clipboard == old(self).clipboard,
            final(self).select_start == old(self).select_start,
            final(self).select_end == old(self).select_end,
            final(self).paste_mode == old(self).paste_mode,
    {
        if let Some(action) = self.history.redo() {
            self.apply_changes(&action, true);
            self.simulation_needed = true;
            self.auto_save_needed = true;
            self.dirty = true;
        }
    }

    /// Writes the new (or old) block of each change of `action`, in order.
    fn apply_changes(&mut self, action: &EditAction, use_new: bool)
        requires
            old(self).wf(),
        ensures
            final(self).wf(),
            final(self).world@ == if use_new {
                replay_new(old(self).world@, action.changes@)
            } else {
                replay_old(old(self).world@, action.changes@)
            },
            final(self).history == old(self).history,
            final(self).clipboard == old(self).clipboard,
            final(self).select_start == old(self).select_start,
            final(self).select_end == old(self).select_end,
            final(self).paste_mode == old(self).paste_mode,
            final(self).simulation_needed == old(self).simulation_needed,
            final(self).auto_save_needed == old(self).auto_save_needed,
            final(self).dirty == old(self).dirty,
    {
        let mut i: usize = 0;
        while i < action.changes.len()
            invariant
                i <= action.changes.len(),
                self.wf(),
                self.world@ == if use_new {
                    replay_new(old(self).world@, action.changes@.subrange(0, i as int))
                } else {
                    replay_old(old(self).world@, action.changes@.subrange(0, i as int))
                },
                self.history == old(self).history,
                self.clipboard == old(self).clipboard,
                self.select_start == old(self).select_start,
                self.select_end == old(self).select_end,
                self.paste_mode == old(self).paste_mode,
                self.simulation_needed == old(self).simulation_needed,
                self.auto_save_needed == old(self).auto_save_needed,
                self.dirty == old(self).dirty,
            decreases action.changes.len() - i,
        {
            let ch = action.changes[i];
            let b = if use_new {
                ch.new_block
            } else {
                ch.old_block
            };
            self.world.set(ch.x, ch.y, b);
            proof {
                let s = action.changes@.subrange(0, i + 1);
                assert(s.drop_last() =~= action.changes@.subrange(0, i as int));
            }
            i = i + 1;
        }
        proof {
            assert(action.changes@.subrange(0, action.changes.len() as int) =~= action.changes@);
        }
    }
}

pub open spec fn min_i(a: int, b: int) -> int {
    if a <= b {
        a
    } else {
        b
    }
}

pub open spec fn max_i(a: int, b: int) -> int {
    if a >= b {
        a
    } else {
        b
    }
}

/// The selection's width and height fit in an `i32`.
pub open spec fn sel_fits(s: (i32, i32), e: (i32, i32)) -> bool {
    &&& max_i(s.0 as int, e.0 as int) - min_i(s.0 as int, e.0 as int) + 1 <= i32::MAX
    &&& max_i(s.1 as int, e.1 as int) - min_i(s.1 as int, e.1 as int) + 1 <= i32::MAX
}

/// The block at a cell, or air where no chunk is loaded.
pub open spec fn cell_or_air(m: Map<(int, int), Block>, x: int, y: int) -> Block {
    if m.dom().contains((x, y)) {
        m[(x, y)]
    } else {
        plain(BlockId::Air)
    }
}

/// `c` is the `w` by `h` rectangle of `m` whose top-left cell is `(x0, y0)`.
pub open spec fn copied(m: Map<(int, int), Block>, c: ClipboardData, x0: int, y0: int, w: int, h: int) -> bool {
    &&& c.wf()
    &&& c.width == w
    &&& c.height == h
    &&& forall|x: int, y: int| 0 <= x < w && 0 <= y < h ==> #[trigger] c.at(x, y) == cell_or_air(m, x0 + x, y0 + y)
}

/// The cells `(x0, y) .. (x0 + n - 1, y)`, each with block `b`.
pub open spec fn row_targets(x0: int, y: int, n: nat, b: Block) -> Seq<(int, int, Block)> {
    Seq::new(n, |i: int| (x0 + i, y, b))
}

/// The cells of a `w` by `h` rectangle, row by row, each with block `b`.
pub open spec fn rect_targets(x0: int, y0: int, w: nat, h: nat, b: Block) -> Seq<(int, int, Block)>
    decreases h,
{
    if h == 0 {
        Seq::empty()
    } else {
        rect_targets(x0, y0, w, (h - 1) as nat, b) + row_targets(x0, y0 + h - 1, w, b)
    }
}

/// The loaded cells of a row, each with block `b`.
pub open spec fn row_in(m: Map<(int, int), Block>, x0: int, y: int, n: nat, b: Block) -> Seq<(int, int, Block)>
    decreases n,
{
    if n == 0 {
        Seq::empty()
    } else {
        let prev = row_in(m, x0, y, (n - 1) as nat, b);
        if m.dom().contains((x0 + n - 1, y)) {
            prev.push((x0 + n - 1, y, b))
        } else {
            prev
        }
    }
}

/// The loaded cells of a rectangle, row by row, each with block `b`.
pub open spec fn rect_in(m: Map<(int, int), Block>, x0: int, y0: int, w: nat, h: nat, b: Block) -> Seq<(int, int, Block)>
    decreases h,
{
    if h == 0 {
        Seq::empty()
    } else {
        rect_in(m, x0, y0, w, (h - 1) as nat, b) + row_in(m, x0, y0 + h - 1, w, b)
    }
}

/// The cells a row of the clipboard is pasted into: loaded cells under a
/// block that is not air.
pub open spec fn paste_row(m: Map<(int, int), Block>, row: Seq<Block>, x0: int, y: int, n: nat) -> Seq<(int, int, Block)>
    decreases n,
{
    if n == 0 {
        Seq::empty()
    } else {
        let prev = paste_row(m, row, x0, y, (n - 1) as nat);
        if m.dom().contains((x0 + n - 1, y)) && row[n - 1].id != BlockId::Air {
            prev.push((x0 + n - 1, y, row[n - 1]))
        } else {
            prev
        }
    }
}

/// The cells the clipboard is pasted into, row by row.
pub open spec fn paste_targets(m: Map<(int, int), Block>, c: ClipboardData, x0: int, y0: int, h: nat) -> Seq<(int, int, Block)>
    decreases h,
{
    if h == 0 {
        Seq::empty()
    } else {
        paste_targets(m, c, x0, y0, (h - 1) as nat) + paste_row(m, c.rows@[h - 1]@, x0, y0 + h - 1, c.width as nat)
    }
}

proof fn lemma_edits_push(m: Map<(int, int), Block>, ts: Seq<(int, int, Block)>, t: (int, int, Block))
    ensures
        edits(m, ts.push(t)) == ({
            let r = edits(m, ts);
            let e = set_block_effect(r.0, t.0, t.1, t.2);
            (e.0, r.1 + e.1)
        }),
{
    assert(ts.push(t).drop_last() =~= ts);
}

/// The target's cell is loaded and already holds the target's block.
pub open spec fn already_holds(m: Map<(int, int), Block>, t: (int, int, Block)) -> bool {
    m.dom().contains((t.0, t.1)) && m[(t.0, t.1)] == t.2
}

/// Setting cells to the blocks they already hold changes nothing and
/// records nothing.
proof fn lemma_edits_unchanged(m: Map<(int, int), Block>, ts: Seq<(int, int, Block)>)
    requires
        chunk_closed(m),
        forall|i: int| 0 <= i < ts.len() ==> already_holds(m, #[trigger] ts[i]),
    ensures
        edits(m, ts) == (m, Seq::<EditChange>::empty()),
    decreases ts.len(),
{
    if ts.len() > 0 {
        let prev = ts.drop_last();
        assert forall|i: int| 0 <= i < prev.len() implies already_holds(m, #[trigger] prev[i]) by {
            assert(prev[i] == ts[i]);
        }
        lemma_edits_unchanged(m, prev);
        let t = ts.last();
        assert(already_holds(m, ts[ts.len() - 1]));
        lemma_expanded_loaded(m, t.0, t.1);
        assert(Seq::<EditChange>::empty() + Seq::<EditChange>::empty() =~= Seq::<EditChange>::empty());
    }
}

proof fn lemma_paste_row_holds(
    m: Map<(int, int), Block>,
    c: ClipboardData,
    x0: int,
    y0: int,
    w: int,
    h: int,
    yy: int,
    n: nat,
)
    requires
        copied(m, c, x0, y0, w, h),
        0 <= yy < h,
        n <= w,
    ensures
        forall|i: int|
            0 <= i < paste_row(m, c.rows@[yy]@, x0, y0 + yy, n).len() ==> already_holds(
                m,
                #[trigger] paste_row(m, c.rows@[yy]@, x0, y0 + yy, n)[i],
            ),
    decreases n,
{
    if n > 0 {
        let k = (n - 1) as nat;
        lemma_paste_row_holds(m, c, x0, y0, w, h, yy, k);
        assert(c.at(k as int, yy) == cell_or_air(m, x0 + k, y0 + yy));
        let prev = paste_row(m, c.rows@[yy]@, x0, y0 + yy, k);
        let cur = paste_row(m, c.rows@[yy]@, x0, y0 + yy, n);
        assert forall|i: int| 0 <= i < cur.len() implies already_holds(m, #[trigger] cur[i]) by {
            if i < prev.len() {
                assert(cur[i] == prev[i]);
            }
        }
    }
}

proof fn lemma_paste_targets_hold(
    m: Map<(int, int), Block>,
    c: ClipboardData,
    x0: int,
    y0: int,
    w: int,
    h: int,
    hh: nat,
)
    requires
        copied(m, c, x0, y0, w, h),
        hh <= h,
    ensures
        forall|i: int|
            0 <= i < paste_targets(m, c, x0, y0, hh).len() ==> already_holds(
                m,
                #[trigger] paste_targets(m, c, x0, y0, hh)[i],
            ),
    decreases hh,
{
    if hh > 0 {
        let k = (hh - 1) as nat;
        lemma_paste_targets_hold(m, c, x0, y0, w, h, k);
        lemma_paste_row_holds(m, c, x0, y0, w, h, k as int, w as nat);
        let a = paste_targets(m, c, x0, y0, k);
        let b = paste_row(m, c.rows@[k as int]@, x0, y0 + k, c.width as nat);
        assert forall|i: int| 0 <= i < (a + b).len() implies already_holds(m, #[trigger] (a + b)[i]) by {
            if i < a.len() {
                assert((a + b)[i] == a[i]);
            } else {
                assert((a + b)[i] == b[i - a.len()]);
            }
        }
    }
}

/// Pasting a clipboard back where it was copied from changes no block and
/// records no action.
pub proof fn lemma_paste_in_place(
    m: Map<(int, int), Block>,
    c: ClipboardData,
    x0: int,
    y0: int,
    w: int,
    h: int,
    s: HistoryState,
)
    requires
        chunk_closed(m),
        copied(m, c, x0, y0, w, h),
    ensures
        edits(m, paste_targets(m, c, x0, y0, h as nat)) == (m, Seq::<EditChange>::empty()),
        spec_end(s, Some(edits(m, paste_targets(m, c, x0, y0, h as nat)).1)) == s,
{
    lemma_paste_targets_hold(m, c, x0, y0, w, h, h as nat);
    lemma_edits_unchanged(m, paste_targets(m, c, x0, y0, h as nat));
}

pub open spec fn as_targets(v: Seq<(i32, i32, Block)>) -> Seq<(int, int, Block)> {
    v.map_values(|t: (i32, i32, Block)| (t.0 as int, t.1 as int, t.2))
}

/// The non-air cells of a world in storage order, each to be cleared.
pub open spec fn nonair_targets(w: World, n: nat) -> Seq<(int, int, Block)>
    decreases n,
{
    if n == 0 {
        Seq::empty()
    } else {
        let i = n - 1;
        let prev = nonair_targets(w, (n - 1) as nat);
        if w.cells@[i].id != BlockId::Air {
            let p = w.pos_of(i / 256, i % 256);
            prev.push((p.0, p.1, plain(BlockId::Air)))
        } else {
            prev
        }
    }
}

proof fn lemma_as_targets_push(v: Seq<(i32, i32, Block)>, t: (i32, i32, Block))
    ensures
        as_targets(v.push(t)) == as_targets(v).push((t.0 as int, t.1 as int, t.2)),
{
    assert(as_targets(v.push(t)) =~= as_targets(v).push((t.0 as int, t.1 as int, t.2)));
}

/// The `w` by `h` rectangle of blocks whose top-left cell is `(x0, y0)`.
fn read_rect(world: &World, x0: i32, y0: i32, w: usize, h: usize) -> (r: ClipboardData)
    requires
        world.wf(),
        w <= i32::MAX,
        h <= i32::MAX,
        x0 + w <= i32::MAX + 1,
        y0 + h <= i32::MAX + 1,
    ensures
        copied(world@, r, x0 as int, y0 as int, w as int, h as int),
{
    let mut rows: Vec<Vec<Block>> = Vec::new();
    let mut y: usize = 0;
    while y < h
        invariant
            y <= h,
            world.wf(),
            x0 + w <= i32::MAX + 1,
            y0 + h <= i32::MAX + 1,
            w <= i32::MAX,
            h <= i32::MAX,
            rows@.len() == y,
            forall|yy: int| 0 <= yy < y ==> (#[trigger] rows@[yy])@.len() == w,
            forall|xx: int, yy: int|
                0 <= xx < w && 0 <= yy < y ==> #[trigger] rows@[yy]@[xx] == cell_or_air(
                    world@,
                    x0 + xx,
                    y0 + yy,
                ),
        decreases h - y,
    {
        let mut row: Vec<Block> = Vec::new();
        let mut x: usize = 0;
        while x < w
            invariant
                x <= w,
                y < h,
                world.wf(),
                x0 + w <= i32::MAX + 1,
                y0 + h <= i32::MAX + 1,
                w <= i32::MAX,
                h <= i32::MAX,
                row@.len() == x,
                forall|xx: int| 0 <= xx < x ==> #[trigger] row@[xx] == cell_or_air(world@, x0 + xx, y0 + y),
            decreases w - x,
        {
            let wx = x0 + x as i32;
            let wy = y0 + y as i32;
            let b = match world.get(wx, wy) {
                Some(b) => *b,
                None => Block::air(),
            };
            row.push(b);
            x = x + 1;
        }
        let ghost rows0 = rows@;
        rows.push(row);
        proof {
            assert forall|xx: int, yy: int|
                0 <= xx < w && 0 <= yy < y + 1 implies #[trigger] rows@[yy]@[xx] == cell_or_air(
                    world@,
                    x0 + xx,
                    y0 + yy,
                ) by {
                if yy < y {
                    assert(rows@[yy] == rows0[yy]);
                }
            }
        }
        y = y + 1;
    }
    let r = ClipboardData { rows, width: w, height: h };
    proof {
        assert forall|xx: int, yy: int| 0 <= xx < w && 0 <= yy < h implies #[trigger] r.at(xx, yy) == cell_or_air(world@, x0 + xx, y0 + yy) by {
            assert(rows@[yy]@[xx] == cell_or_air(world@, x0 + xx, y0 + yy));
        }
    }
    r
}

/// The cells of a rectangle, row by row, each with block `b`.
fn rect_list(x0: i32, y0: i32, w: usize, h: usize, b: Block) -> (r: Vec<(i32, i32, Block)>)
    requires
        w <= i32::MAX,
        h <= i32::MAX,
        x0 + w <= i32::MAX + 1,
        y0 + h <= i32::MAX + 1,
    ensures
        as_targets(r@) == rect_targets(x0 as int, y0 as int, w as nat, h as nat, b),
{
    let mut r: Vec<(i32, i32, Block)> = Vec::new();
    let mut y: usize = 0;
    proof {
        assert(as_targets(r@) =~= rect_targets(x0 as int, y0 as int, w as nat, 0, b));
    }
    while y < h
        invariant
            y <= h,
            x0 + w <= i32::MAX + 1,
            y0 + h <= i32::MAX + 1,
            w <= i32::MAX,
            h <= i32::MAX,
            as_targets(r@) == rect_targets(x0 as int, y0 as int, w as nat, y as nat, b),
        decreases h - y,
    {
        let ghost base = as_targets(r@);
        let mut x: usize = 0;
        proof {
            assert(base + row_targets(x0 as int, y0 + y, 0, b) =~= base);
        }
        while x < w
            invariant
                x <= w,
                y < h,
                x0 + w <= i32::MAX + 1,
                y0 + h <= i32::MAX + 1,
                w <= i32::MAX,
                h <= i32::MAX,
                as_targets(r@) == base + row_targets(x0 as int, y0 + y, x as nat, b),
            decreases w - x,
        {
            let t = (x0 + x as i32, y0 + y as i32, b);
            proof {
                lemma_as_targets_push(r@, t);
                assert(base + row_targets(x0 as int, y0 + y, (x + 1) as nat, b) =~= (base
                    + row_targets(x0 as int, y0 + y, x as nat, b)).push((t.0 as int, t.1 as int, t.2)));
            }
            r.push(t);
            x = x + 1;
        }
        y = y + 1;
    }
    r
}

/// The loaded cells of a rectangle, row by row, each with block `b`.
fn rect_in_list(world: &World, x0: i32, y0: i32, w: usize, h: usize, b: Block) -> (r: Vec<
    (i32, i32, Block),
>)
    requires
        world.wf(),
        w <= i32::MAX,
        h <= i32::MAX,
        x0 + w <= i32::MAX + 1,
        y0 + h <= i32::MAX + 1,
    ensures
        as_targets(r@) == rect_in(world@, x0 as int, y0 as int, w as nat, h as nat, b),
{
    let mut r: Vec<(i32, i32, Block)> = Vec::new();
    let mut y: usize = 0;
    proof {
        assert(as_targets(r@) =~= rect_in(world@, x0 as int, y0 as int, w as nat, 0, b));
    }
    while y < h
        invariant
            y <= h,
            world.wf(),
            x0 + w <= i32::MAX + 1,
            y0 + h <= i32::MAX + 1,
            w <= i32::MAX,
            h <= i32::MAX,
            as_targets(r@) == rect_in(world@, x0 as int, y0 as int, w as nat, y as nat, b),
        decreases h - y,
    {
        let ghost base = as_targets(r@);
        let mut x: usize = 0;
        proof {
            assert(base + row_in(world@, x0 as int, y0 + y, 0, b) =~= base);
        }
        while x < w
            invariant
                x <= w,
                y < h,
                world.wf(),
                x0 + w <= i32::MAX + 1,
                y0 + h <= i32::MAX + 1,
                w <= i32::MAX,
                h <= i32::MAX,
                as_targets(r@) == base + row_in(world@, x0 as int, y0 + y, x as nat, b),
            decreases w - x,
        {
            let wx = x0 + x as i32;
            let wy = y0 + y as i32;
            if world.in_bounds(wx, wy) {
                let t = (wx, wy, b);
                proof {
                    lemma_as_targets_push(r@, t);
                    assert(base + row_in(world@, x0 as int, y0 + y, (x + 1) as nat, b) =~= (base
                        + row_in(world@, x0 as int, y0 + y, x as nat, b)).push((t.0 as int, t.1 as int, t.2)));
                }
                r.push(t);
            }
            x = x + 1;
        }
        y = y + 1;
    }
    r
}

/// The cells that the clipboard `c` is pasted into at `(x0, y0)`.
fn paste_list(world: &World, c: &ClipboardData, x0: i32, y0: i32) -> (r: Vec<(i32, i32, Block)>)
    requires
        world.wf(),
        c.wf(),
        x0 + c.width <= i32::MAX + 1,
        y0 + c.height <= i32::MAX + 1,
    ensures
        as_targets(r@) == paste_targets(world@, *c, x0 as int, y0 as int, c.height as nat),
{
    let mut r: Vec<(i32, i32, Block)> = Vec::new();
    let mut y: usize = 0;
    proof {
        assert(as_targets(r@) =~= paste_targets(world@, *c, x0 as int, y0 as int, 0));
    }
    while y < c.height
        invariant
            y <= c.height,
            world.wf(),
            c.wf(),
            x0 + c.width <= i32::MAX + 1,
            y0 + c.height <= i32::MAX + 1,
            as_targets(r@) == paste_targets(world@, *c, x0 as int, y0 as int, y as nat),
        decreases c.height - y,
    {
        let ghost base = as_targets(r@);
        let ghost row = c.rows@[y as int]@;
        let mut x: usize = 0;
        proof {
            assert(base + paste_row(world@, row, x0 as int, y0 + y, 0) =~= base);
        }
        while x < c.width
            invariant
                x <= c.width,
                y < c.height,
                world.wf(),
                c.wf(),
                row == c.rows@[y as int]@,
                x0 + c.width <= i32::MAX + 1,
                y0 + c.height <= i32::MAX + 1,
                as_targets(r@) == base + paste_row(world@, row, x0 as int, y0 + y, x as nat),
            decreases c.width - x,
        {
            let wx = x0 + x as i32;
            let wy = y0 + y as i32;
            let b = c.rows[y][x];
            if world.in_bounds(wx, wy) && b.id != BlockId::Air {
                let t = (wx, wy, b);
                proof {
                    lemma_as_targets_push(r@, t);
                    assert(base + paste_row(world@, row, x0 as int, y0 + y, (x + 1) as nat) =~= (base
                        + paste_row(world@, row, x0 as int, y0 + y, x as nat)).push((t.0 as int, t.1 as int, t.2)));
                }
                r.push(t);
            }
            x = x + 1;
        }
        y = y + 1;
    }
    r
}

/// The non-air cells of the world in storage order, each to become air.
fn nonair_list(world: &World) -> (r: Vec<(i32, i32, Block)>)
    requires
        world.wf(),
    ensures
        as_targets(r@) == nonair_targets(*world, world.cells.len() as nat),
{
    let mut r: Vec<(i32, i32, Block)> = Vec::new();
    let n = world.cells.len();
    let mut i: usize = 0;
    proof {
        assert(as_targets(r@) =~= nonair_targets(*world, 0));
    }
    while i < n
        invariant
            i <= n,
            n == world.cells.len(),
            world.wf(),
            as_targets(r@) == nonair_targets(*world, i as nat),
        decreases n - i,
    {
        proof {
            world.lemma_flat(i as int);
        }
        let b = world.block_at(i / 256, i % 256);
        if b.id != BlockId::Air {
            let (x, y) = world.pos_at(i / 256, i % 256);
            let t = (x, y, Block::air());
            proof {
                lemma_as_targets_push(r@, t);
            }
            r.push(t);
        }
        i = i + 1;
    }
    r
}

impl Editor {
    /// Sets each target in turn inside the open action.
    fn set_targets(&mut self, ts: &Vec<(i32, i32, Block)>)
        requires
            old(self).wf(),
            old(self).history.pending() is Some,
        ensures
            final(self).wf(),
            ({
                let e = edits(old(self).world@, as_targets(ts@));
                &&& final(self).world@ == e.0
                &&& final(self).history.state() == old(self).history.state()
                &&& final(self).history.pending() == Some(old(self).history.pending().unwrap() + e.1)
                &&& final(self).simulation_needed == (old(self).simulation_needed || e.1.len() > 0)
                &&& final(self).auto_save_needed == (old(self).auto_save_needed || e.1.len() > 0)
                &&& final(self).dirty == (old(self).dirty || e.1.len() > 0)
            }),
            final(self).clipboard == old(self).clipboard,
            final(self).select_start == old(self).select_start,
            final(self).select_end == old(self).select_end,
            final(self).paste_mode == old(self).paste_mode,
    {
        let ghost a0 = self.history.pending().unwrap();
        let mut i: usize = 0;
        proof {
            assert(ts@.subrange(0, 0) =~= Seq::<(i32, i32, Block)>::empty());
            assert(as_targets(ts@.subrange(0, 0)) =~= Seq::<(int, int, Block)>::empty());
            assert(a0 + Seq::<EditChange>::empty() =~= a0);
        }
        while i < ts.len()
            invariant
                i <= ts.len(),
                self.wf(),
                ({
                    let e = edits(old(self).world@, as_targets(ts@.subrange(0, i as int)));
                    &&& self.world@ == e.0
                    &&& self.history.state() == old(self).history.state()
                    &&& self.history.pending() == Some(a0 + e.1)
                    &&& self.simulation_needed == (old(self).simulation_needed || e.1.len() > 0)
                    &&& self.auto_save_needed == (old(self).auto_save_needed || e.1.len() > 0)
                    &&& self.dirty == (old(self).dirty || e.1.len() > 0)
                }),
                self.clipboard == old(self).clipboard,
                self.select_start == old(self).select_start,
                self.select_end == old(self).select_end,
                self.paste_mode == old(self).paste_mode,
            decreases ts.len() - i,
        {
            let t = ts[i];
            let ghost pre = edits(old(self).world@, as_targets(ts@.subrange(0, i as int)));
            self.set_block(t.0, t.1, t.2);
            proof {
                assert(ts@.subrange(0, i + 1) =~= ts@.subrange(0, i as int).push(t));
                lemma_as_targets_push(ts@.subrange(0, i as int), t);
                lemma_edits_push(
                    old(self).world@,
                    as_targets(ts@.subrange(0, i as int)),
                    (t.0 as int, t.1 as int, t.2),
                );
                let e = set_block_effect(pre.0, t.0 as int, t.1 as int, t.2);
                assert(a0 + pre.1 + e.1 =~= a0 + (pre.1 + e.1));
            }
            i = i + 1;
        }
        proof {
            assert(ts@.subrange(0, ts.len() as int) =~= ts@);
        }
    }

    /// Applies each target as one action (see `edits`).
    fn edit_targets(&mut self, ts: &Vec<(i32, i32, Block)>)
        requires
            old(self).wf(),
        ensures
            final(self).wf(),
            ({
                let e = edits(old(self).world@, as_targets(ts@));
                &&& final(self).world@ == e.0
                &&& final(self).history.state() == spec_end(old(self).history.state(), Some(e.1))
                &&& final(self).history.pending() is None
                &&& final(self).simulation_needed == (old(self).simulation_needed || e.1.len() > 0)
                &&& final(self).auto_save_needed
                &&& final(self).dirty
            }),
            final(self).clipboard == old(self).clipboard,
            final(self).select_start == old(self).select_start,
            final(self).select_end == old(self).select_end,
            final(self).paste_mode == old(self).paste_mode,
    {
        self.edit_begin();
        self.set_targets(ts);
        proof {
            let e = edits(old(self).world@, as_targets(ts@));
            assert(Seq::<EditChange>::empty() + e.1 =~= e.1);
        }
        self.edit_end();
    }

    /// Copies the selected rectangle to the clipboard (cells in no loaded
    /// chunk copy as air).
    pub fn copy_selection(&mut self)
        requires
            old(self).wf(),
            old(self).select_start matches Some(s) ==> old(self).select_end matches Some(e)
                ==> sel_fits(s, e),
        ensures
            final(self).wf(),
            match (old(self).select_start, old(self).select_end) {
                (Some(s), Some(e)) => final(self).clipboard matches Some(c) && copied(
                    old(self).world@,
                    c,
                    min_i(s.0 as int, e.0 as int),
                    min_i(s.1 as int, e.1 as int),
                    max_i(s.0 as int, e.0 as int) - min_i(s.0 as int, e.0 as int) + 1,
                    max_i(s.1 as int, e.1 as int) - min_i(s.1 as int, e.1 as int) + 1,
                ),
                _ => final(self).clipboard == old(self).clipboard,
            },
            final(self).world == old(self).world,
            final(self).history == old(self).history,
            final(self).select_start == old(self).select_start,
            final(self).select_end == old(self).select_end,
            final(self).paste_mode == old(self).paste_mode,
            final(self).simulation_needed == old(self).simulation_needed,
            final(self).auto_save_needed == old(self).auto_save_needed,
            final(self).dirty == old(self).dirty,
    {
        if let (Some(s), Some(e)) = (self.select_start, self.select_end) {
            let x0 = if s.0 <= e.0 { s.0 } else { e.0 };
            let x1 = if s.0 >= e.0 { s.0 } else { e.0 };
            let y0 = if s.1 <= e.1 { s.1 } else { e.1 };
            let y1 = if s.1 >= e.1 { s.1 } else { e.1 };
            let w = (x1 - x0 + 1) as usize;
            let h = (y1 - y0 + 1) as usize;
            let clip = read_rect(&self.world, x0, y0, w, h);
            self.clipboard = Some(clip);
        }
    }

    /// Copies the selected rectangle to the clipboard, then turns every cell
    /// of it into air as one action (loading its chunks), and clears the
    /// selection.
    pub fn cut_selection(&mut self)
        requires
            old(self).wf(),
            old(self).select_start matches Some(s) ==> old(self).select_end matches Some(e)
                ==> sel_fits(s, e),
        ensures
            final(self).wf(),
            match (old(self).select_start, old(self).select_end) {
                (Some(s), Some(e)) => {
                    let x0 = min_i(s.0 as int, e.0 as int);
                    let y0 = min_i(s.1 as int, e.1 as int);
                    let w = max_i(s.0 as int, e.0 as int) - x0 + 1;
                    let h = max_i(s.1 as int, e.1 as int) - y0 + 1;
                    let ed = edits(old(self).world@, rect_targets(x0, y0, w as nat, h as nat, plain(BlockId::Air)));
                    &&& final(self).clipboard matches Some(c) && copied(old(self).world@, c, x0, y0, w, h)
                    &&& final(self).world@ == ed.0
                    &&& final(self).history.state() == spec_end(old(self).history.state(), Some(ed.1))
                    &&& final(self).history.pending() is None
                    &&& final(self).simulation_needed == (old(self).simulation_needed || ed.1.len() > 0)
                    &&& final(self).auto_save_needed
                    &&& final(self).dirty
                    &&& final(self).select_start is None
                    &&& final(self).select_end is None
                },
                _ => *final(self) == *old(self),
            },
            final(self).paste_mode == old(self).paste_mode,
    {
        if let (Some(s), Some(e)) = (self.select_start, self.select_end) {
            let x0 = if s.0 <= e.0 { s.0 } else { e.0 };
            let x1 = if s.0 >= e.0 { s.0 } else { e.0 };
            let y0 = if s.1 <= e.1 { s.1 } else { e.1 };
            let y1 = if s.1 >= e.1 { s.1 } else { e.1 };
            let w = (x1 - x0 + 1) as usize;
            let h = (y1 - y0 + 1) as usize;
            let clip = read_rect(&self.world, x0, y0, w, h);
            let ts = rect_list(x0, y0, w, h, Block::air());
            self.edit_targets(&ts);
            self.clipboard = Some(clip);
            self.select_start = None;
            self.select_end = None;
        }
    }

    /// Pastes the clipboard with its top-left cell at `(wx, wy)`, as one
    /// action: every loaded cell under a block of the clipboard that is not
    /// air takes that block. Nothing happens with an empty clipboard.
    pub fn paste_clipboard(&mut self, wx: i32, wy: i32)
        requires
            old(self).wf(),
            paste_fits(*old(self), wx as int, wy as int),
        ensures
            paste_done(*old(self), *final(self), wx as int, wy as int),
    {
        let ts = match &self.clipboard {
            Some(c) => paste_list(&self.world, c, wx, wy),
            None => {
                return;
            },
        };
        self.edit_targets(&ts);
    }

    /// The width and height of the selected rectangle, if one is selected.
    pub fn get_selection_size(&self) -> (r: Option<(i32, i32)>)
        requires
            self.select_start matches Some(s) ==> self.select_end matches Some(e) ==> sel_fits(s, e),
        ensures
            match (self.select_start, self.select_end) {
                (Some(s), Some(e)) => r == Some(
                    (
                        (max_i(s.0 as int, e.0 as int) - min_i(s.0 as int, e.0 as int) + 1) as i32,
                        (max_i(s.1 as int, e.1 as int) - min_i(s.1 as int, e.1 as int) + 1) as i32,
                    ),
                ),
                _ => r is None,
            },
    {
        let s = self.select_start?;
        let e = self.select_end?;
        let x0 = if s.0 <= e.0 { s.0 } else { e.0 };
        let x1 = if s.0 >= e.0 { s.0 } else { e.0 };
        let y0 = if s.1 <= e.1 { s.1 } else { e.1 };
        let y1 = if s.1 >= e.1 { s.1 } else { e.1 };
        Some((x1 - x0 + 1, y1 - y0 + 1))
    }

    /// Turns every loaded cell of the selected rectangle into air as one
    /// action, and clears the selection.
    pub fn delete_selection(&mut self)
        requires
            old(self).wf(),
            old(self).select_start matches Some(s) ==> old(self).select_end matches Some(e)
                ==> sel_fits(s, e),
        ensures
            final(self).wf(),
            match (old(self).select_start, old(self).select_end) {
                (Some(s), Some(e)) => {
                    let x0 = min_i(s.0 as int, e.0 as int);
                    let y0 = min_i(s.1 as int, e.1 as int);
                    let w = max_i(s.0 as int, e.0 as int) - x0 + 1;
                    let h = max_i(s.1 as int, e.1 as int) - y0 + 1;
                    let ed = edits(old(self).world@, rect_in(old(self).world@, x0, y0, w as nat, h as nat, plain(BlockId::Air)));
                    &&& final(self).world@ == ed.0
                    &&& final(self).history.state() == spec_end(old(self).history.state(), Some(ed.1))
                    &&& final(self).history.pending() is None
                    &&& final(self).simulation_needed == (old(self).simulation_needed || ed.1.len() > 0)
                    &&& final(self).auto_save_needed
                    &&& final(self).dirty
                    &&& final(self).clipboard == old(self).clipboard
                    &&& final(self).select_start is None
                    &&& final(self).select_end is None
                },
                _ => *final(self) == *old(self),
            },
            final(self).paste_mode == old(self).paste_mode,
    {
        if let (Some(s), Some(e)) = (self.select_start, self.select_end) {
            let x0 = if s.0 <= e.0 { s.0 } else { e.0 };
            let x1 = if s.0 >= e.0 { s.0 } else { e.0 };
            let y0 = if s.1 <= e.1 { s.1 } else { e.1 };
            let y1 = if s.1 >= e.1 { s.1 } else { e.1 };
            let w = (x1 - x0 + 1) as usize;
            let h = (y1 - y0 + 1) as usize;
            let ts = rect_in_list(&self.world, x0, y0, w, h, Block::air());
            self.edit_targets(&ts);
            self.select_start = None;
            self.select_end = None;
        }
    }

    /// Turns every non-air cell of the world into air, as one action.
    pub fn clear_all(&mut self)
        requires
            old(self).wf(),
        ensures
            final(self).wf(),
            ({
                let ed = edits(old(self).world@, nonair_targets(old(self).world, old(self).world.cells.len() as nat));
                &&& final(self).world@ == ed.0
                &&& final(self).history.state() == spec_end(old(self).history.state(), Some(ed.1))
                &&& final(self).history.pending() is None
                &&& final(self).simulation_needed == (old(self).simulation_needed || ed.1.len() > 0)
                &&& final(self).auto_save_needed
                &&& final(self).dirty
            }),
            final(self).clipboard == old(self).clipboard,
            final(self).select_start == old(self).select_start,
            final(self).select_end == old(self).select_end,
            final(self).paste_mode == old(self).paste_mode,
    {
        let ts = nonair_list(&self.world);
        self.edit_targets(&ts);
    }
}

} // verus!
