//! What undo and redo do to the world, stated over whole actions.

use vstd::prelude::*;

use crate::block::Block;
use crate::editor::{edits, replay_new, replay_old, set_block_effect};
use crate::history::EditChange;
use crate::world::{chunk_closed, chunk_of, expanded, lemma_expanded_closed, lemma_expanded_loaded};

verus! {

/// The change `c` is at the cell `p`.
pub open spec fn change_at(c: EditChange, p: (int, int)) -> bool {
    c.x as int == p.0 && c.y as int == p.1
}

/// The last change of `cs` at the cell `p`.
pub open spec fn last_change(cs: Seq<EditChange>, p: (int, int)) -> Option<EditChange>
    decreases cs.len(),
{
    if cs.len() == 0 {
        None
    } else if change_at(cs.last(), p) {
        Some(cs.last())
    } else {
        last_change(cs.drop_last(), p)
    }
}

/// The first change of `cs` at the cell `p`.
pub open spec fn first_change(cs: Seq<EditChange>, p: (int, int)) -> Option<EditChange>
    decreases cs.len(),
{
    if cs.len() == 0 {
        None
    } else {
        let r = first_change(cs.drop_last(), p);
        if r is Some {
            r
        } else if change_at(cs.last(), p) {
            Some(cs.last())
        } else {
            None
        }
    }
}

/// No cell is changed twice.
pub open spec fn cells_distinct(cs: Seq<EditChange>) -> bool {
    forall|i: int, j: int|
        0 <= i < j < cs.len() ==> !change_at(#[trigger] cs[i], (#[trigger] cs[j].x as int, cs[j].y as int))
}

/// Every target lies on an `i32` cell.
pub open spec fn targets_in_i32(ts: Seq<(int, int, Block)>) -> bool {
    forall|i: int|
        0 <= i < ts.len() ==> i32::MIN <= #[trigger] ts[i].0 <= i32::MAX && i32::MIN <= ts[i].1
            <= i32::MAX
}

/// `m` with the chunk of every target loaded.
pub open spec fn loaded(m: Map<(int, int), Block>, ts: Seq<(int, int, Block)>) -> Map<
    (int, int),
    Block,
>
    decreases ts.len(),
{
    if ts.len() == 0 {
        m
    } else {
        let t = ts.last();
        expanded(loaded(m, ts.drop_last()), chunk_of(t.0), chunk_of(t.1))
    }
}

/// The world map after `edits(m, ts)`: each changed cell holds the new
/// block of its last change, every other cell is as loading left it; the
/// first change of a cell saw the block that loading left there.
proof fn lemma_edits(m: Map<(int, int), Block>, ts: Seq<(int, int, Block)>)
    requires
        chunk_closed(m),
        targets_in_i32(ts),
    ensures
        ({
            let r = edits(m, ts);
            let l = loaded(m, ts);
            &&& chunk_closed(l)
            &&& r.0.dom() == l.dom()
            &&& forall|p: (int, int)|
                #[trigger] l.dom().contains(p) ==> r.0[p] == match last_change(r.1, p) {
                    Some(c) => c.new_block,
                    None => l[p],
                }
            &&& forall|p: (int, int)|
                (#[trigger] last_change(r.1, p) is Some) == (first_change(r.1, p) is Some)
            &&& forall|p: (int, int)|
                #[trigger] first_change(r.1, p) matches Some(c) ==> l.dom().contains(p)
                    && c.old_block == l[p]
        }),
    decreases ts.len(),
{
    if ts.len() > 0 {
        let prev = ts.drop_last();
        assert(targets_in_i32(prev)) by {
            assert forall|i: int| 0 <= i < prev.len() implies i32::MIN <= #[trigger] prev[i].0
                <= i32::MAX && i32::MIN <= prev[i].1 <= i32::MAX by {
                assert(prev[i] == ts[i]);
            }
        }
        lemma_edits(m, prev);
        let r = edits(m, prev);
        let l = loaded(m, prev);
        let t = ts.last();
        assert(t == ts[ts.len() - 1]);
        let cx = chunk_of(t.0);
        let cy = chunk_of(t.1);
        let me = expanded(r.0, cx, cy);
        let l2 = expanded(l, cx, cy);
        lemma_expanded_closed(l, cx, cy);
        let e = set_block_effect(r.0, t.0, t.1, t.2);
        let r2 = edits(m, ts);
        assert(r2 == (e.0, r.1 + e.1));
        assert(me.dom() =~= l2.dom());
        let q = (t.0, t.1);
        assert(l2.dom().contains(q));
        if me[q] != t.2 {
            let c = EditChange { x: t.0 as i32, y: t.1 as i32, old_block: me[q], new_block: t.2 };
            assert(e.1 == seq![c]);
            let cs2 = r.1 + e.1;
            assert(cs2.drop_last() =~= r.1);
            assert(cs2.last() == c);
            assert(change_at(c, q));
            assert(r2.0.dom() =~= l2.dom());
            assert forall|p: (int, int)| #[trigger] l2.dom().contains(p) implies r2.0[p] == match last_change(
                cs2,
                p,
            ) {
                Some(c) => c.new_block,
                None => l2[p],
            } by {
                if p != q {
                    if l.dom().contains(p) {
                    } else {
                        if last_change(r.1, p) is Some {
                            assert(first_change(r.1, p) is Some);
                        }
                    }
                }
            }
            assert forall|p: (int, int)| (#[trigger] last_change(cs2, p) is Some) == (first_change(
                cs2,
                p,
            ) is Some) by {
                assert(last_change(r.1, p) is Some == first_change(r.1, p) is Some);
            }
            assert forall|p: (int, int)| #[trigger] first_change(cs2, p) is Some implies l2.dom().contains(p)
                && first_change(cs2, p)->0.old_block == l2[p] by {
                if first_change(r.1, p) is Some {
                    let c1 = first_change(r.1, p)->0;
                    assert(first_change(cs2, p) == Some(c1));
                    assert(l.dom().contains(p) && c1.old_block == l[p]);
                    assert(l2[p] == l[p]);
                } else {
                    assert(first_change(cs2, p) == Some(c));
                    assert(last_change(r.1, p) is None);
                    assert(change_at(c, p));
                    assert(i32::MIN <= ts[ts.len() - 1].0 <= i32::MAX);
                    assert(i32::MIN <= t.1 <= i32::MAX);
                    assert(p == q);
                    if l.dom().contains(q) {
                        assert(r.0[q] == l[q]);
                    }
                }
            }
        } else {
            assert(e.1 =~= Seq::<EditChange>::empty());
            assert(r.1 + e.1 =~= r.1);
            assert forall|p: (int, int)| #[trigger] l2.dom().contains(p) implies r2.0[p] == match last_change(
                r.1,
                p,
            ) {
                Some(c) => c.new_block,
                None => l2[p],
            } by {
                if !l.dom().contains(p) {
                    if last_change(r.1, p) is Some {
                        assert(first_change(r.1, p) is Some);
                    }
                }
            }
        }
    }
}

/// Replaying the old (or new) blocks of `cs` on a map that holds all their
/// cells writes, at each changed cell, the block of its last change.
proof fn lemma_replay(m: Map<(int, int), Block>, cs: Seq<EditChange>)
    requires
        chunk_closed(m),
        forall|i: int| 0 <= i < cs.len() ==> m.dom().contains((#[trigger] cs[i].x as int, cs[i].y as int)),
    ensures
        chunk_closed(replay_old(m, cs)),
        chunk_closed(replay_new(m, cs)),
        replay_old(m, cs).dom() == m.dom(),
        replay_new(m, cs).dom() == m.dom(),
        forall|p: (int, int)|
            #[trigger] m.dom().contains(p) ==> replay_old(m, cs)[p] == match last_change(cs, p) {
                Some(c) => c.old_block,
                None => m[p],
            } && replay_new(m, cs)[p] == match last_change(cs, p) {
                Some(c) => c.new_block,
                None => m[p],
            },
    decreases cs.len(),
{
    if cs.len() > 0 {
        let prev = cs.drop_last();
        assert forall|i: int| 0 <= i < prev.len() implies m.dom().contains(
            (#[trigger] prev[i].x as int, prev[i].y as int),
        ) by {
            assert(prev[i] == cs[i]);
        }
        lemma_replay(m, prev);
        let c = cs.last();
        assert(c == cs[cs.len() - 1]);
        let q = (c.x as int, c.y as int);
        let ro = replay_old(m, prev);
        let rn = replay_new(m, prev);
        lemma_expanded_loaded(ro, q.0, q.1);
        lemma_expanded_loaded(rn, q.0, q.1);
        assert(replay_old(m, cs) == ro.insert(q, c.old_block));
        assert(replay_new(m, cs) == rn.insert(q, c.new_block));
        assert(replay_old(m, cs).dom() =~= m.dom());
        assert(replay_new(m, cs).dom() =~= m.dom());
    }
}

proof fn lemma_first_change_in(cs: Seq<EditChange>, p: (int, int))
    ensures
        first_change(cs, p) matches Some(c) ==> exists|i: int|
            0 <= i < cs.len() && #[trigger] cs[i] == c && change_at(c, p),
    decreases cs.len(),
{
    if cs.len() > 0 {
        lemma_first_change_in(cs.drop_last(), p);
        if first_change(cs.drop_last(), p) is Some {
            let c = first_change(cs.drop_last(), p)->0;
            let i = choose|i: int|
                0 <= i < cs.drop_last().len() && #[trigger] cs.drop_last()[i] == c && change_at(c, p);
            assert(cs[i] == c);
        } else if change_at(cs.last(), p) {
            assert(cs[cs.len() - 1] == cs.last());
        }
    }
}

proof fn lemma_distinct_first_last(cs: Seq<EditChange>, p: (int, int))
    requires
        cells_distinct(cs),
    ensures
        first_change(cs, p) == last_change(cs, p),
    decreases cs.len(),
{
    if cs.len() > 0 {
        let prev = cs.drop_last();
        assert(cells_distinct(prev)) by {
            assert forall|i: int, j: int| 0 <= i < j < prev.len() implies !change_at(
                #[trigger] prev[i],
                (#[trigger] prev[j].x as int, prev[j].y as int),
            ) by {
                assert(prev[i] == cs[i] && prev[j] == cs[j]);
            }
        }
        lemma_distinct_first_last(prev, p);
        if change_at(cs.last(), p) {
            lemma_first_change_in(prev, p);
            if first_change(prev, p) is Some {
                let c = first_change(prev, p)->0;
                let i = choose|i: int| 0 <= i < prev.len() && #[trigger] prev[i] == c && change_at(c, p);
                assert(cs[i] == c);
                assert(!change_at(cs[i], (cs[cs.len() - 1].x as int, cs[cs.len() - 1].y as int)));
            }
        }
    }
}

/// Undoing an action writes back what was there before it: after the
/// edits `ts` change the world map `m`, replaying the old blocks of the
/// recorded changes gives `m` with the touched chunks loaded, provided the
/// action changed no cell twice.
pub proof fn lemma_undo_restores(m: Map<(int, int), Block>, ts: Seq<(int, int, Block)>)
    requires
        chunk_closed(m),
        targets_in_i32(ts),
        cells_distinct(edits(m, ts).1),
    ensures
        replay_old(edits(m, ts).0, edits(m, ts).1) == loaded(m, ts),
{
    lemma_edits(m, ts);
    let r = edits(m, ts);
    let l = loaded(m, ts);
    assert forall|i: int| 0 <= i < r.1.len() implies r.0.dom().contains(
        (#[trigger] r.1[i].x as int, r.1[i].y as int),
    ) by {
        let p = (r.1[i].x as int, r.1[i].y as int);
        lemma_first_change_in(r.1, p);
        if first_change(r.1, p) is None {
            assert(last_change(r.1, p) is None);
            lemma_last_change_some(r.1, i);
        }
    }
    lemma_replay(r.0, r.1);
    assert forall|p: (int, int)| #[trigger] l.dom().contains(p) implies replay_old(r.0, r.1)[p]
        == l[p] by {
        lemma_distinct_first_last(r.1, p);
    }
    assert(replay_old(r.0, r.1) =~= l);
}

proof fn lemma_last_change_some(cs: Seq<EditChange>, i: int)
    requires
        0 <= i < cs.len(),
    ensures
        last_change(cs, (cs[i].x as int, cs[i].y as int)) is Some,
    decreases cs.len(),
{
    let p = (cs[i].x as int, cs[i].y as int);
    if i < cs.len() - 1 && !change_at(cs.last(), p) {
        assert(cs.drop_last()[i] == cs[i]);
        lemma_last_change_some(cs.drop_last(), i);
    }
}

/// Redoing an undone action gives back the world as the action left it,
/// whatever cells it changed.
pub proof fn lemma_redo_after_undo(m: Map<(int, int), Block>, ts: Seq<(int, int, Block)>)
    requires
        chunk_closed(m),
        targets_in_i32(ts),
    ensures
        replay_new(replay_old(edits(m, ts).0, edits(m, ts).1), edits(m, ts).1) == edits(m, ts).0,
{
    lemma_edits(m, ts);
    let r = edits(m, ts);
    let l = loaded(m, ts);
    assert forall|i: int| 0 <= i < r.1.len() implies r.0.dom().contains(
        (#[trigger] r.1[i].x as int, r.1[i].y as int),
    ) by {
        let p = (r.1[i].x as int, r.1[i].y as int);
        lemma_last_change_some(r.1, i);
        assert(first_change(r.1, p) is Some);
    }
    lemma_replay(r.0, r.1);
    let u = replay_old(r.0, r.1);
    assert forall|i: int| 0 <= i < r.1.len() implies u.dom().contains(
        (#[trigger] r.1[i].x as int, r.1[i].y as int),
    ) by {
        assert(r.0.dom().contains((r.1[i].x as int, r.1[i].y as int)));
    }
    lemma_replay(u, r.1);
    assert forall|p: (int, int)| #[trigger] r.0.dom().contains(p) implies replay_new(u, r.1)[p]
        == r.0[p] by {
        assert(l.dom().contains(p));
    }
    assert(replay_new(u, r.1) =~= r.0);
}

/// Undo writes each change's old block back: replaying the old blocks of
/// an action whose changes are at distinct, loaded cells leaves each changed
/// cell with the block it held before its change, and every other cell as it
/// was; no chunk is loaded.
pub proof fn lemma_undo_writes_old_blocks(m: Map<(int, int), Block>, cs: Seq<EditChange>)
    requires
        chunk_closed(m),
        cells_distinct(cs),
        forall|i: int| 0 <= i < cs.len() ==> m.dom().contains((#[trigger] cs[i].x as int, cs[i].y as int)),
    ensures
        replay_old(m, cs).dom() == m.dom(),
        forall|i: int|
            0 <= i < cs.len() ==> replay_old(m, cs)[(#[trigger] cs[i].x as int, cs[i].y as int)]
                == cs[i].old_block,
        forall|p: (int, int)|
            #[trigger] m.dom().contains(p) && (forall|i: int| 0 <= i < cs.len() ==> !change_at(cs[i], p))
                ==> replay_old(m, cs)[p] == m[p],
{
    lemma_replay(m, cs);
    assert forall|i: int| 0 <= i < cs.len() implies replay_old(m, cs)[(#[trigger] cs[i].x as int, cs[i].y as int)]
        == cs[i].old_block by {
        let p = (cs[i].x as int, cs[i].y as int);
        lemma_last_change_is(cs, i);
        assert(m.dom().contains(p));
    }
    assert forall|p: (int, int)| #[trigger] m.dom().contains(p) && (forall|i: int| 0 <= i < cs.len() ==> !change_at(cs[i], p))
        implies replay_old(m, cs)[p] == m[p] by {
        lemma_no_change_none(cs, p);
    }
}

/// With no cell changed twice, the last change at a changed cell is that
/// change.
proof fn lemma_last_change_is(cs: Seq<EditChange>, i: int)
    requires
        cells_distinct(cs),
        0 <= i < cs.len(),
    ensures
        last_change(cs, (cs[i].x as int, cs[i].y as int)) == Some(cs[i]),
    decreases cs.len(),
{
    let p = (cs[i].x as int, cs[i].y as int);
    if i < cs.len() - 1 {
        assert(!change_at(cs[i], (cs[cs.len() - 1].x as int, cs[cs.len() - 1].y as int)));
        assert(!change_at(cs.last(), p));
        let prev = cs.drop_last();
        assert(cells_distinct(prev)) by {
            assert forall|a: int, b: int| 0 <= a < b < prev.len() implies !change_at(
                #[trigger] prev[a],
                (#[trigger] prev[b].x as int, prev[b].y as int),
            ) by {
                assert(prev[a] == cs[a] && prev[b] == cs[b]);
            }
        }
        assert(prev[i] == cs[i]);
        lemma_last_change_is(prev, i);
    }
}

proof fn lemma_no_change_none(cs: Seq<EditChange>, p: (int, int))
    requires
        forall|i: int| 0 <= i < cs.len() ==> !change_at(cs[i], p),
    ensures
        last_change(cs, p) is None,
    decreases cs.len(),
{
    if cs.len() > 0 {
        let prev = cs.drop_last();
        assert(!change_at(cs[cs.len() - 1], p));
        assert forall|i: int| 0 <= i < prev.len() implies !change_at(prev[i], p) by {
            assert(prev[i] == cs[i]);
        }
        lemma_no_change_none(prev, p);
    }
}

} // verus!
