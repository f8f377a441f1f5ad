use vstd::prelude::*;

pub mod power;
pub mod components;

use crate::constants::MAX_ITERATIONS;
use crate::world::World;
use components::{lemma_quiet_tick, spec_components_changed, spec_update_components, update_components};
use power::{
    calculate_wire_power, lemma_wire_power_idempotent, spec_calculate_wire_power, wire_power_settled,
    Cells,
};

verus! {

/// One simulation step: the wire pass, then one tick of the components.
/// Yields the new world and whether the components recorded a write.
pub open spec fn spec_step(w: Cells) -> (Cells, bool) {
    let m = spec_calculate_wire_power(w);
    (spec_update_components(m), spec_components_changed(m))
}

/// Up to `fuel` steps, stopping after the first step that records no write.
/// Yields the final world and whether any step recorded a write.
pub open spec fn spec_run(w: Cells, fuel: nat) -> (Cells, bool)
    decreases fuel,
{
    if fuel == 0 {
        (w, false)
    } else {
        let (w1, c) = spec_step(w);
        if c {
            (spec_run(w1, (fuel - 1) as nat).0, true)
        } else {
            (w1, false)
        }
    }
}

/// Steps the simulation until it records no write, at most 20 times.
pub fn update_simulation(world: &mut World) -> (any_changed: bool)
    requires
        old(world).wf(),
    ensures
        final(world).wf(),
        final(world).keys@ == old(world).keys@,
        (final(world)@, any_changed) == spec_run(old(world)@, 20),
{
    let mut any_changed = false;
    let mut i: usize = 0;
    while i < MAX_ITERATIONS
        invariant
            i <= 20,
            world.wf(),
            world.keys@ == old(world).keys@,
            any_changed == (i > 0),
            spec_run(old(world)@, 20) == if i == 0 {
                spec_run(world@, 20)
            } else {
                (spec_run(world@, (20 - i) as nat).0, true)
            },
        decreases 20 - i,
    {
        if step_simulation(world) {
            any_changed = true;
        } else {
            return any_changed;
        }
        i = i + 1;
    }
    any_changed
}

pub fn step_simulation(world: &mut World) -> (changed: bool)
    requires
        old(world).wf(),
    ensures
        final(world).wf(),
        final(world).keys@ == old(world).keys@,
        (final(world)@, changed) == spec_step(old(world)@),
{
    calculate_wire_power(world);
    update_components(world)
}

/// A step that records no write reaches a still world: the world it leaves
/// is the wire pass's result, and stepping it again changes nothing and
/// records no write.
pub proof fn lemma_quiet_step_is_still(w: Cells, f: Cells)
    requires
        wire_power_settled(w, f),
        !spec_step(w).1,
    ensures
        spec_step(w).0 == f,
        spec_step(f) == (f, false),
{
    lemma_wire_power_idempotent(w, f);
    lemma_quiet_tick(f);
}

/// The world after `k` simulation steps.
pub open spec fn iterate(w: Cells, k: nat) -> Cells
    decreases k,
{
    if k == 0 {
        w
    } else {
        iterate(spec_step(w).0, (k - 1) as nat)
    }
}

/// The number of steps a run of at most `n` steps takes: up to and
/// including the first step that records no write, or `n` if every step
/// records one.
pub open spec fn steps_taken(w: Cells, n: nat) -> nat
    decreases n,
{
    if n == 0 {
        0
    } else if !spec_step(w).1 {
        1
    } else {
        1 + steps_taken(spec_step(w).0, (n - 1) as nat)
    }
}

/// A run of at most `n` steps is that many single steps in a row: it ends
/// with the world after `steps_taken(w, n)` steps, and it reports a change
/// exactly when its first step recorded one (later steps only run after a
/// change).
pub proof fn lemma_run_is_iterated_steps(w: Cells, n: nat)
    ensures
        spec_run(w, n) == (iterate(w, steps_taken(w, n)), n > 0 && spec_step(w).1),
        steps_taken(w, n) <= n,
        n > 0 ==> steps_taken(w, n) >= 1,
        forall|i: nat|
            1 <= i < steps_taken(w, n) ==> #[trigger] spec_step(iterate(w, (i - 1) as nat)).1,
        0 < steps_taken(w, n) < n ==> !spec_step(iterate(w, (steps_taken(w, n) - 1) as nat)).1,
    decreases n,
{
    if n > 0 {
        let w1 = spec_step(w).0;
        assert(iterate(w1, 0) == w1);
        if spec_step(w).1 {
            lemma_run_is_iterated_steps(w1, (n - 1) as nat);
            let k1 = steps_taken(w1, (n - 1) as nat);
            assert(iterate(w, k1 + 1) == iterate(w1, k1));
            assert forall|i: nat| 1 <= i < steps_taken(w, n) implies #[trigger] spec_step(
                iterate(w, (i - 1) as nat),
            ).1 by {
                if i >= 2 {
                    assert(iterate(w, (i - 1) as nat) == iterate(w1, (i - 2) as nat));
                    assert(spec_step(iterate(w1, ((i - 1) - 1) as nat)).1);
                }
            }
            let k = steps_taken(w, n);
            if 0 < k < n {
                assert(iterate(w, (k - 1) as nat) == iterate(w1, (k - 2) as nat));
            }
        }
    }
}

} // verus!
