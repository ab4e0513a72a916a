//! Cross-cutting laws of the simulation.
//!
//! Each pass of the simulation states its own contract; this module
//! composes those per-pass promises into the guarantees that hold over
//! whole runs: a peg's `hit` flag, once true, never reverts; a
//! scheduled action fires at most once; a powerup's cost never rises;
//! and plant growth never spends more energy than was handed to the
//! queue, measured by the growth potential — the total energy of all
//! pending growth actions.

use vstd::prelude::*;
use crate::components::{Entity, Record, ActionKind};
use crate::world::{World, evolves, pegs_stable, lemma_live_interpolation, lemma_killed_stays_killed, lemma_evolves_transitive};

verus! {

/// The growth energy a record holds: the energy of its pending growth
/// action, if that is what it carries.
pub open spec fn spec_grow_energy_of(r: Record) -> int {
    match r.pending {
        Some(p) => match p.kind {
            ActionKind::GrowPlant { energy, .. } => energy as int,
            _ => 0,
        },
        None => 0,
    }
}

/// The growth energy stored in slot `i`.
pub open spec fn spec_slot_grow_energy(w: World, i: int) -> int {
    if 0 <= i < w.slots@.len() && w.slots@[i].rec is Some {
        spec_grow_energy_of(w.slots@[i].rec.unwrap())
    } else {
        0
    }
}

/// Growth energy summed over the first `n` slots.
pub open spec fn spec_grow_potential_upto(w: World, n: int) -> int
    decreases n,
{
    if n <= 0 {
        0
    } else {
        spec_grow_potential_upto(w, n - 1) + spec_slot_grow_energy(w, n - 1)
    }
}

/// The growth potential of a world: the total energy of every pending
/// growth action.  Each firing pays out of this budget, so it bounds
/// all the growth that can ever happen.
pub open spec fn spec_grow_potential(w: World) -> int {
    spec_grow_potential_upto(w, w.slots@.len() as int)
}

/// The potential is a sum of non-negative terms.
pub proof fn lemma_potential_upto_nonneg(w: World, n: int)
    ensures
        spec_grow_potential_upto(w, n) >= 0,
    decreases n,
{
    if n > 0 {
        lemma_potential_upto_nonneg(w, n - 1);
    }
}

/// Two worlds whose slots hold equal growth energy below `n`, except
/// possibly at `k`, have potentials differing exactly by the change at
/// `k`.
proof fn lemma_potential_upto_diff(w1: World, w2: World, n: int, k: int)
    requires
        forall|i: int| 0 <= i < n && i != k ==> spec_slot_grow_energy(w1, i)
            == spec_slot_grow_energy(w2, i),
    ensures
        0 <= k < n ==> spec_grow_potential_upto(w2, n) == spec_grow_potential_upto(w1, n)
            - spec_slot_grow_energy(w1, k) + spec_slot_grow_energy(w2, k),
        !(0 <= k < n) ==> spec_grow_potential_upto(w2, n) == spec_grow_potential_upto(w1, n),
    decreases n,
{
    if n > 0 {
        lemma_potential_upto_diff(w1, w2, n - 1, k);
    }
}

/// A world operation that touches at most the one entity `e` — every
/// other entity keeps its liveness and record, and at most one slot is
/// appended — moves the growth potential exactly by the change at `e`.
pub proof fn lemma_potential_single_diff(pre: World, post: World, e: Entity)
    requires
        evolves(pre, post),
        post.slots@.len() <= pre.slots@.len() + 1,
        forall|e2: Entity| e2 != e ==> (post.spec_live(e2) <==> pre.spec_live(e2)),
        forall|e2: Entity|
            e2 != e && pre.spec_live(e2) ==> post.spec_record(e2) == pre.spec_record(e2),
    ensures
        spec_grow_potential(post) == spec_grow_potential(pre) - (if pre.spec_live(e) {
            spec_grow_energy_of(pre.spec_record(e))
        } else {
            0
        }) + (if post.spec_live(e) {
            spec_grow_energy_of(post.spec_record(e))
        } else {
            0
        }),
{
    let n1 = pre.slots@.len() as int;
    let n2 = post.slots@.len() as int;
    let k = e.index as int;
    assert(pre.slots@.len() <= usize::MAX) by {
        assert(pre.slots.len() == pre.slots@.len());
    }
    assert(post.slots@.len() <= usize::MAX) by {
        assert(post.slots.len() == post.slots@.len());
    }
    let pre_term: int = if pre.spec_live(e) {
        spec_grow_energy_of(pre.spec_record(e))
    } else {
        0
    };
    let post_term: int = if post.spec_live(e) {
        spec_grow_energy_of(post.spec_record(e))
    } else {
        0
    };

    assert forall|i: int| 0 <= i < n1 && i != k implies spec_slot_grow_energy(pre, i)
        == spec_slot_grow_energy(post, i) by {
        if pre.slots@[i].rec is Some {
            let e2 = Entity { index: i as usize, generation: pre.slots@[i].generation };
            assert(pre.spec_live(e2));
            assert(post.spec_live(e2));
            assert(post.spec_record(e2) == pre.spec_record(e2));
        } else {
            if post.slots@[i].rec is Some {
                let e3 = Entity { index: i as usize, generation: post.slots@[i].generation };
                assert(post.spec_live(e3));
                assert(pre.spec_live(e3));
                assert(false);
            }
        }
    }
    lemma_potential_upto_diff(pre, post, n1, k);

    // The delta at `e`'s own slot is exactly the change of `e`'s
    // energy term: another occupant of the slot survives unchanged on
    // both sides, and a slot `e` fills is empty before.
    if 0 <= k < n1 {
        assert(spec_slot_grow_energy(post, k) - spec_slot_grow_energy(pre, k) == post_term
            - pre_term) by {
            if pre.spec_live(e) {
                if !post.spec_live(e) && post.slots@[k].rec is Some {
                    let e3 = Entity { index: e.index, generation: post.slots@[k].generation };
                    assert(post.spec_live(e3));
                    assert(e3 != e);
                    assert(pre.spec_live(e3));
                    assert(false);
                }
            } else {
                if pre.slots@[k].rec is Some {
                    let e2 = Entity { index: e.index, generation: pre.slots@[k].generation };
                    assert(pre.spec_live(e2));
                    assert(e2 != e);
                    assert(post.spec_live(e2));
                    assert(post.spec_record(e2) == pre.spec_record(e2));
                    assert(!post.spec_live(e));
                } else {
                    if post.slots@[k].rec is Some {
                        let e3 = Entity {
                            index: e.index,
                            generation: post.slots@[k].generation,
                        };
                        assert(post.spec_live(e3));
                        if e3 != e {
                            assert(pre.spec_live(e3));
                            assert(false);
                        }
                    } else {
                        assert(!post.spec_live(e));
                    }
                }
            }
        }
    } else {
        assert(pre_term == 0);
    }

    if n2 == n1 + 1 {
        assert(spec_grow_potential_upto(post, n2) == spec_grow_potential_upto(post, n1)
            + spec_slot_grow_energy(post, n1));
        if k == n1 {
            assert(pre_term == 0);
            assert(spec_slot_grow_energy(post, n1) == post_term) by {
                if post.slots@[n1].rec is Some {
                    let e3 = Entity {
                        index: n1 as usize,
                        generation: post.slots@[n1].generation,
                    };
                    assert(post.spec_live(e3));
                    if e3 != e {
                        assert(pre.spec_live(e3));
                        assert(false);
                    }
                } else {
                    assert(!post.spec_live(e));
                }
            }
        } else {
            assert(spec_slot_grow_energy(post, n1) == 0) by {
                if post.slots@[n1].rec is Some {
                    let e3 = Entity {
                        index: n1 as usize,
                        generation: post.slots@[n1].generation,
                    };
                    assert(post.spec_live(e3));
                    assert(e3 != e);
                    assert(pre.spec_live(e3));
                    assert(false);
                }
            }
            if !(0 <= k < n1) {
                assert(post_term == 0) by {
                    if post.spec_live(e) {
                        assert(k >= n2 || k == n1);
                        assert(false);
                    }
                }
            }
        }
    } else {
        if !(0 <= k < n1) {
            assert(pre_term == 0);
            assert(post_term == 0) by {
                if post.spec_live(e) {
                    assert(false);
                }
            }
        }
    }
}

/// The growth energy an action kind carries into the queue.
pub open spec fn spec_grow_energy_of_kind(act: ActionKind) -> int {
    match act {
        ActionKind::GrowPlant { energy, .. } => energy as int,
        _ => 0,
    }
}

/// The most a firing of `act` may add back to the growth potential:
/// one growth firing spends a point of energy and hands the rest on;
/// nothing else adds growth work at all.
pub open spec fn spec_grow_budget(act: ActionKind) -> int {
    match act {
        ActionKind::GrowPlant { energy, .. } => if energy >= 1 {
            energy - 1
        } else {
            0
        },
        _ => 0,
    }
}

/// Growth segments spawned by the first `n` firings of a pass: one per
/// growth action with energy to spend and a stem to place.
pub open spec fn spec_grow_spawn_count(fired: Seq<(Entity, ActionKind)>, n: int) -> int
    decreases n,
{
    if n <= 0 {
        0
    } else {
        spec_grow_spawn_count(fired, n - 1) + (match fired[n - 1].1 {
            ActionKind::GrowPlant { energy, skip_stem, .. } => if energy >= 1 && !skip_stem {
                1int
            } else {
                0
            },
            _ => 0,
        })
    }
}

/// The count only reads the first `n` entries.
pub proof fn lemma_grow_spawn_count_congruence(
    s1: Seq<(Entity, ActionKind)>,
    s2: Seq<(Entity, ActionKind)>,
    n: int,
)
    requires
        forall|i: int| 0 <= i < n ==> #[trigger] s1[i] == s2[i],
    ensures
        spec_grow_spawn_count(s1, n) == spec_grow_spawn_count(s2, n),
    decreases n,
{
    if n > 0 {
        lemma_grow_spawn_count_congruence(s1, s2, n - 1);
    }
}

/// A pass's segment count is never negative; callers of
/// [`lemma_growth_bounded`] use this to discharge its premise.
pub proof fn lemma_grow_spawn_count_nonneg(fired: Seq<(Entity, ActionKind)>, n: int)
    ensures
        0 <= spec_grow_spawn_count(fired, n),
    decreases n,
{
    if n > 0 {
        lemma_grow_spawn_count_nonneg(fired, n - 1);
    }
}

/// The growth-budget law: across any run of scheduler passes, each of
/// which promises `potential(after) + segments(pass) <= potential(before)`,
/// the total number of plant segments spawned never exceeds the growth
/// potential the run started with — energy handed to a root bounds all
/// the growth of its descendants.
pub proof fn lemma_growth_bounded(ws: Seq<World>, counts: Seq<int>)
    requires
        ws.len() == counts.len() + 1,
        forall|i: int|
            0 <= i < counts.len() ==> spec_grow_potential(#[trigger] ws[i + 1]) + counts[i]
                <= spec_grow_potential(ws[i]),
        forall|i: int| 0 <= i < counts.len() ==> 0 <= #[trigger] counts[i],
    ensures
        total_of(counts) <= spec_grow_potential(ws[0]),
    decreases counts.len(),
{
    lemma_potential_upto_nonneg(
        ws[ws.len() - 1],
        ws[ws.len() - 1].slots@.len() as int,
    );
    if counts.len() > 0 {
        let shorter = ws.drop_last();
        let fewer = counts.drop_last();
        assert forall|i: int|
            0 <= i < fewer.len() implies spec_grow_potential(#[trigger] shorter[i + 1])
            + fewer[i] <= spec_grow_potential(shorter[i]) by {
            assert(shorter[i + 1] == ws[i + 1]);
            assert(shorter[i] == ws[i]);
            assert(counts[i] == fewer[i]);
        }
        lemma_growth_bounded(shorter, fewer);
        let last = counts.len() - 1;
        assert(spec_grow_potential(ws[last + 1]) + counts[last] <= spec_grow_potential(
            ws[last],
        ));
        assert(spec_grow_potential(ws[last]) <= spec_grow_potential(ws[0]) - total_of(fewer))
            by {
            lemma_potential_prefix_bound(ws, counts, last);
        }
    }
}

/// Sum of a sequence of integers.
pub open spec fn total_of(s: Seq<int>) -> int
    decreases s.len(),
{
    if s.len() == 0 {
        0
    } else {
        total_of(s.drop_last()) + s.last()
    }
}

/// Potential at step `k` is the starting potential minus everything
/// spent so far.
proof fn lemma_potential_prefix_bound(ws: Seq<World>, counts: Seq<int>, k: int)
    requires
        ws.len() == counts.len() + 1,
        forall|i: int|
            0 <= i < counts.len() ==> spec_grow_potential(#[trigger] ws[i + 1]) + counts[i]
                <= spec_grow_potential(ws[i]),
        forall|i: int| 0 <= i < counts.len() ==> 0 <= #[trigger] counts[i],
        0 <= k <= counts.len(),
    ensures
        spec_grow_potential(ws[k]) <= spec_grow_potential(ws[0]) - total_of(
            counts.subrange(0, k),
        ),
    decreases k,
{
    if k == 0 {
        assert(counts.subrange(0, 0) =~= Seq::<int>::empty());
    } else {
        lemma_potential_prefix_bound(ws, counts, k - 1);
        let i = k - 1;
        assert(spec_grow_potential(ws[i + 1]) + counts[i] <= spec_grow_potential(ws[i]));
        assert(counts.subrange(0, k).drop_last() =~= counts.subrange(0, k - 1));
        assert(counts.subrange(0, k).last() == counts[k - 1]);
    }
}

/// The hit-latch law: across any run of passes that each keep pegs
/// stable and only move the world forward, a peg seen lit stays lit in
/// every later world it is alive in.
pub proof fn lemma_hit_latches(ws: Seq<World>, e: Entity, k: int)
    requires
        ws.len() >= 1,
        forall|i: int|
            0 <= i < ws.len() - 1 ==> evolves(#[trigger] ws[i], ws[i + 1]) && pegs_stable(
                ws[i],
                ws[i + 1],
            ),
        ws[0].spec_live(e),
        ws[0].spec_record(e).peg is Some,
        ws[0].spec_record(e).peg.unwrap().hit,
        0 <= k < ws.len(),
        ws[k].spec_live(e),
    ensures
        ws[k].spec_record(e).peg is Some,
        ws[k].spec_record(e).peg.unwrap().hit,
    decreases k,
{
    if k > 0 {
        let i = k - 1;
        assert(evolves(ws[i], ws[i + 1]) && pegs_stable(ws[i], ws[i + 1]));
        // `e` is live at both ends, so it was live at the step before.
        lemma_chain_evolves(ws, 0, i);
        let start = ws[0];
        lemma_live_interpolation(start, ws[i], ws[k], e);
        lemma_hit_latches(ws, e, i);
    }
}

/// Evolution composes along a chain of passes.
proof fn lemma_chain_evolves(ws: Seq<World>, a: int, b: int)
    requires
        forall|i: int|
            0 <= i < ws.len() - 1 ==> evolves(#[trigger] ws[i], ws[i + 1]) && pegs_stable(
                ws[i],
                ws[i + 1],
            ),
        0 <= a <= b < ws.len(),
    ensures
        evolves(ws[a], ws[b]),
    decreases b - a,
{
    if a == b {
        crate::world::lemma_evolves_reflexive(ws[a]);
    } else {
        lemma_chain_evolves(ws, a, b - 1);
        let i = b - 1;
        assert(evolves(ws[i], ws[i + 1]));
        lemma_evolves_transitive(ws[a], ws[b - 1], ws[b]);
    }
}

/// The fire-once law: an entity that appears in one pass's fired list
/// is killed by that pass, and a killed identifier is dead in every
/// later world — so it can never satisfy the liveness that firing
/// requires again.  Across any run, each scheduled action fires at most
/// once.
pub proof fn lemma_fires_at_most_once(pre: World, post: World, later: Seq<World>, e: Entity)
    requires
        post.spec_killed(e),
        later.len() >= 1,
        later[0] == post,
        forall|i: int| 0 <= i < later.len() - 1 ==> evolves(#[trigger] later[i], later[i + 1]),
    ensures
        forall|i: int| 0 <= i < later.len() ==> !(#[trigger] later[i]).spec_live(e),
{
    assert forall|i: int| 0 <= i < later.len() implies !(#[trigger] later[i]).spec_live(e) by {
        lemma_chain_evolves_plain(later, 0, i);
        lemma_killed_stays_killed(later[0], later[i], e);
    }
}

proof fn lemma_chain_evolves_plain(ws: Seq<World>, a: int, b: int)
    requires
        forall|i: int| 0 <= i < ws.len() - 1 ==> evolves(#[trigger] ws[i], ws[i + 1]),
        0 <= a <= b < ws.len(),
    ensures
        evolves(ws[a], ws[b]),
    decreases b - a,
{
    if a == b {
        crate::world::lemma_evolves_reflexive(ws[a]);
    } else {
        lemma_chain_evolves_plain(ws, a, b - 1);
        lemma_evolves_transitive(ws[a], ws[b - 1], ws[b]);
    }
}

/// Between two worlds, every surviving powerup keeps its effect and
/// never grows dearer.
pub open spec fn powerup_wear_monotone(pre: World, post: World) -> bool {
    forall|e: Entity|
        pre.spec_live(e) && post.spec_live(e) && (#[trigger] pre.spec_record(
            e,
        )).powerup is Some ==> (#[trigger] post.spec_record(e)).powerup is Some
            && post.spec_record(e).powerup.unwrap().cost <= pre.spec_record(
            e,
        ).powerup.unwrap().cost && post.spec_record(e).powerup.unwrap().effect
            == pre.spec_record(e).powerup.unwrap().effect
}

/// The powerup-wear law: across any run of passes that each wear
/// powerups monotonically, a surviving powerup's cost never rises and
/// its effect never changes — and the cost, being unsigned, can never
/// pass below zero on its way to the acquisition at zero.
pub proof fn lemma_powerup_wear(ws: Seq<World>, e: Entity, k: int)
    requires
        ws.len() >= 1,
        forall|i: int|
            0 <= i < ws.len() - 1 ==> evolves(#[trigger] ws[i], ws[i + 1])
                && powerup_wear_monotone(ws[i], ws[i + 1]),
        ws[0].spec_live(e),
        ws[0].spec_record(e).powerup is Some,
        0 <= k < ws.len(),
        ws[k].spec_live(e),
    ensures
        ws[k].spec_record(e).powerup is Some,
        ws[k].spec_record(e).powerup.unwrap().cost <= ws[0].spec_record(
            e,
        ).powerup.unwrap().cost,
        ws[k].spec_record(e).powerup.unwrap().effect == ws[0].spec_record(
            e,
        ).powerup.unwrap().effect,
    decreases k,
{
    if k > 0 {
        let i = k - 1;
        assert(evolves(ws[i], ws[i + 1]) && powerup_wear_monotone(ws[i], ws[i + 1]));
        lemma_chain_evolves_wear(ws, 0, i);
        lemma_live_interpolation(ws[0], ws[i], ws[k], e);
        lemma_powerup_wear(ws, e, i);
    }
}

proof fn lemma_chain_evolves_wear(ws: Seq<World>, a: int, b: int)
    requires
        forall|i: int|
            0 <= i < ws.len() - 1 ==> evolves(#[trigger] ws[i], ws[i + 1])
                && powerup_wear_monotone(ws[i], ws[i + 1]),
        0 <= a <= b < ws.len(),
    ensures
        evolves(ws[a], ws[b]),
    decreases b - a,
{
    if a == b {
        crate::world::lemma_evolves_reflexive(ws[a]);
    } else {
        lemma_chain_evolves_wear(ws, a, b - 1);
        lemma_evolves_transitive(ws[a], ws[b - 1], ws[b]);
    }
}

} // verus!
