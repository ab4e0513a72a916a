//! The temporary-entity lifecycle.
//!
//! Entities tagged [`Temporary`] expire on their own: one pass per frame
//! visits each of them, despawns those whose countdown already sits at
//! zero and decrements the rest.  The pass is deliberately independent of
//! the delayed-action scheduler; all it promises is captured by
//! [`temporary_pass_rel`], and [`lemma_temporary_countdown`] turns that
//! per-pass promise into the lifecycle guarantee: an entity that starts
//! with countdown `n` is still present for the next `n` passes and gone
//! from every world strictly after the pass that saw zero.

use vstd::prelude::*;
use crate::components::{Record, Entity, Temporary};
use crate::world::{World, evolves};

verus! {

/// `r` with its countdown one lower.
pub open spec fn spec_dec_temporary(r: Record) -> Record {
    Record {
        temporary: Some(Temporary { ticks: (r.temporary.unwrap().ticks - 1) as u64 }),
        ..r
    }
}

/// Everything one temporary pass does to the world: countdown-zero
/// entities are killed, other countdowns drop by one, everything else is
/// untouched, and nothing is created.
pub open spec fn temporary_pass_rel(pre: World, post: World) -> bool {
    &&& evolves(pre, post)
    &&& post.slots@.len() == pre.slots@.len()
    &&& forall|e: Entity|
        pre.spec_live(e) && (#[trigger] pre.spec_record(e)).temporary is Some ==> {
            if pre.spec_record(e).temporary.unwrap().ticks == 0 {
                post.spec_killed(e)
            } else {
                post.spec_live(e) && post.spec_record(e) == spec_dec_temporary(pre.spec_record(e))
            }
        }
    &&& forall|e: Entity|
        pre.spec_live(e) && (#[trigger] pre.spec_record(e)).temporary is None ==> post.spec_live(
            e,
        ) && post.spec_record(e) == pre.spec_record(e)
    &&& forall|e: Entity| #[trigger] post.spec_live(e) ==> pre.spec_live(e)
    &&& forall|e: Entity| #[trigger] pre.spec_killed(e) ==> post.spec_killed(e)
}

/// One expiry pass: despawn every entity whose countdown is already
/// zero, decrement every other countdown.
pub fn despawn_temporaries(world: &mut World)
    requires
        old(world).wf(),
    ensures
        final(world).wf(),
        temporary_pass_rel(*old(world), *final(world)),
{
    let n = world.len();
    let mut i: usize = 0;
    while i < n
        invariant
            world.wf(),
            world.slots@.len() == n,
            old(world).slots@.len() == n,
            i <= n,
            evolves(*old(world), *world),
            forall|e: Entity|
                old(world).spec_live(e) && (#[trigger] old(world).spec_record(
                    e,
                )).temporary is Some && e.index < i ==> {
                    if old(world).spec_record(e).temporary.unwrap().ticks == 0 {
                        world.spec_killed(e)
                    } else {
                        world.spec_live(e) && world.spec_record(e) == spec_dec_temporary(
                            old(world).spec_record(e),
                        )
                    }
                },
            forall|e: Entity|
                old(world).spec_live(e) && (#[trigger] old(world).spec_record(
                    e,
                )).temporary is Some && e.index >= i ==> world.spec_live(e) && world.spec_record(e)
                    == old(world).spec_record(e),
            forall|e: Entity|
                old(world).spec_live(e) && (#[trigger] old(world).spec_record(
                    e,
                )).temporary is None ==> world.spec_live(e) && world.spec_record(e) == old(world).spec_record(e),
            forall|e: Entity| #[trigger] world.spec_live(e) ==> old(world).spec_live(e),
            forall|e: Entity| #[trigger] old(world).spec_killed(e) ==> world.spec_killed(e),
        decreases n - i,
    {
        match world.entity_at(i) {
            Some(e) => {
                let rec = *world.get(e).unwrap();
                match rec.temporary {
                    Some(t) => {
                        let ghost prev = *world;
                        if t.ticks == 0 {
                            world.despawn(e);
                        } else {
                            let mut r2 = rec;
                            r2.temporary = Some(Temporary { ticks: t.ticks - 1 });
                            world.replace(e, r2);
                        }
                        proof {
                            crate::world::lemma_evolves_transitive(*old(world), prev, *world);
                        }
                    },
                    None => {},
                }
            },
            None => {},
        }
        i = i + 1;
    }
}

/// The lifecycle law: under repeated temporary passes, an entity that
/// starts with countdown `n` is present (counting down one per pass) in
/// each of the worlds up to and including pass `n`, and absent from
/// every world strictly after.
pub proof fn lemma_temporary_countdown(ws: Seq<World>, e: Entity, n: u64)
    requires
        ws.len() >= 1,
        forall|i: int|
            0 <= i < ws.len() - 1 ==> #[trigger] temporary_pass_rel(ws[i], ws[i + 1]),
        ws[0].spec_live(e),
        ws[0].spec_record(e).temporary == Some(Temporary { ticks: n }),
    ensures
        forall|k: int|
            0 <= k < ws.len() && k <= n ==> (#[trigger] ws[k]).spec_live(e)
                && ws[k].spec_record(e).temporary == Some(Temporary { ticks: (n - k) as u64 }),
        forall|k: int| n < k < ws.len() ==> !(#[trigger] ws[k]).spec_live(e),
{
    assert forall|k: int| 0 <= k < ws.len() && k <= n implies (#[trigger] ws[k]).spec_live(e)
        && ws[k].spec_record(e).temporary == Some(Temporary { ticks: (n - k) as u64 }) by {
        lemma_temporary_present(ws, e, n, k);
    }
    assert forall|k: int| n < k < ws.len() implies !(#[trigger] ws[k]).spec_live(e) by {
        lemma_temporary_absent(ws, e, n, k);
    }
}

proof fn lemma_temporary_present(ws: Seq<World>, e: Entity, n: u64, k: int)
    requires
        ws.len() >= 1,
        forall|i: int|
            0 <= i < ws.len() - 1 ==> #[trigger] temporary_pass_rel(ws[i], ws[i + 1]),
        ws[0].spec_live(e),
        ws[0].spec_record(e).temporary == Some(Temporary { ticks: n }),
        0 <= k < ws.len(),
        k <= n,
    ensures
        ws[k].spec_live(e),
        ws[k].spec_record(e).temporary == Some(Temporary { ticks: (n - k) as u64 }),
    decreases k,
{
    if k > 0 {
        lemma_temporary_present(ws, e, n, k - 1);
        let i = k - 1;
        assert(temporary_pass_rel(ws[i], ws[i + 1]));
        assert(ws[i + 1] == ws[k]);
    }
}

proof fn lemma_temporary_absent(ws: Seq<World>, e: Entity, n: u64, k: int)
    requires
        ws.len() >= 1,
        forall|i: int|
            0 <= i < ws.len() - 1 ==> #[trigger] temporary_pass_rel(ws[i], ws[i + 1]),
        ws[0].spec_live(e),
        ws[0].spec_record(e).temporary == Some(Temporary { ticks: n }),
        n < k < ws.len(),
    ensures
        ws[k].spec_killed(e),
        !ws[k].spec_live(e),
    decreases k,
{
    let i = k - 1;
    if k == n + 1 {
        lemma_temporary_present(ws, e, n, i);
        assert(temporary_pass_rel(ws[i], ws[i + 1]));
        assert(ws[i + 1] == ws[k]);
        assert(ws[i].spec_record(e).temporary.unwrap().ticks == 0);
    } else {
        lemma_temporary_absent(ws, e, n, i);
        assert(temporary_pass_rel(ws[i], ws[i + 1]));
        assert(ws[i + 1] == ws[k]);
    }
}

} // verus!
