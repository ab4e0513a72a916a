//! The delayed-action scheduler.
//!
//! Deferred gameplay mutations are plain data: an entity holding a
//! [`DelayedAction`] — a countdown in ticks and an [`ActionKind`] carried
//! by value, so the queue can be inspected and tested.  One pass per
//! tick decrements every countdown; actions whose countdown ran out fire
//! (their owning entity is destroyed first, so an action can never fire
//! twice) and may themselves schedule further actions, which are only
//! seen on a later pass.  The storm, wall and rocks-to-gold effects are
//! nothing but bulk scheduling of such actions.

use vstd::prelude::*;
use crate::components::{
    Entity, Record, PegKind, DelayedAction, ActionKind, Temporary, Transform,
};
use crate::world::{
    World, ENTITY_CAP, evolves, keeps_existing, pegs_stable, lemma_evolves_transitive,
};
use crate::physics::PhysicsBridge;
use crate::level::{GameAssets, select_powerup};
use crate::entropy::Entropy;
use crate::fixmath::{sin_milli, cos_milli, DIR_STEPS};
use crate::pipeline::{spawn_peg, spawn_ball, spawn_brick_with_powerup, spawn_stem_and_peg};

verus! {

/// The record of a bare scheduled action: the pending component and
/// nothing else.
pub open spec fn spec_action_record(ticks: u64, kind: ActionKind) -> Record {
    Record { pending: Some(DelayedAction { ticks, kind }), ..Record::spec_empty() }
}

/// Schedule `kind` to fire after `ticks` passes.
pub fn schedule(world: &mut World, ticks: u64, kind: ActionKind) -> (r: Entity)
    requires
        old(world).wf(),
        old(world).slots@.len() < ENTITY_CAP,
        ticks >= 1,
    ensures
        final(world).wf(),
        evolves(*old(world), *final(world)),
        keeps_existing(*old(world), *final(world)),
        final(world).slots@.len() <= old(world).slots@.len() + 1,
        final(world).spec_live(r),
        !old(world).spec_live(r),
        final(world).spec_record(r) == spec_action_record(ticks, kind),
        forall|e: Entity|
            #[trigger] final(world).spec_live(e) ==> old(world).spec_live(e) || e == r,
        forall|e: Entity| #[trigger] old(world).spec_killed(e) ==> final(world).spec_killed(e),
        crate::laws::spec_grow_potential(*final(world)) == crate::laws::spec_grow_potential(
            *old(world),
        ) + crate::laws::spec_grow_energy_of_kind(kind),
{
    let mut rec = Record::empty();
    rec.pending = Some(DelayedAction::new(kind, ticks));
    let r = world.spawn(rec);
    proof {
        crate::laws::lemma_potential_single_diff(*old(world), *world, r);
    }
    r
}

/// `s` lists exactly the entities created between `pre` and `post`:
/// all distinct, all new and live in `post`, and nothing else is new.
pub open spec fn spec_batch(pre: World, post: World, s: Seq<Entity>) -> bool {
    &&& forall|k: int|
        0 <= k < s.len() ==> post.spec_live(#[trigger] s[k]) && !pre.spec_live(s[k])
    &&& forall|k1: int, k2: int|
        #![trigger s[k1], s[k2]]
        0 <= k1 < k2 < s.len() ==> s[k1] != s[k2]
    &&& forall|e: Entity| #[trigger] post.spec_live(e) && !pre.spec_live(e) ==> s.contains(e)
}

/// The exact product of one storm call: the batch of its `count`
/// scheduled peg spawns, staggered three ticks apart from tick six.
pub open spec fn spec_storm_exact_batch(
    pre: World,
    post: World,
    kind: PegKind,
    count: int,
    s: Seq<Entity>,
) -> bool {
    &&& spec_batch(pre, post, s)
    &&& s.len() == count
    &&& forall|k: int|
        0 <= k < s.len() ==> {
            let p = post.spec_record(#[trigger] s[k]).pending;
            &&& p is Some
            &&& p.unwrap().ticks == 6 + 3 * k
            &&& p.unwrap().kind matches ActionKind::SpawnPeg { kind: kk, .. } && kk == kind
        }
}

/// The exact product of the wall call: sixty scheduled stone-peg
/// spawns, one per column per delay step, at the stated positions.
pub open spec fn spec_wall_exact_batch(pre: World, post: World, s: Seq<Entity>) -> bool {
    &&& spec_batch(pre, post, s)
    &&& s.len() == 2 * WALL_COLUMN_COUNT
    &&& forall|d: int|
        0 <= d < WALL_COLUMN_COUNT ==> post.spec_record(#[trigger] s[2 * d])
            == spec_action_record(
            (d + 1) as u64,
            ActionKind::SpawnPeg {
                x: (-WALL_X_TENTHS) as i64,
                y: (WALL_BASE_Y_TENTHS + d * WALL_SPACING_TENTHS) as i64,
                kind: PegKind::Stone,
            },
        ) && post.spec_record(s[2 * d + 1]) == spec_action_record(
            (d + 1) as u64,
            ActionKind::SpawnPeg {
                x: WALL_X_TENTHS,
                y: (WALL_BASE_Y_TENTHS + d * WALL_SPACING_TENTHS) as i64,
                kind: PegKind::Stone,
            },
        )
}

/// A fresh batch of `n_lo..=n_hi` scheduled peg spawns of `kind`
/// exists: distinct action entities, none alive in `pre`, each with a
/// positive countdown.
pub open spec fn spec_storm_batch_ok(post: World, pre: World, kind: PegKind, s: Seq<Entity>) -> bool {
    &&& forall|k: int|
        0 <= k < s.len() ==> post.spec_live(#[trigger] s[k]) && !pre.spec_live(s[k])
    &&& forall|k1: int, k2: int|
        #![trigger s[k1], s[k2]]
        0 <= k1 < k2 < s.len() ==> s[k1] != s[k2]
    &&& forall|k: int|
        0 <= k < s.len() ==> {
            let p = post.spec_record(#[trigger] s[k]).pending;
            &&& p is Some
            &&& p.unwrap().ticks >= 1
            &&& p.unwrap().kind matches ActionKind::SpawnPeg { kind: kk, .. } && kk == kind
        }
}

pub open spec fn spec_storm_scheduled(
    post: World,
    pre: World,
    kind: PegKind,
    n_lo: int,
    n_hi: int,
) -> bool {
    exists|s: Seq<Entity>|
        n_lo <= s.len() <= n_hi && #[trigger] spec_storm_batch_ok(post, pre, kind, s)
}

/// The full rock wall stands scheduled: sixty fresh action entities,
/// one stone-peg spawn per column per delay step, at the stated
/// positions.
pub open spec fn spec_wall_batch_ok(post: World, pre: World, s: Seq<Entity>) -> bool {
    &&& s.len() == 2 * WALL_COLUMN_COUNT
    &&& forall|k: int|
        0 <= k < s.len() ==> post.spec_live(#[trigger] s[k]) && !pre.spec_live(s[k])
    &&& forall|k1: int, k2: int|
        #![trigger s[k1], s[k2]]
        0 <= k1 < k2 < s.len() ==> s[k1] != s[k2]
    &&& forall|d: int|
        0 <= d < WALL_COLUMN_COUNT ==> post.spec_record(#[trigger] s[2 * d])
            == spec_action_record(
            (d + 1) as u64,
            ActionKind::SpawnPeg {
                x: (-WALL_X_TENTHS) as i64,
                y: (WALL_BASE_Y_TENTHS + d * WALL_SPACING_TENTHS) as i64,
                kind: PegKind::Stone,
            },
        ) && post.spec_record(s[2 * d + 1]) == spec_action_record(
            (d + 1) as u64,
            ActionKind::SpawnPeg {
                x: WALL_X_TENTHS,
                y: (WALL_BASE_Y_TENTHS + d * WALL_SPACING_TENTHS) as i64,
                kind: PegKind::Stone,
            },
        )
}

pub open spec fn spec_wall_scheduled(post: World, pre: World) -> bool {
    exists|s: Seq<Entity>| #[trigger] spec_wall_batch_ok(post, pre, s)
}

/// Entities of a fresh batch survive any further additions with their
/// records untouched.
pub proof fn lemma_fresh_batch_persists(w1: World, w2: World, pre: World, s: Seq<Entity>)
    requires
        keeps_existing(w1, w2),
        forall|k: int|
            0 <= k < s.len() ==> w1.spec_live(#[trigger] s[k]) && !pre.spec_live(s[k]),
    ensures
        forall|k: int|
            0 <= k < s.len() ==> w2.spec_live(#[trigger] s[k]) && w2.spec_record(s[k])
                == w1.spec_record(s[k]) && !pre.spec_live(s[k]),
{
    assert forall|k: int|
        0 <= k < s.len() implies w2.spec_live(#[trigger] s[k]) && w2.spec_record(s[k])
        == w1.spec_record(s[k]) && !pre.spec_live(s[k]) by {
        assert(w1.spec_live(s[k]));
    }
}

/// A storm batch once scheduled stays scheduled through any further
/// additions.
pub proof fn lemma_storm_persists(
    w1: World,
    w2: World,
    pre: World,
    kind: PegKind,
    n_lo: int,
    n_hi: int,
)
    requires
        keeps_existing(w1, w2),
        spec_storm_scheduled(w1, pre, kind, n_lo, n_hi),
    ensures
        spec_storm_scheduled(w2, pre, kind, n_lo, n_hi),
{
    let s = choose|s: Seq<Entity>|
        n_lo <= s.len() <= n_hi && #[trigger] spec_storm_batch_ok(w1, pre, kind, s);
    lemma_fresh_batch_persists(w1, w2, pre, s);
    assert(spec_storm_batch_ok(w2, pre, kind, s));
}

/// The wall once scheduled stays scheduled through any further
/// additions.
pub proof fn lemma_wall_persists(w1: World, w2: World, pre: World)
    requires
        keeps_existing(w1, w2),
        spec_wall_scheduled(w1, pre),
    ensures
        spec_wall_scheduled(w2, pre),
{
    let s = choose|s: Seq<Entity>| #[trigger] spec_wall_batch_ok(w1, pre, s);
    lemma_fresh_batch_persists(w1, w2, pre, s);
    assert(spec_wall_batch_ok(w2, pre, s));
}

/// Scheduled gold-swap pairs stay scheduled through further additions.
pub proof fn lemma_gold_pairs_persist(w1: World, w2: World, pre: World, e: Entity, x: i64, y: i64)
    requires
        keeps_existing(w1, w2),
        spec_has_gold_swap_pair(w1, pre, e, x, y),
    ensures
        spec_has_gold_swap_pair(w2, pre, e, x, y),
{
    let (a, g) = choose|a: Entity, g: Entity| spec_gold_swap_pair(w1, pre, e, x, y, a, g);
    assert(w1.spec_live(a) && w1.spec_live(g));
    assert(w2.spec_live(a) && w2.spec_record(a) == w1.spec_record(a));
    assert(w2.spec_live(g) && w2.spec_record(g) == w1.spec_record(g));
    assert(spec_gold_swap_pair(w2, pre, e, x, y, a, g));
}

/// A storm call against any world reachable from `base` leaves its
/// batch scheduled relative to `base` too.
pub proof fn lemma_storm_call_schedules(
    pre: World,
    post: World,
    base: World,
    kind: PegKind,
    count: int,
)
    requires
        keeps_existing(base, pre),
        exists|s: Seq<Entity>| #[trigger] spec_storm_exact_batch(pre, post, kind, count, s),
    ensures
        spec_storm_scheduled(post, base, kind, count, count),
{
    let s = choose|s: Seq<Entity>| #[trigger] spec_storm_exact_batch(pre, post, kind, count, s);
    assert forall|k: int|
        0 <= k < s.len() implies post.spec_live(#[trigger] s[k]) && !base.spec_live(s[k]) by {
        if base.spec_live(s[k]) {
            assert(pre.spec_live(s[k]));
        }
    }
    assert(spec_storm_batch_ok(post, base, kind, s));
}

/// The wall call against any world reachable from `base` leaves the
/// wall scheduled relative to `base` too.
pub proof fn lemma_wall_call_schedules(pre: World, post: World, base: World)
    requires
        keeps_existing(base, pre),
        exists|s: Seq<Entity>| #[trigger] spec_wall_exact_batch(pre, post, s),
    ensures
        spec_wall_scheduled(post, base),
{
    let s = choose|s: Seq<Entity>| #[trigger] spec_wall_exact_batch(pre, post, s);
    assert forall|k: int|
        0 <= k < s.len() implies post.spec_live(#[trigger] s[k]) && !base.spec_live(s[k]) by {
        if base.spec_live(s[k]) {
            assert(pre.spec_live(s[k]));
        }
    }
    assert(spec_wall_batch_ok(post, base, s));
}

/// A rocks-to-gold call against any world reachable from `base` covers
/// every stone peg `base` had.
pub proof fn lemma_rocks_call_schedules(pre: World, post: World, base: World)
    requires
        keeps_existing(base, pre),
        forall|e: Entity|
            pre.spec_live(e) && (#[trigger] pre.spec_record(e)).peg is Some && pre.spec_record(
                e,
            ).peg.unwrap().kind == PegKind::Stone && pre.spec_record(e).transform is Some
                ==> spec_has_gold_swap_pair(
                post,
                pre,
                e,
                pre.spec_record(e).transform.unwrap().x,
                pre.spec_record(e).transform.unwrap().y,
            ),
    ensures
        forall|e: Entity|
            base.spec_live(e) && (#[trigger] base.spec_record(e)).peg is Some
                && base.spec_record(e).peg.unwrap().kind == PegKind::Stone && base.spec_record(
                e,
            ).transform is Some ==> spec_has_gold_swap_pair(
                post,
                base,
                e,
                base.spec_record(e).transform.unwrap().x,
                base.spec_record(e).transform.unwrap().y,
            ),
{
    assert forall|e: Entity|
        base.spec_live(e) && (#[trigger] base.spec_record(e)).peg is Some && base.spec_record(
            e,
        ).peg.unwrap().kind == PegKind::Stone && base.spec_record(e).transform is Some
        implies spec_has_gold_swap_pair(
        post,
        base,
        e,
        base.spec_record(e).transform.unwrap().x,
        base.spec_record(e).transform.unwrap().y,
    ) by {
        assert(pre.spec_live(e) && pre.spec_record(e) == base.spec_record(e));
        let x = base.spec_record(e).transform.unwrap().x;
        let y = base.spec_record(e).transform.unwrap().y;
        assert(spec_has_gold_swap_pair(post, pre, e, x, y));
        let (a, g) = choose|a: Entity, g: Entity| spec_gold_swap_pair(post, pre, e, x, y, a, g);
        assert(!base.spec_live(a) && !base.spec_live(g)) by {
            if base.spec_live(a) {
                assert(pre.spec_live(a));
            }
            if base.spec_live(g) {
                assert(pre.spec_live(g));
            }
        }
        assert(spec_gold_swap_pair(post, base, e, x, y, a, g));
    }
}

/// `b` accounts for one released multi-ball at `(x, y)`: a fresh ball
/// entity still standing, or one that a later firing of the same pass
/// explicitly destroyed.
pub open spec fn spec_released_witness(
    w: World,
    pre: World,
    x: i64,
    y: i64,
    fired: Seq<(Entity, ActionKind)>,
    b: Entity,
) -> bool {
    &&& !pre.spec_live(b)
    &&& {
        ||| (w.spec_live(b) && w.spec_record(b).ball is Some && w.spec_record(b).transform is Some
            && w.spec_record(b).transform.unwrap().x == x && w.spec_record(b).transform.unwrap().y
            == y)
        ||| exists|m: int|
            0 <= m < fired.len() && spec_act_target((#[trigger] fired[m]).1) == Some(b)
    }
}

/// Some witness accounts for the release at `(x, y)`.
pub open spec fn spec_ball_released(
    w: World,
    pre: World,
    x: i64,
    y: i64,
    fired: Seq<(Entity, ActionKind)>,
) -> bool {
    exists|b: Entity| #[trigger] spec_released_witness(w, pre, x, y, fired, b)
}

/// One firing keeps every fired release accounted for: earlier
/// witnesses survive (or are excused by a targeting entry), and a fresh
/// release's ball is found from the firing's own promise.
proof fn lemma_release_step(
    pre: World,
    mid: World,
    before: World,
    after_despawn: World,
    post: World,
    old_fired: Seq<(Entity, ActionKind)>,
    fired: Seq<(Entity, ActionKind)>,
    e: Entity,
    kind: ActionKind,
)
    requires
        fired == old_fired.push((e, kind)),
        forall|k: int|
            0 <= k < old_fired.len() ==> ((#[trigger] old_fired[k]).1 matches ActionKind::ReleaseMultiBall { x, y, .. }
                ==> spec_ball_released(before, pre, x, y, old_fired)),
        forall|e2: Entity| e2 != e ==> (after_despawn.spec_live(e2) <==> before.spec_live(e2)),
        forall|e2: Entity|
            e2 != e && before.spec_live(e2) ==> after_despawn.spec_record(e2)
                == before.spec_record(e2),
        !after_despawn.spec_live(e),
        forall|e2: Entity| #[trigger] before.spec_killed(e2) ==> after_despawn.spec_killed(e2),
        before.spec_live(e) ==> after_despawn.spec_killed(e),
        spec_survivors_unchanged(after_despawn, post),
        forall|e2: Entity|
            #[trigger] after_despawn.spec_live(e2) && spec_act_target(kind) != Some(e2)
                ==> post.spec_live(e2),
        forall|e2: Entity| #[trigger] after_despawn.spec_killed(e2) ==> post.spec_killed(e2),
        kind matches ActionKind::ReleaseMultiBall { x, y, .. } ==> (after_despawn.slots@.len()
            + 2 <= ENTITY_CAP ==> exists|b: Entity|
            {
                &&& #[trigger] post.spec_live(b)
                &&& !after_despawn.spec_live(b)
                &&& post.spec_record(b).ball is Some
                &&& post.spec_record(b).transform matches Some(t) && t.x == x && t.y == y
            }),
        after_despawn.slots@.len() + 2 <= ENTITY_CAP,
        forall|e2: Entity| pre.spec_live(e2) <==> mid.spec_live(e2),
        forall|e2: Entity|
            #[trigger] mid.spec_live(e2) ==> before.spec_live(e2) || before.spec_killed(e2),
        pre.spec_live(e),
    ensures
        forall|k: int|
            0 <= k < fired.len() ==> (match (#[trigger] fired[k]).1 {
                ActionKind::ReleaseMultiBall { x, y, .. } => spec_ball_released(
                    post,
                    pre,
                    x,
                    y,
                    fired,
                ),
                _ => true,
            }),
{
    assert forall|k: int|
        0 <= k < fired.len() implies (match (#[trigger] fired[k]).1 {
        ActionKind::ReleaseMultiBall { x, y, .. } => spec_ball_released(post, pre, x, y, fired),
        _ => true,
    }) by {
        match fired[k].1 {
            ActionKind::ReleaseMultiBall { x, y, .. } => {
                if k < old_fired.len() {
                    assert(fired[k] == old_fired[k]);
                    let b = choose|b: Entity|
                        #[trigger] spec_released_witness(before, pre, x, y, old_fired, b);
                    if before.spec_live(b) && before.spec_record(b).ball is Some
                        && before.spec_record(b).transform is Some && before.spec_record(
                        b,
                    ).transform.unwrap().x == x && before.spec_record(b).transform.unwrap().y
                        == y {
                        assert(b != e);
                        assert(after_despawn.spec_live(b) && after_despawn.spec_record(b)
                            == before.spec_record(b));
                        if spec_act_target(kind) == Some(b) {
                            assert(fired[old_fired.len() as int].1 == kind);
                            assert(spec_released_witness(post, pre, x, y, fired, b));
                        } else {
                            assert(post.spec_live(b) && post.spec_record(b)
                                == after_despawn.spec_record(b));
                            assert(spec_released_witness(post, pre, x, y, fired, b));
                        }
                    } else {
                        let m = choose|m: int|
                            0 <= m < old_fired.len() && spec_act_target(
                                (#[trigger] old_fired[m]).1,
                            ) == Some(b);
                        assert(fired[m] == old_fired[m]);
                        assert(spec_released_witness(post, pre, x, y, fired, b));
                    }
                } else {
                    assert(fired[k] == (e, kind));
                    let b = choose|b: Entity|
                        {
                            &&& #[trigger] post.spec_live(b)
                            &&& !after_despawn.spec_live(b)
                            &&& post.spec_record(b).ball is Some
                            &&& post.spec_record(b).transform matches Some(t) && t.x == x
                                && t.y == y
                        };
                    assert(!pre.spec_live(b)) by {
                        if pre.spec_live(b) {
                            assert(mid.spec_live(b));
                            if before.spec_live(b) {
                                if b == e {
                                    assert(after_despawn.spec_killed(b));
                                } else {
                                    assert(after_despawn.spec_live(b));
                                    assert(false);
                                }
                            } else {
                                assert(before.spec_killed(b));
                            }
                            assert(after_despawn.spec_killed(b));
                            assert(post.spec_killed(b));
                            assert(false);
                        }
                    }
                    assert(spec_released_witness(post, pre, x, y, fired, b));
                }
            },
            _ => {},
        }
    }
}

/// The one entity a firing of `act` may destroy: its explicit target.
/// Every other action only spawns.
pub open spec fn spec_act_target(act: ActionKind) -> Option<Entity> {
    match act {
        ActionKind::DespawnTarget { target } => Some(target),
        ActionKind::ReleaseMultiBall { target, .. } => Some(target),
        _ => None,
    }
}

/// Every entity live in `post` but not in `pre` is a scheduled action of
/// the given peg-spawning kind with a positive countdown of at most
/// `max_delay`.
pub open spec fn spec_new_are_peg_actions(
    pre: World,
    post: World,
    kind: PegKind,
    max_delay: u64,
) -> bool {
    forall|e: Entity|
        #[trigger] post.spec_live(e) && !pre.spec_live(e) ==> {
            let p = post.spec_record(e).pending;
            &&& post.spec_record(e) == spec_action_record(p.unwrap().ticks, p.unwrap().kind)
            &&& p is Some
            &&& 1 <= p.unwrap().ticks <= max_delay
            &&& p.unwrap().kind matches ActionKind::SpawnPeg { kind: k, .. } && k == kind
        }
}

/// Schedule a spiral storm of `count` pegs of one kind around a center:
/// the angle advances by a turn rate scaled inversely with the radius,
/// the radius grows linearly, and one peg is scheduled per step, each
/// three ticks after the one before.
pub fn apply_rock_storm(
    world: &mut World,
    entropy: &mut Entropy,
    kind: PegKind,
    turn_milli: u64,
    radius_rate_tenths: i64,
    count: usize,
    cx: i64,
    cy: i64,
    start_radius_tenths: i64,
)
    requires
        old(world).wf(),
        old(world).slots@.len() + count <= ENTITY_CAP,
        turn_milli <= 1000,
        0 <= radius_rate_tenths <= 1000,
        count <= 1000,
        -30000 <= cx <= 30000,
        -30000 <= cy <= 30000,
        10 <= start_radius_tenths <= 10000,
    ensures
        final(world).wf(),
        evolves(*old(world), *final(world)),
        keeps_existing(*old(world), *final(world)),
        pegs_stable(*old(world), *final(world)),
        final(world).slots@.len() <= old(world).slots@.len() + count,
        spec_new_are_peg_actions(*old(world), *final(world), kind, (6 + 3 * count) as u64),
        forall|e: Entity| #[trigger] old(world).spec_killed(e) ==> final(world).spec_killed(e),
        // Exactly `count` scheduled peg spawns of this kind exist, at
        // the stated stagger.
        exists|s: Seq<Entity>|
            #[trigger] spec_storm_exact_batch(*old(world), *final(world), kind, count as int, s),
{
    let ghost mut batch: Seq<Entity> = Seq::empty();
    let mut angle: u64 = entropy.next_u64() % DIR_STEPS;
    let mut radius: i64 = start_radius_tenths;
    let mut delay: u64 = 6;

    let mut i: usize = 0;
    while i < count
        invariant
            world.wf(),
            world.slots@.len() <= old(world).slots@.len() + i,
            old(world).slots@.len() + count <= ENTITY_CAP,
            i <= count,
            count <= 1000,
            evolves(*old(world), *world),
            keeps_existing(*old(world), *world),
            spec_new_are_peg_actions(*old(world), *world, kind, (6 + 3 * count) as u64),
            forall|e: Entity| #[trigger] old(world).spec_killed(e) ==> world.spec_killed(e),
            angle < DIR_STEPS,
            10 <= radius <= start_radius_tenths + 1000 * i,
            delay == 6 + 3 * i,
            0 <= radius_rate_tenths <= 1000,
            10 <= start_radius_tenths <= 10000,
            turn_milli <= 1000,
            -30000 <= cx <= 30000,
            -30000 <= cy <= 30000,
            spec_batch(*old(world), *world, batch),
            batch.len() == i,
            forall|k: int|
                0 <= k < batch.len() ==> {
                    let p = world.spec_record(#[trigger] batch[k]).pending;
                    &&& p is Some
                    &&& p.unwrap().ticks == 6 + 3 * k
                    &&& p.unwrap().kind matches ActionKind::SpawnPeg { kind: kk, .. } && kk
                        == kind
                },
        decreases count - i,
    {
        // Turn rate falls off with radius: a wider spiral turns slower.
        let dstep: u64 = (turn_milli * 19) / (radius as u64);
        angle = (angle + dstep % DIR_STEPS) % DIR_STEPS;
        radius = radius + radius_rate_tenths;

        let c = cos_milli(angle);
        let s = sin_milli(angle);
        let dx = crate::fixmath::scale_milli(radius, c);
        let dy = crate::fixmath::scale_milli(radius, s);
        let px = cx + dx;
        let py = cy + dy;

        let ghost prev = *world;
        let ghost old_batch = batch;
        let r = schedule(world, delay, ActionKind::SpawnPeg { x: px, y: py, kind });
        proof {
            lemma_evolves_transitive(*old(world), prev, *world);
            batch = old_batch.push(r);
            assert(batch[old_batch.len() as int] == r);
            assert forall|k: int| 0 <= k < old_batch.len() implies batch[k] == old_batch[k] by {}
            assert forall|e: Entity|
                #[trigger] world.spec_live(e) && !old(world).spec_live(e) implies batch.contains(
                e,
            ) by {
                if e == r {
                    assert(batch[old_batch.len() as int] == e);
                } else {
                    assert(prev.spec_live(e));
                    let k = choose|k: int| 0 <= k < old_batch.len() && old_batch[k] == e;
                    assert(batch[k] == e);
                }
            }
        }
        delay = delay + 3;
        i = i + 1;
    }
    proof {
        assert(spec_storm_exact_batch(*old(world), *world, kind, count as int, batch));
    }
}

/// Horizontal offset of the two wall columns, in tenths.
pub const WALL_X_TENTHS: i64 = 650;

/// Vertical base of a wall column, in tenths.
pub const WALL_BASE_Y_TENTHS: i64 = -700;

/// Vertical spacing of wall pegs, in tenths.
pub const WALL_SPACING_TENTHS: i64 = 55;

/// Number of pegs in each wall column.
pub const WALL_COLUMN_COUNT: u64 = 30;

/// Schedule the rock-wall effect: two columns of thirty stone pegs each
/// along the play field's left and right edges, one peg per side per
/// step, each step one tick after the one before — sixty pegs across
/// thirty ticks.
pub fn create_rock_wall(world: &mut World)
    requires
        old(world).wf(),
        old(world).slots@.len() + 2 * WALL_COLUMN_COUNT <= ENTITY_CAP,
    ensures
        final(world).wf(),
        evolves(*old(world), *final(world)),
        keeps_existing(*old(world), *final(world)),
        pegs_stable(*old(world), *final(world)),
        final(world).slots@.len() <= old(world).slots@.len() + 2 * WALL_COLUMN_COUNT,
        spec_new_are_peg_actions(
            *old(world),
            *final(world),
            PegKind::Stone,
            WALL_COLUMN_COUNT as u64,
        ),
        forall|e: Entity| #[trigger] old(world).spec_killed(e) ==> final(world).spec_killed(e),
        // Exactly sixty scheduled stone-peg spawns exist: one per column
        // per delay step, at the stated positions.
        exists|s: Seq<Entity>| #[trigger] spec_wall_exact_batch(*old(world), *final(world), s),
{
    let ghost mut batch: Seq<Entity> = Seq::empty();
    let mut i: u64 = 0;
    while i < WALL_COLUMN_COUNT
        invariant
            world.wf(),
            world.slots@.len() <= old(world).slots@.len() + 2 * i,
            old(world).slots@.len() + 2 * WALL_COLUMN_COUNT <= ENTITY_CAP,
            i <= WALL_COLUMN_COUNT,
            evolves(*old(world), *world),
            keeps_existing(*old(world), *world),
            spec_new_are_peg_actions(
                *old(world),
                *world,
                PegKind::Stone,
                WALL_COLUMN_COUNT as u64,
            ),
            forall|e: Entity| #[trigger] old(world).spec_killed(e) ==> world.spec_killed(e),
            spec_batch(*old(world), *world, batch),
            batch.len() == 2 * i,
            forall|d: int|
                0 <= d < i ==> world.spec_record(#[trigger] batch[2 * d]) == spec_action_record(
                    (d + 1) as u64,
                    ActionKind::SpawnPeg {
                        x: (-WALL_X_TENTHS) as i64,
                        y: (WALL_BASE_Y_TENTHS + d * WALL_SPACING_TENTHS) as i64,
                        kind: PegKind::Stone,
                    },
                ) && world.spec_record(batch[2 * d + 1]) == spec_action_record(
                    (d + 1) as u64,
                    ActionKind::SpawnPeg {
                        x: WALL_X_TENTHS,
                        y: (WALL_BASE_Y_TENTHS + d * WALL_SPACING_TENTHS) as i64,
                        kind: PegKind::Stone,
                    },
                ),
        decreases WALL_COLUMN_COUNT - i,
    {
        let y = WALL_BASE_Y_TENTHS + (i as i64) * WALL_SPACING_TENTHS;
        let delay = i + 1;
        let ghost prev = *world;
        let ghost old_batch = batch;
        let left = schedule(
            world,
            delay,
            ActionKind::SpawnPeg { x: -WALL_X_TENTHS, y, kind: PegKind::Stone },
        );
        proof {
            lemma_evolves_transitive(*old(world), prev, *world);
        }
        let ghost prev2 = *world;
        let right = schedule(
            world,
            delay,
            ActionKind::SpawnPeg { x: WALL_X_TENTHS, y, kind: PegKind::Stone },
        );
        proof {
            lemma_evolves_transitive(*old(world), prev2, *world);
            batch = old_batch.push(left).push(right);
            assert(batch[old_batch.len() as int] == left);
            assert(batch[old_batch.len() as int + 1] == right);
            assert forall|k: int| 0 <= k < old_batch.len() implies batch[k] == old_batch[k] by {}
            assert(prev2.spec_live(left) && !prev2.spec_live(right));
            assert forall|e: Entity|
                #[trigger] world.spec_live(e) && !old(world).spec_live(e) implies batch.contains(
                e,
            ) by {
                if e == right {
                    assert(batch[old_batch.len() as int + 1] == e);
                } else {
                    assert(prev2.spec_live(e));
                    if e == left {
                        assert(batch[old_batch.len() as int] == e);
                    } else {
                        assert(prev.spec_live(e));
                        let k = choose|k: int| 0 <= k < old_batch.len() && old_batch[k] == e;
                        assert(batch[k] == e);
                    }
                }
            }
        }
        i = i + 1;
    }
    proof {
        assert(spec_wall_exact_batch(*old(world), *world, batch));
    }
}

/// A scheduled despawn-then-gold pair for the stone peg `e` at
/// `(x, y)`: `a` and `g` are fresh action entities, the gold spawn one
/// tick after the despawn.
pub open spec fn spec_gold_swap_pair(
    w: World,
    pre: World,
    e: Entity,
    x: i64,
    y: i64,
    a: Entity,
    g: Entity,
) -> bool {
    &&& w.spec_live(a) && !pre.spec_live(a)
    &&& w.spec_live(g) && !pre.spec_live(g)
    &&& w.spec_record(a).pending is Some
    &&& w.spec_record(a).pending.unwrap().kind == (ActionKind::DespawnTarget { target: e })
    &&& w.spec_record(a).pending.unwrap().ticks >= 1
    &&& w.spec_record(g).pending is Some
    &&& w.spec_record(g).pending.unwrap().kind == (ActionKind::SpawnPeg {
        x,
        y,
        kind: PegKind::Gold,
    })
    &&& w.spec_record(g).pending.unwrap().ticks == w.spec_record(a).pending.unwrap().ticks + 1
}

/// Some scheduled despawn-then-gold pair for `e` at `(x, y)` exists.
pub open spec fn spec_has_gold_swap_pair(w: World, pre: World, e: Entity, x: i64, y: i64) -> bool {
    exists|a: Entity, g: Entity| spec_gold_swap_pair(w, pre, e, x, y, a, g)
}

/// Schedule the rocks-to-gold effect: for every live stone peg, a
/// delayed despawn and, one tick later, a delayed gold-peg spawn at the
/// same position.  Stops short if the entity store would overflow;
/// within capacity, every stone peg gets its pair.
#[verifier::rlimit(100)]
pub fn apply_rocks_to_gold(world: &mut World)
    requires
        old(world).wf(),
    ensures
        final(world).wf(),
        evolves(*old(world), *final(world)),
        keeps_existing(*old(world), *final(world)),
        pegs_stable(*old(world), *final(world)),
        forall|e: Entity|
            #[trigger] final(world).spec_live(e) && !old(world).spec_live(e) ==> {
                let p = final(world).spec_record(e).pending;
                &&& p is Some
                &&& final(world).spec_record(e) == spec_action_record(
                    p.unwrap().ticks,
                    p.unwrap().kind,
                )
                &&& p.unwrap().ticks >= 1
                &&& (p.unwrap().kind matches ActionKind::DespawnTarget { .. } || (
                p.unwrap().kind matches ActionKind::SpawnPeg { kind: k, .. } && k
                    == PegKind::Gold))
            },
        forall|e: Entity| #[trigger] old(world).spec_killed(e) ==> final(world).spec_killed(e),
        final(world).slots@.len() <= 3 * old(world).slots@.len(),
        // Within capacity, every live stone peg gets its despawn-then-
        // gold pair.
        3 * old(world).slots@.len() + 2 <= ENTITY_CAP ==> forall|e: Entity|
            old(world).spec_live(e) && (#[trigger] old(world).spec_record(e)).peg is Some
                && old(world).spec_record(e).peg.unwrap().kind == PegKind::Stone && old(world).spec_record(e).transform is Some ==> exists|a: Entity, g: Entity|
                spec_gold_swap_pair(
                    *final(world),
                    *old(world),
                    e,
                    old(world).spec_record(e).transform.unwrap().x,
                    old(world).spec_record(e).transform.unwrap().y,
                    a,
                    g,
                ),
{
    // Gather the live stone pegs and their positions first; scheduling
    // while scanning would walk its own additions.
    let n = world.len();
    let mut rocks: Vec<(Entity, i64, i64)> = Vec::new();
    let mut i: usize = 0;
    while i < n
        invariant
            world.wf(),
            n == world.slots@.len(),
            i <= n,
            rocks@.len() <= i,
            forall|k: int|
                0 <= k < rocks@.len() ==> {
                    let (e, x, y) = #[trigger] rocks@[k];
                    &&& world.spec_live(e)
                    &&& world.spec_record(e).peg is Some
                    &&& world.spec_record(e).peg.unwrap().kind == PegKind::Stone
                    &&& world.spec_record(e).transform is Some
                    &&& world.spec_record(e).transform.unwrap().x == x
                    &&& world.spec_record(e).transform.unwrap().y == y
                },
            forall|e: Entity|
                world.spec_live(e) && (#[trigger] world.spec_record(e)).peg is Some
                    && world.spec_record(e).peg.unwrap().kind == PegKind::Stone
                    && world.spec_record(e).transform is Some && e.index < i ==> exists|k: int|
                    0 <= k < rocks@.len() && (#[trigger] rocks@[k]).0 == e,
        decreases n - i,
    {
        match world.entity_at(i) {
            Some(e) => {
                proof {
                    assert forall|e2: Entity|
                        world.spec_live(e2) && e2.index == i implies e2 == e by {}
                }
                let rec = *world.get(e).unwrap();
                match (rec.peg, rec.transform) {
                    (Some(p), Some(t)) => {
                        if matches!(p.kind, PegKind::Stone) {
                            let ghost old_rocks = rocks@;
                            rocks.push((e, t.x, t.y));
                            proof {
                                assert(rocks@[old_rocks.len() as int].0 == e);
                                assert forall|e2: Entity|
                                    world.spec_live(e2) && (#[trigger] world.spec_record(
                                        e2,
                                    )).peg is Some && world.spec_record(e2).peg.unwrap().kind
                                        == PegKind::Stone && world.spec_record(
                                        e2,
                                    ).transform is Some && e2.index < i + 1 implies exists|
                                    k: int,
                                |
                                    0 <= k < rocks@.len() && (#[trigger] rocks@[k]).0
                                        == e2 by {
                                    if e2.index < i {
                                        let k = choose|k: int|
                                            0 <= k < old_rocks.len() && (#[trigger] old_rocks[k]).0 == e2;
                                        assert(rocks@[k].0 == e2);
                                    } else {
                                        assert(e2 == e);
                                        assert(rocks@[old_rocks.len() as int].0 == e2);
                                    }
                                }
                            }
                        }
                    },
                    _ => {},
                }
            },
            None => {
                proof {
                    assert forall|e2: Entity| world.spec_live(e2) implies e2.index != i by {}
                }
            },
        }
        i = i + 1;
    }

    let ghost base = *world;
    let mut delay: u64 = 6;
    let mut j: usize = 0;
    while j < rocks.len()
        invariant
            world.wf(),
            evolves(*old(world), *world),
            keeps_existing(*old(world), *world),
            base == *old(world),
            n == old(world).slots@.len(),
            n <= ENTITY_CAP,
            rocks@.len() <= n,
            j <= rocks@.len(),
            world.slots@.len() <= old(world).slots@.len() + 2 * j,
            1 <= delay <= 6 + j,
            forall|k: int|
                0 <= k < rocks@.len() ==> {
                    let (e, x, y) = #[trigger] rocks@[k];
                    &&& old(world).spec_live(e)
                    &&& old(world).spec_record(e).transform is Some
                    &&& old(world).spec_record(e).transform.unwrap().x == x
                    &&& old(world).spec_record(e).transform.unwrap().y == y
                },
            forall|e: Entity|
                #[trigger] world.spec_live(e) && !old(world).spec_live(e) ==> {
                    let p = world.spec_record(e).pending;
                    &&& p is Some
                    &&& world.spec_record(e) == spec_action_record(
                        p.unwrap().ticks,
                        p.unwrap().kind,
                    )
                    &&& p.unwrap().ticks >= 1
                    &&& (p.unwrap().kind matches ActionKind::DespawnTarget { .. } || (
                    p.unwrap().kind matches ActionKind::SpawnPeg { kind: k, .. } && k
                        == PegKind::Gold))
                },
            forall|e: Entity| #[trigger] old(world).spec_killed(e) ==> world.spec_killed(e),
            3 * old(world).slots@.len() + 2 <= ENTITY_CAP ==> forall|k: int|
                0 <= k < j ==> spec_has_gold_swap_pair(
                    *world,
                    *old(world),
                    (#[trigger] rocks@[k]).0,
                    rocks@[k].1,
                    rocks@[k].2,
                ),
        decreases rocks@.len() - j,
    {
        let (rock, x, y) = rocks[j];
        if world.len() < ENTITY_CAP - 1 && delay < u64::MAX - 2 {
            let ghost prev = *world;
            let a = schedule(world, delay, ActionKind::DespawnTarget { target: rock });
            proof {
                lemma_evolves_transitive(*old(world), prev, *world);
            }
            let ghost prev2 = *world;
            let g = schedule(world, delay + 1, ActionKind::SpawnPeg { x, y, kind: PegKind::Gold });
            proof {
                lemma_evolves_transitive(*old(world), prev2, *world);
                assert(spec_gold_swap_pair(*world, *old(world), rock, x, y, a, g));
                assert(spec_has_gold_swap_pair(*world, *old(world), rock, x, y));
                // The pairs of earlier stones survive both schedules.
                if 3 * old(world).slots@.len() + 2 <= ENTITY_CAP {
                    assert forall|k: int| 0 <= k < j implies spec_has_gold_swap_pair(
                        *world,
                        *old(world),
                        (#[trigger] rocks@[k]).0,
                        rocks@[k].1,
                        rocks@[k].2,
                    ) by {
                        let (a2, g2) = choose|a2: Entity, g2: Entity|
                            spec_gold_swap_pair(
                                prev,
                                *old(world),
                                rocks@[k].0,
                                rocks@[k].1,
                                rocks@[k].2,
                                a2,
                                g2,
                            );
                        assert(prev2.spec_live(a2) && prev2.spec_record(a2)
                            == prev.spec_record(a2));
                        assert(prev2.spec_live(g2) && prev2.spec_record(g2)
                            == prev.spec_record(g2));
                        assert(world.spec_live(a2) && world.spec_record(a2)
                            == prev2.spec_record(a2));
                        assert(world.spec_live(g2) && world.spec_record(g2)
                            == prev2.spec_record(g2));
                        assert(spec_gold_swap_pair(
                            *world,
                            *old(world),
                            rocks@[k].0,
                            rocks@[k].1,
                            rocks@[k].2,
                            a2,
                            g2,
                        ));
                        assert(spec_has_gold_swap_pair(
                            *world,
                            *old(world),
                            rocks@[k].0,
                            rocks@[k].1,
                            rocks@[k].2,
                        ));
                    }
                }
            }
            delay = delay + 1;
        } else {
            proof {
                // Within capacity the store never fills: two slots per
                // pair over at most one pair per original slot.
                if 3 * old(world).slots@.len() + 2 <= ENTITY_CAP {
                    assert(world.slots@.len() + 2 <= ENTITY_CAP);
                    assert(false);
                }
            }
        }
        j = j + 1;
    }
    proof {
        if 3 * old(world).slots@.len() + 2 <= ENTITY_CAP {
            assert forall|e: Entity|
                old(world).spec_live(e) && (#[trigger] old(world).spec_record(
                    e,
                )).peg is Some && old(world).spec_record(e).peg.unwrap().kind == PegKind::Stone
                    && old(world).spec_record(e).transform is Some implies spec_has_gold_swap_pair(
                *world,
                *old(world),
                e,
                old(world).spec_record(e).transform.unwrap().x,
                old(world).spec_record(e).transform.unwrap().y,
            ) by {
                let k = choose|k: int|
                    0 <= k < rocks@.len() && (#[trigger] rocks@[k]).0 == e;
            }
        }
    }
}

/// Delay before a scheduled growth step fires, in ticks.
pub const GROW_STEP_DELAY: u64 = 12;

/// Every entity live in `post` but not in `pre` either carries no
/// pending action, or is a bare growth action with positive energy and a
/// positive countdown.  This is the shape every firing keeps the queue
/// in: only plant growth schedules new work from inside the scheduler.
pub open spec fn spec_new_actions_are_grow(pre: World, post: World) -> bool {
    forall|e: Entity|
        #[trigger] post.spec_live(e) && !pre.spec_live(e) && post.spec_record(
            e,
        ).pending is Some ==> {
            let p = post.spec_record(e).pending.unwrap();
            &&& post.spec_record(e) == spec_action_record(p.ticks, p.kind)
            &&& p.ticks >= 1
            &&& p.kind matches ActionKind::GrowPlant { energy, .. } && energy >= 1
        }
}

/// Entities live on both sides keep their records word for word.
pub open spec fn spec_survivors_unchanged(pre: World, post: World) -> bool {
    forall|e: Entity|
        pre.spec_live(e) && #[trigger] post.spec_live(e) ==> post.spec_record(e)
            == pre.spec_record(e)
}

/// Schedule one growth continuation: a new direction drawn within about
/// a fifth of a turn of the parent stem, one segment length further out.
fn schedule_grow_child(
    world: &mut World,
    entropy: &mut Entropy,
    x: i64,
    y: i64,
    dir: u64,
    energy: u64,
    gold_energy: u64,
)
    requires
        old(world).wf(),
        old(world).slots@.len() < ENTITY_CAP,
        energy >= 1,
    ensures
        final(world).wf(),
        evolves(*old(world), *final(world)),
        keeps_existing(*old(world), *final(world)),
        final(world).slots@.len() <= old(world).slots@.len() + 1,
        spec_new_actions_are_grow(*old(world), *final(world)),
        spec_survivors_unchanged(*old(world), *final(world)),
        forall|e: Entity| #[trigger] old(world).spec_killed(e) ==> final(world).spec_killed(e),
        crate::laws::spec_grow_potential(*final(world)) == crate::laws::spec_grow_potential(
            *old(world),
        ) + energy,
{
    let delta = entropy.next_in_range(0, 27);
    let child_dir = (dir % DIR_STEPS + (DIR_STEPS - 13) + delta) % DIR_STEPS;
    let bx = if x < -1000000 {
        -1000000
    } else if x > 1000000 {
        1000000
    } else {
        x
    };
    let by = if y < -1000000 {
        -1000000
    } else if y > 1000000 {
        1000000
    } else {
        y
    };
    let px = bx + crate::fixmath::scale_milli(
        crate::pipeline::PLANT_SEGMENT_LENGTH_TENTHS,
        cos_milli(child_dir),
    );
    let py = by + crate::fixmath::scale_milli(
        crate::pipeline::PLANT_SEGMENT_LENGTH_TENTHS,
        sin_milli(child_dir),
    );
    schedule(
        world,
        GROW_STEP_DELAY,
        ActionKind::GrowPlant { x: px, y: py, dir: child_dir, energy, gold_energy, skip_stem: false },
    );
}

/// Fire one growth step: spend one energy on a segment (a gold one when
/// the gold budget and a draw allow it, and always on the very last gold
/// coin), then hand the remaining energy on — split across two branches
/// on a one-in-five draw, otherwise down a single stem.  Energy and gold
/// budget travel by value inside the scheduled actions; a firing with no
/// energy does nothing.
pub fn fire_grow_plant(
    world: &mut World,
    bridge: &mut PhysicsBridge,
    assets: &GameAssets,
    entropy: &mut Entropy,
    x: i64,
    y: i64,
    dir: u64,
    energy: u64,
    gold_energy: u64,
    skip_stem: bool,
)
    requires
        old(world).wf(),
    ensures
        final(world).wf(),
        evolves(*old(world), *final(world)),
        keeps_existing(*old(world), *final(world)),
        pegs_stable(*old(world), *final(world)),
        spec_new_actions_are_grow(*old(world), *final(world)),
        spec_survivors_unchanged(*old(world), *final(world)),
        energy == 0 ==> *final(world) == *old(world),
        forall|e: Entity| #[trigger] old(world).spec_killed(e) ==> final(world).spec_killed(e),
        final(world).slots@.len() <= old(world).slots@.len() + 5,
        crate::laws::spec_grow_potential(*final(world)) <= crate::laws::spec_grow_potential(
            *old(world),
        ) + (if energy >= 1 {
            energy - 1
        } else {
            0int
        }),
        // A firing with energy and a stem to place grows its segment: a
        // fresh plant or gold peg at the step's position.
        energy >= 1 && !skip_stem && old(world).slots@.len() + 3 <= ENTITY_CAP ==> exists|
            p: Entity,
        |
            {
                &&& #[trigger] final(world).spec_live(p)
                &&& !old(world).spec_live(p)
                &&& final(world).spec_record(p).peg is Some
                &&& (final(world).spec_record(p).peg.unwrap().kind == PegKind::Plant || final(world).spec_record(p).peg.unwrap().kind == PegKind::Gold)
                &&& final(world).spec_record(p).transform matches Some(t) && t.x == x && t.y
                    == y
            },
{
    if energy == 0 {
        return ;
    }
    let mut gold = gold_energy;
    let ghost mut seg: Entity = Entity { index: 0, generation: 0 };
    if !skip_stem {
        if world.len() + 3 <= ENTITY_CAP {
            let kind = if energy == 1 && gold == 1 {
                PegKind::Gold
            } else if gold > 0 && entropy.chance_in_thousand(200) {
                gold = gold - 1;
                PegKind::Gold
            } else {
                PegKind::Plant
            };
            let p = spawn_stem_and_peg(world, bridge, assets, x, y, dir, kind);
            proof {
                seg = p;
            }
        }
    }
    let ghost mid = *world;
    let rest = energy - 1;
    if rest > 0 && world.len() + 2 <= ENTITY_CAP {
        if rest >= 2 && entropy.chance_in_thousand(200) {
            let t = entropy.next_in_range(1, rest);
            schedule_grow_child(world, entropy, x, y, dir, rest - t, gold);
            let ghost mid2 = *world;
            schedule_grow_child(world, entropy, x, y, dir, t, gold);
            proof {
                lemma_evolves_transitive(*old(world), mid, mid2);
                lemma_evolves_transitive(*old(world), mid2, *world);
            }
        } else {
            schedule_grow_child(world, entropy, x, y, dir, rest, gold);
            proof {
                lemma_evolves_transitive(*old(world), mid, *world);
            }
        }
    }
    proof {
        if energy >= 1 && !skip_stem && old(world).slots@.len() + 3 <= ENTITY_CAP {
            assert(mid.spec_live(seg));
            assert(world.spec_live(seg) && world.spec_record(seg) == mid.spec_record(seg));
        }
    }
}

/// Diameter of a released multi-ball, in tenths of a unit.
pub const RELEASED_BALL_SCALE_TENTHS: i64 = 35;

/// Fire one scheduled action.  Entities the action addresses may be long
/// gone; every such lookup fails soft and skips the dependent effect, as
/// does any spawn that would overflow the entity store.
pub fn apply_action(
    world: &mut World,
    bridge: &mut PhysicsBridge,
    assets: &GameAssets,
    entropy: &mut Entropy,
    act: ActionKind,
)
    requires
        old(world).wf(),
    ensures
        final(world).wf(),
        evolves(*old(world), *final(world)),
        pegs_stable(*old(world), *final(world)),
        spec_new_actions_are_grow(*old(world), *final(world)),
        spec_survivors_unchanged(*old(world), *final(world)),
        forall|e: Entity| #[trigger] old(world).spec_killed(e) ==> final(world).spec_killed(e),
        forall|e: Entity|
            #[trigger] old(world).spec_live(e) ==> final(world).spec_live(e)
                || final(world).spec_killed(e),
        forall|e: Entity|
            #[trigger] old(world).spec_live(e) && spec_act_target(act) != Some(e) ==> final(world).spec_live(e),
        crate::laws::spec_grow_potential(*final(world)) <= crate::laws::spec_grow_potential(
            *old(world),
        ) + crate::laws::spec_grow_budget(act),
        final(world).slots@.len() <= old(world).slots@.len() + 5,
        act matches ActionKind::DespawnTarget { target } ==> !final(world).spec_live(target)
            && (old(world).spec_live(target) ==> final(world).spec_killed(target)),
        act matches ActionKind::ReleaseMultiBall { target, .. } ==> (old(world).spec_live(target)
            ==> final(world).spec_killed(target) && !final(world).spec_live(target)),
        act matches ActionKind::ReleaseMultiBall { x, y, .. } ==> (old(world).slots@.len() + 2
            <= ENTITY_CAP ==> exists|b: Entity|
            {
                &&& #[trigger] final(world).spec_live(b)
                &&& !old(world).spec_live(b)
                &&& final(world).spec_record(b).ball is Some
                &&& final(world).spec_record(b).transform matches Some(t) && t.x == x && t.y == y
            }),
        act matches ActionKind::SpawnPeg { x, y, kind } ==> (old(world).slots@.len() + 2
            <= ENTITY_CAP ==> exists|p: Entity|
            {
                &&& #[trigger] final(world).spec_live(p)
                &&& !old(world).spec_live(p)
                &&& final(world).spec_record(p).peg matches Some(pe) && pe.kind == kind && !pe.hit
                &&& final(world).spec_record(p).transform matches Some(t) && t.x == x && t.y == y
            }),
        // A marker firing leaves its expiring cosmetic in place.
        act matches ActionKind::SpawnMarker { x, y, material, scale, lifetime } ==> (old(world).slots@.len() + 1 <= ENTITY_CAP ==> exists|m: Entity|
            {
                &&& #[trigger] final(world).spec_live(m)
                &&& !old(world).spec_live(m)
                &&& final(world).spec_record(m).material == Some(material)
                &&& final(world).spec_record(m).temporary == Some(Temporary { ticks: lifetime })
                &&& final(world).spec_record(m).transform == Some(
                    Transform { x, y, sx: scale, sy: scale, dir: 0 },
                )
            }),
        // A growth firing with energy and a stem grows its segment.
        act matches ActionKind::GrowPlant { x, y, energy, skip_stem, .. } ==> (energy >= 1
            && !skip_stem && old(world).slots@.len() + 3 <= ENTITY_CAP ==> exists|p: Entity|
            {
                &&& #[trigger] final(world).spec_live(p)
                &&& !old(world).spec_live(p)
                &&& final(world).spec_record(p).peg is Some
                &&& (final(world).spec_record(p).peg.unwrap().kind == PegKind::Plant || final(world).spec_record(p).peg.unwrap().kind == PegKind::Gold)
                &&& final(world).spec_record(p).transform matches Some(t) && t.x == x && t.y
                    == y
            }),
        // A replacement offer spawns the brick whenever the bounded
        // retries land on a free kind.
        act matches ActionKind::ReplacePowerup { x, y } ==> ({
            let sel = crate::level::spec_select_loop(
                *old(world),
                old(entropy).state,
                crate::level::SELECT_RETRY_CAP as nat,
            );
            sel is Some && old(world).slots@.len() + 1 <= ENTITY_CAP ==> exists|b: Entity|
                {
                    &&& #[trigger] final(world).spec_live(b)
                    &&& !old(world).spec_live(b)
                    &&& final(world).spec_record(b).powerup == Some(sel.unwrap())
                    &&& final(world).spec_record(b).transform matches Some(t) && t.x == x
                        && t.y == y
                }
        }),
    {
    match act {
        ActionKind::SpawnPeg { x, y, kind } => {
            if world.len() + 2 <= ENTITY_CAP {
                spawn_peg(world, bridge, assets, x, y, kind);
            }
        },
        ActionKind::DespawnTarget { target } => {
            despawn_entity(world, bridge, target);
        },
        ActionKind::ReleaseMultiBall { target, x, y } => {
            despawn_entity(world, bridge, target);
            let ghost mid = *world;
            if world.len() + 1 <= ENTITY_CAP {
                spawn_ball(world, bridge, assets, x, y, 0, 0, 1, RELEASED_BALL_SCALE_TENTHS);
            }
            proof {
                lemma_evolves_transitive(*old(world), mid, *world);
            }
        },
        ActionKind::SpawnMarker { x, y, material, scale, lifetime } => {
            if world.len() + 1 <= ENTITY_CAP {
                let mut rec = Record::empty();
                rec.transform = Some(Transform { x, y, sx: scale, sy: scale, dir: 0 });
                rec.material = Some(material);
                rec.temporary = Some(Temporary { ticks: lifetime });
                let m = world.spawn(rec);
                proof {
                    crate::laws::lemma_potential_single_diff(*old(world), *world, m);
                }
            }
        },
        ActionKind::GrowPlant { x, y, dir, energy, gold_energy, skip_stem } => {
            fire_grow_plant(
                world,
                bridge,
                assets,
                entropy,
                x,
                y,
                dir,
                energy,
                gold_energy,
                skip_stem,
            );
        },
        ActionKind::ReplacePowerup { x, y } => {
            match select_powerup(world, entropy) {
                Some(p) => {
                    if world.len() + 1 <= ENTITY_CAP {
                        spawn_brick_with_powerup(world, bridge, assets, x, y, p);
                    }
                },
                None => {},
            }
        },
    }
}

/// `r` with its pending countdown one lower.
pub open spec fn spec_dec_pending(r: Record) -> Record {
    Record {
        pending: Some(
            DelayedAction {
                ticks: (r.pending.unwrap().ticks - 1) as u64,
                kind: r.pending.unwrap().kind,
            },
        ),
        ..r
    }
}

/// One scheduler pass: decrement every pending countdown; every action
/// whose countdown ran out fires at most once, in slot order — its
/// owning entity is destroyed first, so it can never fire again — and
/// is gone from the world afterwards whether it fired or had already
/// been destroyed by an earlier firing of the same pass (the implicit
/// cancellation of a despawned owner).  The list handed back names each
/// entity that actually fired, once, with its action; and the pass pays
/// all growth work out of the growth potential: the potential after,
/// plus one for every plant segment spawned, stays within the potential
/// before.
#[verifier::rlimit(100)]
#[verifier::spinoff_prover]
pub fn run_delayed_actions(
    world: &mut World,
    bridge: &mut PhysicsBridge,
    assets: &GameAssets,
    entropy: &mut Entropy,
) -> (fired: Vec<(Entity, ActionKind)>)
    requires
        old(world).wf(),
    ensures
        final(world).wf(),
        evolves(*old(world), *final(world)),
        pegs_stable(*old(world), *final(world)),
        forall|e: Entity| #[trigger] old(world).spec_killed(e) ==> final(world).spec_killed(e),
        // Each fired entry was a due action, and its entity is gone.
        forall|j: int|
            0 <= j < fired@.len() ==> {
                let (e, k) = #[trigger] fired@[j];
                &&& old(world).spec_live(e)
                &&& old(world).spec_record(e).pending == Some(DelayedAction { ticks: old(world).spec_record(e).pending.unwrap().ticks, kind: k })
                &&& old(world).spec_record(e).pending.unwrap().ticks <= 1
                &&& final(world).spec_killed(e)
                &&& !final(world).spec_live(e)
            },
        // Each entity fired at most once.
        forall|j1: int, j2: int|
            #![trigger fired@[j1], fired@[j2]]
            0 <= j1 < j2 < fired@.len() ==> fired@[j1].0 != fired@[j2].0,
        // And exactly once, unless another firing of this pass destroyed
        // its owner first: a due action no firing targeted is in the list.
        forall|e: Entity|
            old(world).spec_live(e) && (#[trigger] old(world).spec_record(
                e,
            )).pending is Some && old(world).spec_record(e).pending.unwrap().ticks <= 1 && (
            forall|m: int|
                0 <= m < fired@.len() ==> spec_act_target((#[trigger] fired@[m]).1) != Some(e)) ==> exists|j: int| 0 <= j < fired@.len() && (#[trigger] fired@[j]).0 == e,
        // Every due action is gone afterwards, fired or cancelled.
        forall|e: Entity|
            old(world).spec_live(e) && (#[trigger] old(world).spec_record(
                e,
            )).pending is Some && old(world).spec_record(e).pending.unwrap().ticks <= 1 ==> final(world).spec_killed(e) && !final(world).spec_live(e),
        // A pending action not yet due either waits on, one tick closer,
        // or was destroyed by one of this pass's firings.
        forall|e: Entity|
            old(world).spec_live(e) && (#[trigger] old(world).spec_record(
                e,
            )).pending is Some && old(world).spec_record(e).pending.unwrap().ticks > 1 ==> (
            final(world).spec_killed(e) || (final(world).spec_live(e) && final(world).spec_record(e) == spec_dec_pending(old(world).spec_record(e)))),
        // And when no firing of this pass targets it, it surely waits
        // on, one tick closer.
        forall|e: Entity|
            old(world).spec_live(e) && (#[trigger] old(world).spec_record(
                e,
            )).pending is Some && old(world).spec_record(e).pending.unwrap().ticks > 1 && (
            forall|m: int|
                0 <= m < fired@.len() ==> spec_act_target((#[trigger] fired@[m]).1) != Some(
                    e,
                )) ==> final(world).spec_live(e) && final(world).spec_record(e)
                == spec_dec_pending(old(world).spec_record(e)),
        // Each firing that names a target destroyed it.
        forall|j: int|
            0 <= j < fired@.len() ==> (match spec_act_target((#[trigger] fired@[j]).1) {
                Some(t) => old(world).spec_live(t) ==> final(world).spec_killed(t)
                    && !final(world).spec_live(t),
                None => true,
            }),
        // Within capacity, each fired multi-ball release left its ball
        // — unless a later firing of this pass destroyed it in turn.
        6 * old(world).slots@.len() + 2 <= ENTITY_CAP ==> forall|j: int|
            0 <= j < fired@.len() ==> ((#[trigger] fired@[j]).1 matches ActionKind::ReleaseMultiBall { x, y, .. }
                ==> spec_ball_released(*final(world), *old(world), x, y, fired@)),
        // Entities with no pending action are untouched or destroyed.
        forall|e: Entity|
            old(world).spec_live(e) && (#[trigger] old(world).spec_record(
                e,
            )).pending is None ==> (final(world).spec_killed(e) || (final(world).spec_live(e)
                && final(world).spec_record(e) == old(world).spec_record(e))),
        // All growth is paid for out of the growth potential.
        crate::laws::spec_grow_potential(*final(world)) + crate::laws::spec_grow_spawn_count(
            fired@,
            fired@.len() as int,
        ) <= crate::laws::spec_grow_potential(*old(world)),
{
    let n = world.len();
    let mut due: Vec<(Entity, ActionKind)> = Vec::new();
    let mut i: usize = 0;
    while i < n
        invariant
            world.wf(),
            n == world.slots@.len(),
            old(world).slots@.len() == n,
            i <= n,
            evolves(*old(world), *world),
            forall|e: Entity| #[trigger] old(world).spec_killed(e) ==> world.spec_killed(e),
            forall|e: Entity| #[trigger] world.spec_live(e) <==> old(world).spec_live(e),
            crate::laws::spec_grow_potential(*world) == crate::laws::spec_grow_potential(
                *old(world),
            ),
            // processed entities decremented (unless due), the rest as they were
            forall|e: Entity|
                old(world).spec_live(e) && (#[trigger] old(world).spec_record(
                    e,
                )).pending is Some && e.index < i && old(world).spec_record(
                    e,
                ).pending.unwrap().ticks > 1 ==> world.spec_record(e) == spec_dec_pending(
                    old(world).spec_record(e),
                ),
            forall|e: Entity|
                old(world).spec_live(e) && (#[trigger] old(world).spec_record(
                    e,
                )).pending is Some && (e.index >= i || old(world).spec_record(
                    e,
                ).pending.unwrap().ticks <= 1) ==> world.spec_record(e) == old(world).spec_record(e),
            forall|e: Entity|
                old(world).spec_live(e) && (#[trigger] old(world).spec_record(
                    e,
                )).pending is None ==> world.spec_record(e) == old(world).spec_record(e),
            // the due list so far
            due@.len() <= i,
            forall|j: int|
                0 <= j < due@.len() ==> {
                    let (e, k) = #[trigger] due@[j];
                    &&& old(world).spec_live(e)
                    &&& e.index < i
                    &&& old(world).spec_record(e).pending == Some(
                        DelayedAction {
                            ticks: old(world).spec_record(e).pending.unwrap().ticks,
                            kind: k,
                        },
                    )
                    &&& old(world).spec_record(e).pending.unwrap().ticks <= 1
                },
            forall|j1: int, j2: int|
                #![trigger due@[j1], due@[j2]]
                0 <= j1 < j2 < due@.len() ==> due@[j1].0.index < due@[j2].0.index,
            forall|e: Entity|
                old(world).spec_live(e) && (#[trigger] old(world).spec_record(
                    e,
                )).pending is Some && old(world).spec_record(e).pending.unwrap().ticks <= 1
                    && e.index < i ==> exists|j: int|
                    0 <= j < due@.len() && (#[trigger] due@[j]).0 == e,
        decreases n - i,
    {
        match world.entity_at(i) {
            Some(e) => {
                proof {
                    assert forall|e2: Entity|
                        old(world).spec_live(e2) && e2.index == i implies e2 == e by {
                        assert(world.spec_live(e2));
                    }
                }
                let rec = *world.get(e).unwrap();
                match rec.pending {
                    Some(p) => {
                        if p.ticks <= 1 {
                            let ghost old_due = due@;
                            due.push((e, p.kind));
                            proof {
                                assert(due@[old_due.len() as int].0 == e);
                                assert forall|e2: Entity|
                                    old(world).spec_live(e2) && (#[trigger] old(world).spec_record(e2)).pending is Some && old(world).spec_record(
                                    e2,
                                ).pending.unwrap().ticks <= 1 && e2.index < i + 1 implies exists|
                                    j: int,
                                |
                                    0 <= j < due@.len() && (#[trigger] due@[j]).0 == e2 by {
                                    if e2.index < i {
                                        let j = choose|j: int|
                                            0 <= j < old_due.len() && (#[trigger] old_due[j]).0
                                                == e2;
                                        assert(due@[j].0 == e2);
                                    } else {
                                        assert(e2 == e);
                                        assert(due@[old_due.len() as int].0 == e2);
                                    }
                                }
                            }
                        } else {
                            let mut r2 = rec;
                            r2.pending = Some(
                                DelayedAction { ticks: p.ticks - 1, kind: p.kind },
                            );
                            let ghost prev = *world;
                            world.replace(e, r2);
                            proof {
                                crate::laws::lemma_potential_single_diff(prev, *world, e);
                            }
                        }
                    },
                    None => {},
                }
            },
            None => {
                proof {
                    assert forall|e2: Entity| old(world).spec_live(e2) implies e2.index != i by {
                        assert(world.spec_live(e2));
                    }
                }
            },
        }
        i = i + 1;
    }

    let ghost mid = *world;

    let mut fired: Vec<(Entity, ActionKind)> = Vec::new();
    let mut j: usize = 0;
    while j < due.len()
        invariant
            world.wf(),
            evolves(mid, *world),
            evolves(*old(world), mid),
            pegs_stable(mid, *world),
            spec_survivors_unchanged(mid, *world),
            forall|e: Entity| #[trigger] mid.spec_killed(e) ==> world.spec_killed(e),
            forall|e: Entity| #[trigger] old(world).spec_killed(e) ==> mid.spec_killed(e),
            j <= due@.len(),
            forall|k: int|
                0 <= k < due@.len() ==> {
                    let (e, kk) = #[trigger] due@[k];
                    &&& e.index < old(world).slots@.len()
                    &&& mid.spec_live(e)
                    &&& old(world).spec_live(e)
                    &&& mid.spec_record(e) == old(world).spec_record(e)
                    &&& old(world).spec_record(e).pending == Some(
                        DelayedAction {
                            ticks: old(world).spec_record(e).pending.unwrap().ticks,
                            kind: kk,
                        },
                    )
                    &&& old(world).spec_record(e).pending.unwrap().ticks <= 1
                },
            forall|k1: int, k2: int|
                #![trigger due@[k1], due@[k2]]
                0 <= k1 < k2 < due@.len() ==> due@[k1].0.index < due@[k2].0.index,
            forall|k: int| 0 <= k < j ==> world.spec_killed((#[trigger] due@[k]).0),
            forall|e: Entity|
                #[trigger] mid.spec_live(e) ==> world.spec_live(e) || world.spec_killed(e),
            forall|e: Entity| old(world).spec_live(e) <==> mid.spec_live(e),
            mid.slots@.len() == old(world).slots@.len(),
            due@.len() <= old(world).slots@.len(),
            world.slots@.len() <= mid.slots@.len() + 5 * j,
            // within capacity, each fired release is accounted for
            6 * old(world).slots@.len() + 2 <= ENTITY_CAP ==> forall|k: int|
                0 <= k < fired@.len() ==> ((#[trigger] fired@[k]).1 matches ActionKind::ReleaseMultiBall { x, y, .. }
                    ==> spec_ball_released(*world, *old(world), x, y, fired@)),
            // an entity neither owning a due action nor targeted so far
            // is untouched
            forall|e: Entity|
                #[trigger] mid.spec_live(e) && (forall|k: int|
                    0 <= k < due@.len() ==> (#[trigger] due@[k]).0 != e) && (forall|m: int|
                    0 <= m < fired@.len() ==> spec_act_target((#[trigger] fired@[m]).1)
                        != Some(e)) ==> world.spec_live(e) && world.spec_record(e)
                    == mid.spec_record(e),
            // each firing's named target is destroyed
            forall|k: int|
                0 <= k < fired@.len() ==> (match spec_act_target((#[trigger] fired@[k]).1) {
                    Some(t) => mid.spec_live(t) ==> world.spec_killed(t),
                    None => true,
                }),
            // fired so far: a subset of the processed prefix of due
            forall|k: int|
                0 <= k < fired@.len() ==> exists|m: int|
                    0 <= m < j && (#[trigger] fired@[k]) == due@[m],
            forall|k1: int, k2: int|
                #![trigger fired@[k1], fired@[k2]]
                0 <= k1 < k2 < fired@.len() ==> fired@[k1].0.index < fired@[k2].0.index,
            // an unprocessed due entity still lives, unless a firing so
            // far named it as its target
            forall|k: int|
                j <= k < due@.len() ==> world.spec_live((#[trigger] due@[k]).0) || (exists|
                    m: int,
                |
                    0 <= m < fired@.len() && spec_act_target((#[trigger] fired@[m]).1) == Some(due@[k].0)),
            // a processed due entity fired, or was destroyed by a firing
            // that targeted it
            forall|k: int|
                0 <= k < j ==> (exists|m: int|
                    0 <= m < fired@.len() && (#[trigger] fired@[m]).0 == (#[trigger] due@[k]).0) || (exists|m: int|
                    0 <= m < fired@.len() && spec_act_target(fired@[m].1) == Some(due@[k].0)),
            crate::laws::spec_grow_potential(*world) + crate::laws::spec_grow_spawn_count(
                fired@,
                fired@.len() as int,
            ) <= crate::laws::spec_grow_potential(mid),
        decreases due@.len() - j,
    {
        let (e, kind) = due[j];
        if world.is_live(e) {
            proof {
                assert(world.spec_record(e) == mid.spec_record(e));
            }
            let ghost before = *world;
            despawn_entity(world, bridge, e);
            let ghost after_despawn = *world;
            apply_action(world, bridge, assets, entropy, kind);
            let ghost old_fired = fired@;
            fired.push((e, kind));
            proof {
                lemma_evolves_transitive(mid, before, after_despawn);
                lemma_evolves_transitive(mid, after_despawn, *world);
                crate::world::lemma_pegs_stable_transitive(mid, before, after_despawn);
                crate::world::lemma_pegs_stable_transitive(mid, after_despawn, *world);
                assert forall|e2: Entity| mid.spec_live(e2) && #[trigger] world.spec_live(e2)
                    implies world.spec_record(e2) == mid.spec_record(e2) by {
                    crate::world::lemma_live_interpolation(mid, before, *world, e2);
                    crate::world::lemma_live_interpolation(before, after_despawn, *world, e2);
                }
                // The firing paid for itself: removing the action took
                // its full energy out, and what it scheduled stays a
                // point short.
                crate::laws::lemma_grow_spawn_count_congruence(
                    fired@,
                    old_fired,
                    old_fired.len() as int,
                );
                assert(crate::laws::spec_grow_spawn_count(fired@, fired@.len() as int)
                    == crate::laws::spec_grow_spawn_count(old_fired, old_fired.len() as int) + (
                match kind {
                    ActionKind::GrowPlant { energy, skip_stem, .. } => if energy >= 1
                        && !skip_stem {
                        1int
                    } else {
                        0
                    },
                    _ => 0,
                }));
                assert(crate::laws::spec_grow_energy_of(before.spec_record(e))
                    == crate::laws::spec_grow_energy_of_kind(kind));
                // The new entry's slot index tops every earlier one.
                assert forall|k: int| 0 <= k < old_fired.len() implies (#[trigger] old_fired[k]).0.index < e.index by {
                    let m = choose|m: int| 0 <= m < j && old_fired[k] == due@[m];
                    assert(due@[m].0.index < due@[j as int].0.index);
                }
                // Entities owning no due action and targeted by nothing
                // fired are untouched through this firing too.
                assert forall|e2: Entity|
                    #[trigger] mid.spec_live(e2) && (forall|k: int|
                        0 <= k < due@.len() ==> (#[trigger] due@[k]).0 != e2) && (forall|
                        m: int,
                    |
                        0 <= m < fired@.len() ==> spec_act_target((#[trigger] fired@[m]).1)
                            != Some(e2)) implies world.spec_live(e2) && world.spec_record(e2)
                    == mid.spec_record(e2) by {
                    assert forall|m: int|
                        0 <= m < old_fired.len() implies spec_act_target(
                        (#[trigger] old_fired[m]).1,
                    ) != Some(e2) by {
                        assert(fired@[m] == old_fired[m]);
                        assert(spec_act_target(fired@[m].1) != Some(e2));
                    }
                    assert(before.spec_live(e2) && before.spec_record(e2) == mid.spec_record(
                        e2,
                    ));
                    assert(e2 != e);
                    assert(after_despawn.spec_live(e2) && after_despawn.spec_record(e2)
                        == before.spec_record(e2));
                    assert(fired@[old_fired.len() as int].1 == kind);
                    assert(spec_act_target(kind) != Some(e2));
                    assert(world.spec_live(e2));
                }
                // Account for every fired release, old and new.
                if 6 * old(world).slots@.len() + 2 <= ENTITY_CAP {
                    assert(after_despawn.slots@.len() + 2 <= ENTITY_CAP);
                    lemma_release_step(
                        *old(world),
                        mid,
                        before,
                        after_despawn,
                        *world,
                        old_fired,
                        fired@,
                        e,
                        kind,
                    );
                }
                // Unprocessed due entities: alive through this firing,
                // or named as its target, or targeted before.
                assert forall|k: int| j + 1 <= k < due@.len() implies world.spec_live(
                    (#[trigger] due@[k]).0,
                ) || (exists|m: int|
                    0 <= m < fired@.len() && spec_act_target((#[trigger] fired@[m]).1) == Some(
                        due@[k].0,
                    )) by {
                    let t = due@[k].0;
                    if before.spec_live(t) {
                        assert(t.index != e.index);
                        assert(after_despawn.spec_live(t));
                        if spec_act_target(kind) == Some(t) {
                            assert(fired@[old_fired.len() as int].1 == kind);
                            assert(spec_act_target(fired@[old_fired.len() as int].1) == Some(
                                t,
                            ));
                        } else {
                            assert(world.spec_live(t));
                        }
                    } else {
                        let m = choose|m: int|
                            0 <= m < old_fired.len() && spec_act_target(
                                (#[trigger] old_fired[m]).1,
                            ) == Some(t);
                        assert(fired@[m] == old_fired[m]);
                        assert(spec_act_target(fired@[m].1) == Some(t));
                    }
                }
                // Processed due entities: each fired or was targeted.
                assert forall|k: int| 0 <= k < j + 1 implies (exists|m: int|
                    0 <= m < fired@.len() && (#[trigger] fired@[m]).0 == (#[trigger] due@[k]).0) || (exists|m: int|
                    0 <= m < fired@.len() && spec_act_target(fired@[m].1) == Some(due@[k].0)) by {
                    if k == j {
                        assert(fired@[old_fired.len() as int].0 == due@[k].0);
                    } else {
                        if exists|m: int|
                            0 <= m < old_fired.len() && (#[trigger] old_fired[m]).0 == due@[k].0 {
                            let m = choose|m: int|
                                0 <= m < old_fired.len() && (#[trigger] old_fired[m]).0
                                    == due@[k].0;
                            assert(fired@[m] == old_fired[m]);
                            assert(fired@[m].0 == due@[k].0);
                        } else {
                            let m = choose|m: int|
                                0 <= m < old_fired.len() && spec_act_target(
                                    (#[trigger] old_fired[m]).1,
                                ) == Some(due@[k].0);
                            assert(fired@[m] == old_fired[m]);
                            assert(spec_act_target(fired@[m].1) == Some(due@[k].0));
                        }
                    }
                }
            }
        } else {
            proof {
                assert(world.spec_killed(e));
                assert(exists|m: int|
                    0 <= m < fired@.len() && spec_act_target((#[trigger] fired@[m]).1) == Some(
                        due@[j as int].0,
                    ));
            }
        }
        j = j + 1;
    }

    proof {
        lemma_evolves_transitive(*old(world), mid, *world);
        assert forall|e: Entity|
            old(world).spec_live(e) && world.spec_live(e) && (#[trigger] old(world).spec_record(e)).peg is Some implies (#[trigger] world.spec_record(
            e,
        )).peg is Some && (old(world).spec_record(e).peg.unwrap().hit ==> world.spec_record(
            e,
        ).peg.unwrap().hit) by {
            crate::world::lemma_live_interpolation(*old(world), mid, *world, e);
        }
        assert forall|e: Entity|
            old(world).spec_live(e) && (#[trigger] old(world).spec_record(
                e,
            )).pending is None implies (world.spec_killed(e) || (world.spec_live(e)
            && world.spec_record(e) == old(world).spec_record(e))) by {
            assert(mid.spec_live(e));
            if world.spec_live(e) {
                assert(world.spec_record(e) == mid.spec_record(e));
            } else {
                assert(world.spec_killed(e));
            }
        }
        assert forall|e: Entity|
            old(world).spec_live(e) && (#[trigger] old(world).spec_record(
                e,
            )).pending is Some && old(world).spec_record(e).pending.unwrap().ticks > 1 implies (
        world.spec_killed(e) || (world.spec_live(e) && world.spec_record(e) == spec_dec_pending(
            old(world).spec_record(e),
        ))) by {
            assert(mid.spec_live(e));
            if world.spec_live(e) {
                assert(world.spec_record(e) == mid.spec_record(e));
            } else {
                assert(world.spec_killed(e));
            }
        }
        // Every due action is gone: it stood somewhere in the due list,
        // and everything processed is killed.
        assert forall|e: Entity|
            old(world).spec_live(e) && (#[trigger] old(world).spec_record(
                e,
            )).pending is Some && old(world).spec_record(e).pending.unwrap().ticks <= 1 implies
            world.spec_killed(e) && !world.spec_live(e) by {
            let j2 = choose|j2: int| 0 <= j2 < due@.len() && (#[trigger] due@[j2]).0 == e;
            assert(world.spec_killed(due@[j2].0));
        }
        // An undue action nothing targeted waits on, one tick closer.
        assert forall|e: Entity|
            old(world).spec_live(e) && (#[trigger] old(world).spec_record(
                e,
            )).pending is Some && old(world).spec_record(e).pending.unwrap().ticks > 1 && (
        forall|m: int|
            0 <= m < fired@.len() ==> spec_act_target((#[trigger] fired@[m]).1) != Some(
                e,
            )) implies world.spec_live(e) && world.spec_record(e) == spec_dec_pending(
            old(world).spec_record(e),
        ) by {
            assert(mid.spec_live(e));
            assert forall|k: int| 0 <= k < due@.len() implies (#[trigger] due@[k]).0 != e by {
                if due@[k].0 == e {
                    assert(old(world).spec_record(e).pending.unwrap().ticks <= 1);
                }
            }
            assert(world.spec_live(e) && world.spec_record(e) == mid.spec_record(e));
        }
        // A due action no firing targeted is in the fired list.
        assert forall|e: Entity|
            old(world).spec_live(e) && (#[trigger] old(world).spec_record(
                e,
            )).pending is Some && old(world).spec_record(e).pending.unwrap().ticks <= 1 && (
            forall|m: int|
                0 <= m < fired@.len() ==> spec_act_target((#[trigger] fired@[m]).1) != Some(e)) implies exists|j2: int|
            0 <= j2 < fired@.len() && (#[trigger] fired@[j2]).0 == e by {
            let k = choose|k: int| 0 <= k < due@.len() && (#[trigger] due@[k]).0 == e;
            if exists|m: int|
                0 <= m < fired@.len() && spec_act_target((#[trigger] fired@[m]).1) == Some(due@[k].0) {
                let m = choose|m: int|
                    0 <= m < fired@.len() && spec_act_target((#[trigger] fired@[m]).1) == Some(due@[k].0);
                assert(spec_act_target(fired@[m].1) != Some(e));
                assert(false);
            }
        }
    }
    fired
}

/// Despawn an entity and release its physics body, if it had one.
pub fn despawn_entity(world: &mut World, bridge: &mut PhysicsBridge, e: Entity)
    requires
        old(world).wf(),
    ensures
        final(world).wf(),
        evolves(*old(world), *final(world)),
        !final(world).spec_live(e),
        old(world).spec_live(e) ==> final(world).spec_killed(e),
        !old(world).spec_live(e) ==> *final(world) == *old(world),
        final(world).slots@.len() == old(world).slots@.len(),
        forall|e2: Entity|
            e2 != e ==> (final(world).spec_live(e2) <==> old(world).spec_live(e2)),
        forall|e2: Entity|
            e2 != e && old(world).spec_live(e2) ==> final(world).spec_record(e2) == old(world).spec_record(e2),
        forall|e2: Entity| #[trigger] old(world).spec_killed(e2) ==> final(world).spec_killed(e2),
        crate::laws::spec_grow_potential(*final(world)) == crate::laws::spec_grow_potential(
            *old(world),
        ) - (if old(world).spec_live(e) {
            crate::laws::spec_grow_energy_of(old(world).spec_record(e))
        } else {
            0
        }),
{
    if world.is_live(e) {
        let rec = *world.get(e).unwrap();
        match rec.phys {
            Some(p) => bridge.remove(p),
            None => {},
        }
        world.despawn(e);
        proof {
            crate::laws::lemma_potential_single_diff(*old(world), *world, e);
        }
    }
}

} // verus!
