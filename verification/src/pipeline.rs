//! Spawning and the per-tick resolution pipeline.
//!
//! Spawn helpers build the component records of pegs, balls and bricks
//! and register their bodies with the physics bridge.  The resolution
//! pass walks every ball's active contacts and applies the struck
//! entity's effect: a fresh peg lights up and queues its reward, a
//! powerup brick wears down, anything with health takes continuous
//! damage.  Every lookup is fallible and skips on a stale identifier.

use vstd::prelude::*;
use crate::components::{
    Entity, Record, Peg, PegKind, PlantRoot, Ball, Powerup, Health, Temporary, DelayedAction,
    ActionKind, Transform, ScaleAnim,
};
use crate::world::{World, ENTITY_CAP, evolves, keeps_existing, pegs_stable, lemma_evolves_transitive};
use crate::physics::{PhysicsBridge, COORD_BOUND};
use crate::level::{GameAssets, LevelState, UIState};
use crate::entropy::Entropy;

verus! {

/// Diameter of a peg, in tenths of a unit.
pub const PEG_SCALE_TENTHS: i64 = 96;

/// Diameter of a gold peg, in tenths of a unit (a touch larger).
pub const GOLD_PEG_SCALE_TENTHS: i64 = 134;

/// Starting health of pegs and bricks: one heart, in sixtieths.
pub const FULL_HEALTH: i64 = 60;

/// The scale-up animation every shockwave child starts with.
pub open spec fn spec_shockwave_anim() -> ScaleAnim {
    ScaleAnim { rate: 83, t: 1000, t_max: 2000, max_scale: 15 }
}

/// The record a freshly spawned peg of `kind` carries, up to its opaque
/// physics handle: not yet hit, base material, full health, a plant root
/// exactly on growable-plant pegs.
pub open spec fn spec_peg_record(
    assets: GameAssets,
    x: i64,
    y: i64,
    kind: PegKind,
    scale: i64,
    child: Entity,
    actual: Record,
) -> bool {
    &&& actual == (Record {
        transform: Some(Transform { x, y, sx: scale, sy: scale, dir: 0 }),
        material: Some(assets.spec_peg_material(kind).base),
        peg: Some(
            Peg {
                hit: false,
                shockwave_child: child,
                glowing_material: assets.spec_peg_material(kind).glowing,
                kind,
            },
        ),
        plant: if kind == PegKind::GrowablePlant {
            Some(PlantRoot { growth: 0 })
        } else {
            None
        },
        ball: None,
        powerup: None,
        health: Some(Health { remaining: FULL_HEALTH }),
        temporary: None,
        pending: None,
        scale_anim: None,
        phys: actual.phys,
        parent: None,
    })
    &&& actual.phys is Some
}

/// Spawn a peg of `kind` at `(x, y)` (tenths), with its shockwave child
/// and its kinematic physics body.  Hands back the peg entity; the child
/// is reachable through the peg's `shockwave_child` field.
pub fn spawn_peg(
    world: &mut World,
    bridge: &mut PhysicsBridge,
    assets: &GameAssets,
    x: i64,
    y: i64,
    kind: PegKind,
) -> (r: Entity)
    requires
        old(world).wf(),
        old(world).slots@.len() + 2 <= ENTITY_CAP,
    ensures
        final(world).wf(),
        evolves(*old(world), *final(world)),
        keeps_existing(*old(world), *final(world)),
        final(world).slots@.len() <= old(world).slots@.len() + 2,
        final(world).spec_live(r),
        !old(world).spec_live(r),
        spec_peg_record(
            *assets,
            x,
            y,
            kind,
            if kind == PegKind::Gold { GOLD_PEG_SCALE_TENTHS } else { PEG_SCALE_TENTHS },
            final(world).spec_record(r).peg.unwrap().shockwave_child,
            final(world).spec_record(r),
        ),
        final(world).spec_live(final(world).spec_record(r).peg.unwrap().shockwave_child),
        final(world).spec_record(r).peg.unwrap().shockwave_child != r,
        ({
            let c = final(world).spec_record(r).peg.unwrap().shockwave_child;
            let crec = final(world).spec_record(c);
            &&& !old(world).spec_live(c)
            &&& crec.scale_anim == Some(spec_shockwave_anim())
            &&& crec.material == Some(assets.spec_peg_material(kind).shockwave)
            &&& crec.parent == Some(r)
            &&& crec.peg is None
            &&& crec.pending is None
            &&& crec.temporary is None
        }),
        forall|e: Entity| #[trigger] final(world).spec_live(e) ==> old(world).spec_live(e)
            || e == r || e == final(world).spec_record(r).peg.unwrap().shockwave_child,
        forall|e: Entity| #[trigger] old(world).spec_killed(e) ==> final(world).spec_killed(e),
        crate::laws::spec_grow_potential(*final(world)) == crate::laws::spec_grow_potential(
            *old(world),
        ),
{
    let scale: i64 = if matches!(kind, PegKind::Gold) {
        GOLD_PEG_SCALE_TENTHS
    } else {
        PEG_SCALE_TENTHS
    };
    let mats = assets.peg_material(kind);

    let mut crec = Record::empty();
    crec.transform = Some(Transform { x, y, sx: scale, sy: scale, dir: 0 });
    crec.material = Some(mats.shockwave);
    crec.scale_anim = Some(ScaleAnim { rate: 83, t: 1000, t_max: 2000, max_scale: 15 });
    let child = world.spawn(crec);
    proof {
        crate::laws::lemma_potential_single_diff(*old(world), *world, child);
    }

    let ghost mid = *world;

    let mut rec = Record::empty();
    rec.transform = Some(Transform { x, y, sx: scale, sy: scale, dir: 0 });
    rec.material = Some(mats.base);
    rec.peg = Some(
        Peg { hit: false, shockwave_child: child, glowing_material: mats.glowing, kind },
    );
    rec.health = Some(Health { remaining: FULL_HEALTH });
    if matches!(kind, PegKind::GrowablePlant) {
        rec.plant = Some(PlantRoot { growth: 0 });
    }
    let parent = world.spawn(rec);
    proof {
        crate::laws::lemma_potential_single_diff(mid, *world, parent);
    }

    let ghost mid2 = *world;

    let radius = scale * 3 / 10;
    let phys = bridge.add_kinematic_ball(parent, x, y, radius);
    let mut rec2 = *world.get(parent).unwrap();
    rec2.phys = Some(phys);
    world.replace(parent, rec2);
    proof {
        crate::laws::lemma_potential_single_diff(mid2, *world, parent);
    }

    let ghost mid3 = *world;

    let mut crec2 = *world.get(child).unwrap();
    crec2.parent = Some(parent);
    world.replace(child, crec2);
    proof {
        crate::laws::lemma_potential_single_diff(mid3, *world, child);
    }

    proof {
        lemma_evolves_transitive(*old(world), mid, mid2);
        lemma_evolves_transitive(*old(world), mid2, mid3);
        lemma_evolves_transitive(*old(world), mid3, *world);
    }
    parent
}

/// Largest ball diameter, in tenths of a unit.
pub const MAX_BALL_SCALE_TENTHS: i64 = 500;

/// Spawn a ball at `(x, y)` moving at `(vx, vy)` (tenths per second),
/// with the given per-tick damage rate and diameter (clamped to the
/// maximum), backed by a dynamic physics body.
pub fn spawn_ball(
    world: &mut World,
    bridge: &mut PhysicsBridge,
    assets: &GameAssets,
    x: i64,
    y: i64,
    vx: i64,
    vy: i64,
    health_subtract_rate: i64,
    size_tenths: i64,
) -> (r: Entity)
    requires
        old(world).wf(),
        old(world).slots@.len() + 1 <= ENTITY_CAP,
        0 < size_tenths,
    ensures
        final(world).wf(),
        evolves(*old(world), *final(world)),
        keeps_existing(*old(world), *final(world)),
        final(world).slots@.len() <= old(world).slots@.len() + 1,
        final(world).spec_live(r),
        !old(world).spec_live(r),
        ({
            let rec = final(world).spec_record(r);
            let size = if size_tenths > MAX_BALL_SCALE_TENTHS {
                MAX_BALL_SCALE_TENTHS as int
            } else {
                size_tenths as int
            };
            &&& rec.ball == Some(Ball { health_subtract_rate })
            &&& rec.transform == Some(
                Transform { x, y, sx: size as i64, sy: size as i64, dir: 0 },
            )
            &&& rec.material == Some(assets.ball_material)
            &&& rec.phys is Some
            &&& rec.peg is None
            &&& rec.powerup is None
            &&& rec.health is None
            &&& rec.pending is None
            &&& rec.temporary is None
        }),
        forall|e: Entity|
            #[trigger] final(world).spec_live(e) ==> old(world).spec_live(e) || e == r,
        forall|e: Entity| #[trigger] old(world).spec_killed(e) ==> final(world).spec_killed(e),
        crate::laws::spec_grow_potential(*final(world)) == crate::laws::spec_grow_potential(
            *old(world),
        ),
{
    let size: i64 = if size_tenths > MAX_BALL_SCALE_TENTHS {
        MAX_BALL_SCALE_TENTHS
    } else {
        size_tenths
    };

    let mut rec = Record::empty();
    rec.transform = Some(Transform { x, y, sx: size, sy: size, dir: 0 });
    rec.material = Some(assets.ball_material);
    rec.ball = Some(Ball { health_subtract_rate });
    let e = world.spawn(rec);
    proof {
        crate::laws::lemma_potential_single_diff(*old(world), *world, e);
    }

    let ghost mid = *world;

    let phys = bridge.add_dynamic_ball(e, x, y, vx, vy, size / 2);
    let mut rec2 = *world.get(e).unwrap();
    rec2.phys = Some(phys);
    world.replace(e, rec2);
    proof {
        crate::laws::lemma_potential_single_diff(mid, *world, e);
    }

    proof {
        lemma_evolves_transitive(*old(world), mid, *world);
    }
    e
}

/// Spawn a plain brick obstacle: a kinematic box with health and the
/// brick material, `(w, h)` tenths across.
pub fn spawn_brick(
    world: &mut World,
    bridge: &mut PhysicsBridge,
    assets: &GameAssets,
    x: i64,
    y: i64,
    w: i64,
    h: i64,
) -> (r: Entity)
    requires
        old(world).wf(),
        old(world).slots@.len() + 1 <= ENTITY_CAP,
        0 < w <= COORD_BOUND,
        0 < h <= COORD_BOUND,
    ensures
        final(world).wf(),
        evolves(*old(world), *final(world)),
        keeps_existing(*old(world), *final(world)),
        final(world).slots@.len() <= old(world).slots@.len() + 1,
        final(world).spec_live(r),
        !old(world).spec_live(r),
        ({
            let rec = final(world).spec_record(r);
            &&& rec.health == Some(Health { remaining: FULL_HEALTH })
            &&& rec.transform == Some(Transform { x, y, sx: w, sy: h, dir: 0 })
            &&& rec.material == Some(assets.brick_material)
            &&& rec.phys is Some
            &&& rec.peg is None
            &&& rec.powerup is None
            &&& rec.pending is None
        }),
        forall|e: Entity|
            #[trigger] final(world).spec_live(e) ==> old(world).spec_live(e) || e == r,
        forall|e: Entity| #[trigger] old(world).spec_killed(e) ==> final(world).spec_killed(e),
{
    let mut rec = Record::empty();
    rec.transform = Some(Transform { x, y, sx: w, sy: h, dir: 0 });
    rec.material = Some(assets.brick_material);
    rec.health = Some(Health { remaining: FULL_HEALTH });
    let e = world.spawn(rec);

    let ghost mid = *world;

    let phys = bridge.add_kinematic_cuboid(e, x, y, w / 2, h / 2);
    let mut rec2 = *world.get(e).unwrap();
    rec2.phys = Some(phys);
    world.replace(e, rec2);

    proof {
        lemma_evolves_transitive(*old(world), mid, *world);
    }
    e
}

/// Width of a powerup brick, in tenths of a unit.
pub const BRICK_W_TENTHS: i64 = 400;

/// Height of a powerup brick, in tenths of a unit.
pub const BRICK_H_TENTHS: i64 = 200;

/// Spawn a brick carrying a powerup offer: a kinematic box whose cost
/// wears down on contact.
pub fn spawn_brick_with_powerup(
    world: &mut World,
    bridge: &mut PhysicsBridge,
    assets: &GameAssets,
    x: i64,
    y: i64,
    powerup: Powerup,
) -> (r: Entity)
    requires
        old(world).wf(),
        old(world).slots@.len() + 1 <= ENTITY_CAP,
    ensures
        final(world).wf(),
        evolves(*old(world), *final(world)),
        keeps_existing(*old(world), *final(world)),
        final(world).slots@.len() <= old(world).slots@.len() + 1,
        final(world).spec_live(r),
        !old(world).spec_live(r),
        ({
            let rec = final(world).spec_record(r);
            &&& rec.powerup == Some(powerup)
            &&& rec.transform == Some(
                Transform { x, y, sx: BRICK_W_TENTHS, sy: BRICK_H_TENTHS, dir: 0 },
            )
            &&& rec.material == Some(assets.brick_material)
            &&& rec.phys is Some
            &&& rec.peg is None
            &&& rec.health is None
            &&& rec.pending is None
            &&& rec.temporary is None
        }),
        forall|e: Entity|
            #[trigger] final(world).spec_live(e) ==> old(world).spec_live(e) || e == r,
        forall|e: Entity| #[trigger] old(world).spec_killed(e) ==> final(world).spec_killed(e),
        crate::laws::spec_grow_potential(*final(world)) == crate::laws::spec_grow_potential(
            *old(world),
        ),
{
    let mut rec = Record::empty();
    rec.transform = Some(Transform { x, y, sx: BRICK_W_TENTHS, sy: BRICK_H_TENTHS, dir: 0 });
    rec.material = Some(assets.brick_material);
    rec.powerup = Some(powerup);
    let e = world.spawn(rec);
    proof {
        crate::laws::lemma_potential_single_diff(*old(world), *world, e);
    }

    let ghost mid = *world;

    let phys = bridge.add_kinematic_cuboid(e, x, y, BRICK_W_TENTHS / 2, BRICK_H_TENTHS / 2);
    let mut rec2 = *world.get(e).unwrap();
    rec2.phys = Some(phys);
    world.replace(e, rec2);
    proof {
        crate::laws::lemma_potential_single_diff(mid, *world, e);
    }

    proof {
        lemma_evolves_transitive(*old(world), mid, *world);
    }
    e
}

/// Screen shake added by a fresh hit of each peg kind, in thousandths.
pub open spec fn spec_kind_shake(kind: PegKind) -> int {
    match kind {
        PegKind::Gold => 300,
        PegKind::Plant => 50,
        PegKind::MultiBall => 100,
        _ => 0,
    }
}

/// Screen shake added by hitting a powerup brick, in thousandths.
pub const POWERUP_SHAKE_MILLI: i64 = 800;

/// Screen shake saturates at this value, in thousandths.
pub const SHAKE_CAP_MILLI: i64 = 1000000000;

/// Shake accumulation: add and saturate.
pub open spec fn spec_shake_add(s: int, d: int) -> int {
    if d <= 0 {
        s
    } else if s + d <= SHAKE_CAP_MILLI {
        s + d
    } else {
        SHAKE_CAP_MILLI as int
    }
}

/// Health after one tick of contact damage, saturating far below zero.
pub open spec fn spec_damage(h: int, rate: int) -> int {
    if h - rate < i64::MIN {
        i64::MIN as int
    } else {
        h - rate
    }
}

/// What one tick of ball contact does to the struck entity's own
/// record: a not-yet-hit peg latches `hit` and swaps to its glowing
/// material; a powerup wears one cost point, stopping at zero; anything
/// with health takes the ball's damage rate.
pub open spec fn spec_struck_record(r: Record, rate: i64) -> Record {
    let r1 = if r.peg is Some && !r.peg.unwrap().hit {
        Record {
            peg: Some(Peg { hit: true, ..r.peg.unwrap() }),
            material: Some(r.peg.unwrap().glowing_material),
            ..r
        }
    } else {
        r
    };
    let r2 = if r1.powerup is Some {
        Record {
            powerup: Some(
                Powerup {
                    cost: if r1.powerup.unwrap().cost <= 1 {
                        0
                    } else {
                        (r1.powerup.unwrap().cost - 1) as u32
                    },
                    effect: r1.powerup.unwrap().effect,
                },
            ),
            ..r1
        }
    } else {
        r1
    };
    if r2.health is Some {
        Record {
            health: Some(
                Health {
                    remaining: spec_damage(r2.health.unwrap().remaining as int, rate as int) as i64,
                },
            ),
            ..r2
        }
    } else {
        r2
    }
}

/// The shockwave child's record with its scale animation restarted.
pub open spec fn spec_anim_reset(r: Record) -> Record {
    Record { scale_anim: Some(ScaleAnim { t: 500, ..r.scale_anim.unwrap() }), ..r }
}

/// Marker-base position: the struck entity's world position, boxed into
/// the play-field range.
pub open spec fn spec_marker_base(w: World, t: Entity) -> (int, int) {
    let g = crate::world::spec_global_pos(w, t);
    (
        if g.0 < -1000000 {
            -1000000int
        } else if g.0 > 1000000 {
            1000000int
        } else {
            g.0
        },
        if g.1 < -1000000 {
            -1000000int
        } else if g.1 > 1000000 {
            1000000int
        } else {
            g.1
        },
    )
}

/// Ticks between a powerup's acquisition and the replacement offer.
pub const REPLACE_POWERUP_DELAY: u64 = 36;

/// The actions one tick of contact with a target holding `r` queues for
/// later, with `(b0, b1)` the target's boxed world position: the
/// kind-specific floating marker or multi-ball release on a fresh peg
/// hit, and the replacement offer when a powerup is acquired.
pub open spec fn spec_contact_deferred(
    r: Record,
    t: Entity,
    b0: int,
    b1: int,
    assets: GameAssets,
) -> Seq<DelayedAction> {
    let fresh = r.peg is Some && !r.peg.unwrap().hit;
    let from_peg: Seq<DelayedAction> = if fresh {
        match r.peg.unwrap().kind {
            PegKind::Multiplier => seq![
                DelayedAction {
                    ticks: 1,
                    kind: ActionKind::SpawnMarker {
                        x: (b0 - 20) as i64,
                        y: (b1 - 20) as i64,
                        material: assets.x2,
                        scale: 200,
                        lifetime: 90,
                    },
                },
            ],
            PegKind::Gold => seq![
                DelayedAction {
                    ticks: 1,
                    kind: ActionKind::SpawnMarker {
                        x: (b0 + 20) as i64,
                        y: (b1 + 20) as i64,
                        material: assets.plus_twenty,
                        scale: 150,
                        lifetime: 50,
                    },
                },
            ],
            PegKind::Plant => seq![
                DelayedAction {
                    ticks: 1,
                    kind: ActionKind::SpawnMarker {
                        x: (b0 + 20) as i64,
                        y: (b1 + 20) as i64,
                        material: assets.plus_one,
                        scale: 120,
                        lifetime: 30,
                    },
                },
            ],
            PegKind::MultiBall => seq![
                DelayedAction {
                    ticks: 1,
                    kind: ActionKind::ReleaseMultiBall { target: t, x: b0 as i64, y: b1 as i64 },
                },
            ],
            _ => Seq::empty(),
        }
    } else {
        Seq::empty()
    };
    let acq = r.powerup is Some && r.powerup.unwrap().cost <= 1;
    let from_powerup: Seq<DelayedAction> = if acq && r.transform is Some {
        seq![
            DelayedAction {
                ticks: REPLACE_POWERUP_DELAY,
                kind: ActionKind::ReplacePowerup {
                    x: r.transform.unwrap().x,
                    y: r.transform.unwrap().y,
                },
            },
        ]
    } else {
        Seq::empty()
    };
    from_peg + from_powerup
}

/// Pitch multiplier after a fresh hit: one tenth higher, capped.
pub open spec fn spec_pitch_bump(p: u64) -> u64 {
    if p + 1 <= crate::level::PITCH_MAX_TENTHS {
        (p + 1) as u64
    } else {
        crate::level::PITCH_MAX_TENTHS
    }
}

/// Score multiplier after a multiplier peg: doubled, saturating.
pub open spec fn spec_mult_double(m: u64) -> u64 {
    if m <= u64::MAX / 2 {
        (2 * m) as u64
    } else {
        m
    }
}

/// Write the struck entity's own record: latch, wear, damage.
fn strike_target(world: &mut World, target: Entity, ball_rate: i64)
    requires
        old(world).wf(),
        old(world).spec_live(target),
        0 <= ball_rate <= 1000000,
    ensures
        final(world).wf(),
        evolves(*old(world), *final(world)),
        final(world).slots@.len() == old(world).slots@.len(),
        forall|e: Entity| final(world).spec_live(e) <==> old(world).spec_live(e),
        forall|e: Entity| #[trigger] old(world).spec_killed(e) ==> final(world).spec_killed(e),
        final(world).spec_record(target) == spec_struck_record(
            old(world).spec_record(target),
            ball_rate,
        ),
        forall|e: Entity|
            old(world).spec_live(e) && e != target ==> final(world).spec_record(e) == old(world).spec_record(e),
{
    let rec = *world.get(target).unwrap();
    let mut nr = rec;
    let fresh = match rec.peg {
        Some(p) => !p.hit,
        None => false,
    };
    if fresh {
        let p = nr.peg.unwrap();
        nr.material = Some(p.glowing_material);
        nr.peg = Some(Peg { hit: true, ..p });
    }
    match nr.powerup {
        Some(p) => {
            nr.powerup = Some(
                Powerup { cost: if p.cost <= 1 { 0 } else { p.cost - 1 }, effect: p.effect },
            );
        },
        None => {},
    }
    match nr.health {
        Some(h) => {
            let dam = if h.remaining < i64::MIN + ball_rate {
                i64::MIN
            } else {
                h.remaining - ball_rate
            };
            nr.health = Some(Health { remaining: dam });
        },
        None => {},
    }
    world.replace(target, nr);
}

/// Restart the scale-up animation of a struck peg's shockwave child.
/// A stale child, or one without the animation, is left alone.
fn reset_shockwave(world: &mut World, c: Entity)
    requires
        old(world).wf(),
    ensures
        final(world).wf(),
        evolves(*old(world), *final(world)),
        final(world).slots@.len() == old(world).slots@.len(),
        forall|e: Entity| final(world).spec_live(e) <==> old(world).spec_live(e),
        forall|e: Entity| #[trigger] old(world).spec_killed(e) ==> final(world).spec_killed(e),
        old(world).spec_live(c) && old(world).spec_record(c).scale_anim is Some ==> final(world).spec_record(c) == spec_anim_reset(old(world).spec_record(c)),
        !(old(world).spec_live(c) && old(world).spec_record(c).scale_anim is Some) ==> *final(world) == *old(world),
        forall|e: Entity|
            old(world).spec_live(e) && e != c ==> final(world).spec_record(e) == old(world).spec_record(e),
{
    if world.is_live(c) {
        let crec = *world.get(c).unwrap();
        match crec.scale_anim {
            Some(a) => {
                let mut c2 = crec;
                c2.scale_anim = Some(ScaleAnim { t: 500, ..a });
                world.replace(c, c2);
            },
            None => {},
        }
    }
}

/// Apply the shared-state side of one contact: pitch bump, collection,
/// multiplier doubling, screen shake, the queued reward actions, and
/// powerup acquisition.  `r` is the target's record before the strike
/// and `(bx, by)` its boxed world position.
#[verifier::rlimit(50)]
fn contact_level_effects(
    level: &mut LevelState,
    deferred: &mut Vec<DelayedAction>,
    to_despawn: &mut Vec<Entity>,
    assets: &GameAssets,
    target: Entity,
    ball: Entity,
    r: Record,
    bx: i64,
    by: i64,
)
    requires
        -1000000 <= bx <= 1000000,
        -1000000 <= by <= 1000000,
    ensures
        ({
            let fresh = r.peg is Some && !r.peg.unwrap().hit;
            let acq = r.powerup is Some && r.powerup.unwrap().cost <= 1;
            &&& final(level).pitch_multiplier == (if fresh {
                spec_pitch_bump(old(level).pitch_multiplier)
            } else {
                old(level).pitch_multiplier
            })
            &&& final(level).collected_pegs@ == (if fresh {
                old(level).collected_pegs@.push(target)
            } else {
                old(level).collected_pegs@
            })
            &&& final(level).multiplier == (if fresh && r.peg.unwrap().kind
                == PegKind::Multiplier {
                spec_mult_double(old(level).multiplier)
            } else {
                old(level).multiplier
            })
            &&& final(level).screen_shake_milli == spec_shake_add(
                spec_shake_add(
                    old(level).screen_shake_milli as int,
                    if fresh {
                        spec_kind_shake(r.peg.unwrap().kind)
                    } else {
                        0
                    },
                ),
                if r.powerup is Some {
                    POWERUP_SHAKE_MILLI as int
                } else {
                    0
                },
            )
            &&& final(level).effects_to_apply_to_next_ball@ == (if acq {
                old(level).effects_to_apply_to_next_ball@.push(r.powerup.unwrap().effect)
            } else {
                old(level).effects_to_apply_to_next_ball@
            })
            &&& *final(level) == (LevelState {
                pitch_multiplier: final(level).pitch_multiplier,
                collected_pegs: final(level).collected_pegs,
                multiplier: final(level).multiplier,
                screen_shake_milli: final(level).screen_shake_milli,
                effects_to_apply_to_next_ball: final(level).effects_to_apply_to_next_ball,
                ..*old(level)
            })
            &&& final(deferred)@ == old(deferred)@ + spec_contact_deferred(
                r,
                target,
                bx as int,
                by as int,
                *assets,
            )
            &&& final(to_despawn)@ == old(to_despawn)@ + (if acq {
                seq![target, ball]
            } else {
                Seq::<Entity>::empty()
            })
        }),
{
    let fresh = match r.peg {
        Some(p) => !p.hit,
        None => false,
    };
    if fresh {
        let p = r.peg.unwrap();
        if level.pitch_multiplier < crate::level::PITCH_MAX_TENTHS {
            level.pitch_multiplier = level.pitch_multiplier + 1;
        } else {
            level.pitch_multiplier = crate::level::PITCH_MAX_TENTHS;
        }
        level.collected_pegs.push(target);
        match p.kind {
            PegKind::Multiplier => {
                if level.multiplier <= u64::MAX / 2 {
                    level.multiplier = 2 * level.multiplier;
                }
                deferred.push(
                    DelayedAction {
                        ticks: 1,
                        kind: ActionKind::SpawnMarker {
                            x: bx - 20,
                            y: by - 20,
                            material: assets.x2,
                            scale: 200,
                            lifetime: 90,
                        },
                    },
                );
            },
            PegKind::Gold => {
                deferred.push(
                    DelayedAction {
                        ticks: 1,
                        kind: ActionKind::SpawnMarker {
                            x: bx + 20,
                            y: by + 20,
                            material: assets.plus_twenty,
                            scale: 150,
                            lifetime: 50,
                        },
                    },
                );
                level.add_screen_shake(300);
            },
            PegKind::Plant => {
                deferred.push(
                    DelayedAction {
                        ticks: 1,
                        kind: ActionKind::SpawnMarker {
                            x: bx + 20,
                            y: by + 20,
                            material: assets.plus_one,
                            scale: 120,
                            lifetime: 30,
                        },
                    },
                );
                level.add_screen_shake(50);
            },
            PegKind::MultiBall => {
                level.add_screen_shake(100);
                deferred.push(
                    DelayedAction {
                        ticks: 1,
                        kind: ActionKind::ReleaseMultiBall { target, x: bx, y: by },
                    },
                );
            },
            _ => {},
        }
    }
    match r.powerup {
        Some(p) => {
            level.add_screen_shake(POWERUP_SHAKE_MILLI);
            if p.cost <= 1 {
                level.effects_to_apply_to_next_ball.push(p.effect);
                to_despawn.push(target);
                to_despawn.push(ball);
                match r.transform {
                    Some(tr) => {
                        deferred.push(
                            DelayedAction {
                                ticks: REPLACE_POWERUP_DELAY,
                                kind: ActionKind::ReplacePowerup { x: tr.x, y: tr.y },
                            },
                        );
                    },
                    None => {},
                }
            }
        },
        None => {},
    }
}

/// Resolve one tick of active contact between `ball` and the collider
/// tagged `other_tag`.  A tag that names nothing live does nothing.  A
/// live target takes all the effects its components call for at once:
/// fresh-peg latch (glow, pitch bump, shockwave reset, collection, the
/// kind's reward action and shake, the multiplier doubling), powerup
/// wear with acquisition at zero cost, and continuous contact damage.
/// Spawns and despawns are only queued — `deferred` and `to_despawn` —
/// never applied here.
#[verifier::rlimit(100)]
pub fn apply_contact(
    world: &mut World,
    level: &mut LevelState,
    deferred: &mut Vec<DelayedAction>,
    to_despawn: &mut Vec<Entity>,
    assets: &GameAssets,
    ball: Entity,
    ball_rate: i64,
    other_tag: u128,
)
    requires
        old(world).wf(),
        0 <= ball_rate <= 1000000,
    ensures
        final(world).wf(),
        evolves(*old(world), *final(world)),
        final(world).slots@.len() == old(world).slots@.len(),
        forall|e: Entity| final(world).spec_live(e) <==> old(world).spec_live(e),
        forall|e: Entity| #[trigger] old(world).spec_killed(e) ==> final(world).spec_killed(e),
        pegs_stable(*old(world), *final(world)),
        ({
            let topt = crate::components::spec_entity_of_tag(other_tag);
            if topt is None || !old(world).spec_live(topt.unwrap()) {
                &&& *final(world) == *old(world)
                &&& *final(level) == *old(level)
                &&& final(deferred)@ == old(deferred)@
                &&& final(to_despawn)@ == old(to_despawn)@
            } else {
                let t = topt.unwrap();
                let r = old(world).spec_record(t);
                let base = spec_marker_base(*old(world), t);
                let fresh = r.peg is Some && !r.peg.unwrap().hit;
                let acq = r.powerup is Some && r.powerup.unwrap().cost <= 1;
                let c = r.peg.unwrap().shockwave_child;
                let creset = fresh && c != t && old(world).spec_live(c) && old(world).spec_record(c).scale_anim is Some;
                &&& final(world).spec_record(t) == spec_struck_record(r, ball_rate)
                &&& (creset ==> final(world).spec_record(c) == spec_anim_reset(
                    old(world).spec_record(c),
                ))
                &&& forall|e: Entity|
                    old(world).spec_live(e) && e != t && (!creset || e != c) ==> final(world).spec_record(e) == old(world).spec_record(e)
                &&& final(level).pitch_multiplier == (if fresh {
                    spec_pitch_bump(old(level).pitch_multiplier)
                } else {
                    old(level).pitch_multiplier
                })
                &&& final(level).collected_pegs@ == (if fresh {
                    old(level).collected_pegs@.push(t)
                } else {
                    old(level).collected_pegs@
                })
                &&& final(level).multiplier == (if fresh && r.peg.unwrap().kind
                    == PegKind::Multiplier {
                    spec_mult_double(old(level).multiplier)
                } else {
                    old(level).multiplier
                })
                &&& final(level).screen_shake_milli == spec_shake_add(
                    spec_shake_add(
                        old(level).screen_shake_milli as int,
                        if fresh {
                            spec_kind_shake(r.peg.unwrap().kind)
                        } else {
                            0
                        },
                    ),
                    if r.powerup is Some {
                        POWERUP_SHAKE_MILLI as int
                    } else {
                        0
                    },
                )
                &&& *final(level) == (LevelState {
                    pitch_multiplier: final(level).pitch_multiplier,
                    collected_pegs: final(level).collected_pegs,
                    multiplier: final(level).multiplier,
                    screen_shake_milli: final(level).screen_shake_milli,
                    effects_to_apply_to_next_ball: final(level).effects_to_apply_to_next_ball,
                    ..*old(level)
                })
                &&& final(level).effects_to_apply_to_next_ball@ == (if acq {
                    old(level).effects_to_apply_to_next_ball@.push(r.powerup.unwrap().effect)
                } else {
                    old(level).effects_to_apply_to_next_ball@
                })
                &&& final(deferred)@ == old(deferred)@ + spec_contact_deferred(
                    r,
                    t,
                    base.0,
                    base.1,
                    *assets,
                )
                &&& final(to_despawn)@ == old(to_despawn)@ + (if acq {
                    seq![t, ball]
                } else {
                    Seq::<Entity>::empty()
                })
            }
        }),
{
    let target = match crate::components::entity_of_tag(other_tag) {
        None => { return ; },
        Some(t) => t,
    };
    if !world.is_live(target) {
        return ;
    }
    let rec = *world.get(target).unwrap();
    let (gx, gy) = world.global_position(target);
    let bx: i64 = if gx < -1000000 {
        -1000000
    } else if gx > 1000000 {
        1000000
    } else {
        gx
    };
    let by: i64 = if gy < -1000000 {
        -1000000
    } else if gy > 1000000 {
        1000000
    } else {
        gy
    };

    strike_target(world, target, ball_rate);

    let fresh = match rec.peg {
        Some(p) => !p.hit,
        None => false,
    };
    if fresh {
        let c = rec.peg.unwrap().shockwave_child;
        if c != target {
            let ghost mid = *world;
            reset_shockwave(world, c);
            proof {
                lemma_evolves_transitive(*old(world), mid, *world);
            }
        }
    }

    contact_level_effects(level, deferred, to_despawn, assets, target, ball, rec, bx, by);
}

/// Ticks a contact-marked entity lingers before its despawn.
pub const DESPAWN_MARK_TICKS: u64 = 10;

/// The collision resolution pass: for every live ball, walk the active
/// contacts its collider currently has, resolve each one's other side
/// to an entity, and apply the contact effects.  All spawns decided
/// during the pass are queued as scheduled actions and all despawns as
/// expiry countdowns, applied after the contact walk — nothing vanishes
/// mid-iteration, so this pass never destroys an entity outright, never
/// un-hits a peg, and only ever lowers a powerup's cost.
pub fn run_pegs(
    world: &mut World,
    bridge: &mut PhysicsBridge,
    level: &mut LevelState,
    assets: &GameAssets,
)
    requires
        old(world).wf(),
    ensures
        final(world).wf(),
        evolves(*old(world), *final(world)),
        pegs_stable(*old(world), *final(world)),
        forall|e: Entity| #[trigger] old(world).spec_killed(e) ==> final(world).spec_killed(e),
        forall|e: Entity| #[trigger] old(world).spec_live(e) ==> final(world).spec_live(e),
        forall|e: Entity|
            old(world).spec_live(e) && (#[trigger] old(world).spec_record(e)).powerup is Some
                ==> (#[trigger] final(world).spec_record(e)).powerup is Some && final(world).spec_record(e).powerup.unwrap().cost <= old(world).spec_record(
                e,
            ).powerup.unwrap().cost && final(world).spec_record(e).powerup.unwrap().effect == old(world).spec_record(e).powerup.unwrap().effect,
        forall|e: Entity|
            #[trigger] final(world).spec_live(e) && !old(world).spec_live(e) ==> final(world).spec_record(e).pending is Some,
        final(level).other_world == old(level).other_world,
        final(level).other_bridge == old(level).other_bridge,
{
    let n = world.len();
    let mut deferred: Vec<DelayedAction> = Vec::new();
    let mut to_despawn: Vec<Entity> = Vec::new();

    let mut i: usize = 0;
    while i < n
        invariant
            world.wf(),
            n == world.slots@.len(),
            old(world).slots@.len() == n,
            i <= n,
            evolves(*old(world), *world),
            pegs_stable(*old(world), *world),
            forall|e: Entity| #[trigger] old(world).spec_killed(e) ==> world.spec_killed(e),
            forall|e: Entity| world.spec_live(e) <==> old(world).spec_live(e),
            forall|e: Entity|
                old(world).spec_live(e) && (#[trigger] old(world).spec_record(
                    e,
                )).powerup is Some ==> (#[trigger] world.spec_record(e)).powerup is Some
                    && world.spec_record(e).powerup.unwrap().cost <= old(world).spec_record(
                    e,
                ).powerup.unwrap().cost && world.spec_record(e).powerup.unwrap().effect == old(world).spec_record(e).powerup.unwrap().effect,
            forall|j: int|
                0 <= j < deferred@.len() ==> (#[trigger] deferred@[j]).ticks >= 1,
            level.other_world == old(level).other_world,
            level.other_bridge == old(level).other_bridge,
        decreases n - i,
    {
        match world.entity_at(i) {
            Some(e) => {
                let rec = *world.get(e).unwrap();
                match (rec.ball, rec.phys) {
                    (Some(b), Some(ph)) => {
                        let rate: i64 = if b.health_subtract_rate < 0 {
                            0
                        } else if b.health_subtract_rate > 1000000 {
                            1000000
                        } else {
                            b.health_subtract_rate
                        };
                        let ball_tag = crate::components::entity_tag(e);
                        let contacts = bridge.contacts_of(ph.collider);
                        let mut k: usize = 0;
                        while k < contacts.len()
                            invariant
                                world.wf(),
                                n == world.slots@.len(),
                                old(world).slots@.len() == n,
                                k <= contacts@.len(),
                                0 <= rate <= 1000000,
                                evolves(*old(world), *world),
                                pegs_stable(*old(world), *world),
                                forall|e2: Entity|
                                    #[trigger] old(world).spec_killed(e2)
                                        ==> world.spec_killed(e2),
                                forall|e2: Entity|
                                    world.spec_live(e2) <==> old(world).spec_live(e2),
                                forall|e2: Entity|
                                    old(world).spec_live(e2) && (#[trigger] old(world).spec_record(e2)).powerup is Some ==> (
                                    #[trigger] world.spec_record(e2)).powerup is Some
                                        && world.spec_record(e2).powerup.unwrap().cost <= old(world).spec_record(e2).powerup.unwrap().cost && world.spec_record(
                                        e2,
                                    ).powerup.unwrap().effect == old(world).spec_record(
                                        e2,
                                    ).powerup.unwrap().effect,
                                forall|j: int|
                                    0 <= j < deferred@.len() ==> (#[trigger] deferred@[j]).ticks >= 1,
                                level.other_world == old(level).other_world,
                                level.other_bridge == old(level).other_bridge,
                            decreases contacts@.len() - k,
                        {
                            let c = contacts[k];
                            if c.active {
                                let other = if c.tag1 == ball_tag {
                                    c.tag2
                                } else {
                                    c.tag1
                                };
                                let ghost prev = *world;
                                apply_contact(
                                    world,
                                    level,
                                    &mut deferred,
                                    &mut to_despawn,
                                    assets,
                                    e,
                                    rate,
                                    other,
                                );
                                proof {
                                    lemma_evolves_transitive(*old(world), prev, *world);
                                    crate::world::lemma_pegs_stable_transitive(
                                        *old(world),
                                        prev,
                                        *world,
                                    );
                                }
                            }
                            k = k + 1;
                        }
                    },
                    _ => {},
                }
            },
            None => {},
        }
        i = i + 1;
    }

    // Queue the decided spawns as scheduled actions.
    let ghost mid = *world;
    let mut j: usize = 0;
    while j < deferred.len()
        invariant
            world.wf(),
            j <= deferred@.len(),
            evolves(mid, *world),
            keeps_existing(mid, *world),
            forall|e: Entity| #[trigger] mid.spec_killed(e) ==> world.spec_killed(e),
            forall|jj: int|
                0 <= jj < deferred@.len() ==> (#[trigger] deferred@[jj]).ticks >= 1,
            forall|e: Entity|
                #[trigger] world.spec_live(e) && !mid.spec_live(e) ==> world.spec_record(
                    e,
                ).pending is Some,
        decreases deferred@.len() - j,
    {
        let pa = deferred[j];
        if world.len() < ENTITY_CAP {
            let ghost prev = *world;
            crate::scheduler::schedule(world, pa.ticks, pa.kind);
            proof {
                lemma_evolves_transitive(mid, prev, *world);
            }
        }
        j = j + 1;
    }

    // Mark the decided despawns: they expire through the temporary
    // lifecycle, never mid-pass.
    let ghost mid2 = *world;
    let mut m: usize = 0;
    while m < to_despawn.len()
        invariant
            world.wf(),
            m <= to_despawn@.len(),
            evolves(mid2, *world),
            forall|e: Entity| #[trigger] mid2.spec_killed(e) ==> world.spec_killed(e),
            forall|e: Entity| world.spec_live(e) <==> mid2.spec_live(e),
            pegs_stable(mid2, *world),
            forall|e: Entity|
                mid2.spec_live(e) && (#[trigger] mid2.spec_record(e)).powerup is Some ==> (
                #[trigger] world.spec_record(e)).powerup is Some && world.spec_record(
                    e,
                ).powerup.unwrap().cost <= mid2.spec_record(e).powerup.unwrap().cost
                    && world.spec_record(e).powerup.unwrap().effect == mid2.spec_record(
                    e,
                ).powerup.unwrap().effect,
            forall|e: Entity|
                mid2.spec_live(e) && (#[trigger] mid2.spec_record(e)).pending is Some ==> (
                #[trigger] world.spec_record(e)).pending is Some,
        decreases to_despawn@.len() - m,
    {
        let t = to_despawn[m];
        if world.is_live(t) {
            let mut rec = *world.get(t).unwrap();
            rec.temporary = Some(Temporary { ticks: DESPAWN_MARK_TICKS });
            let ghost prev = *world;
            world.replace(t, rec);
            proof {
                lemma_evolves_transitive(mid2, prev, *world);
            }
        }
        m = m + 1;
    }

    proof {
        lemma_evolves_transitive(*old(world), mid, mid2);
        lemma_evolves_transitive(*old(world), mid2, *world);
        crate::world::lemma_pegs_stable_transitive(*old(world), mid, mid2);
        crate::world::lemma_pegs_stable_transitive(*old(world), mid2, *world);
        assert forall|e: Entity|
            #[trigger] world.spec_live(e) && !old(world).spec_live(e) implies world.spec_record(
            e,
        ).pending is Some by {
            assert(!mid.spec_live(e));
            assert(mid2.spec_live(e));
        }
    }
}

/// The health reaper: every entity whose health is no longer positive
/// is destroyed, body and all.  Everything else is untouched.
pub fn run_health(world: &mut World, bridge: &mut PhysicsBridge)
    requires
        old(world).wf(),
    ensures
        final(world).wf(),
        evolves(*old(world), *final(world)),
        pegs_stable(*old(world), *final(world)),
        final(world).slots@.len() == old(world).slots@.len(),
        forall|e: Entity| #[trigger] old(world).spec_killed(e) ==> final(world).spec_killed(e),
        forall|e: Entity|
            old(world).spec_live(e) && (#[trigger] old(world).spec_record(e)).health is Some
                && old(world).spec_record(e).health.unwrap().remaining <= 0 ==> final(world).spec_killed(e),
        forall|e: Entity|
            old(world).spec_live(e) && !((#[trigger] old(world).spec_record(
                e,
            )).health is Some && old(world).spec_record(e).health.unwrap().remaining <= 0)
                ==> final(world).spec_live(e) && final(world).spec_record(e) == old(world).spec_record(e),
        forall|e: Entity| #[trigger] final(world).spec_live(e) ==> old(world).spec_live(e),
{
    let n = world.len();
    let mut i: usize = 0;
    while i < n
        invariant
            world.wf(),
            n == world.slots@.len(),
            old(world).slots@.len() == n,
            i <= n,
            evolves(*old(world), *world),
            forall|e: Entity| #[trigger] old(world).spec_killed(e) ==> world.spec_killed(e),
            forall|e: Entity|
                old(world).spec_live(e) && (#[trigger] old(world).spec_record(
                    e,
                )).health is Some && old(world).spec_record(e).health.unwrap().remaining <= 0
                    && e.index < i ==> world.spec_killed(e),
            forall|e: Entity|
                old(world).spec_live(e) && !((#[trigger] old(world).spec_record(
                    e,
                )).health is Some && old(world).spec_record(e).health.unwrap().remaining <= 0
                    && e.index < i) ==> world.spec_live(e) && world.spec_record(e) == old(world).spec_record(e),
            forall|e: Entity| #[trigger] world.spec_live(e) ==> old(world).spec_live(e),
        decreases n - i,
    {
        match world.entity_at(i) {
            Some(e) => {
                let rec = *world.get(e).unwrap();
                match rec.health {
                    Some(h) => {
                        if h.remaining <= 0 {
                            let ghost prev = *world;
                            crate::scheduler::despawn_entity(world, bridge, e);
                            proof {
                                lemma_evolves_transitive(*old(world), prev, *world);
                            }
                        }
                    },
                    None => {},
                }
            },
            None => {},
        }
        i = i + 1;
    }
}

/// The scale-up animation pass: each animated entity's clock advances
/// by its rate, clamped to its ceiling, and its transform scale follows
/// the smoothed ramp of the clock toward the full scale.
pub fn run_scale(world: &mut World)
    requires
        old(world).wf(),
    ensures
        final(world).wf(),
        evolves(*old(world), *final(world)),
        pegs_stable(*old(world), *final(world)),
        final(world).slots@.len() == old(world).slots@.len(),
        forall|e: Entity| #[trigger] old(world).spec_killed(e) ==> final(world).spec_killed(e),
        forall|e: Entity| final(world).spec_live(e) <==> old(world).spec_live(e),
        forall|e: Entity|
            old(world).spec_live(e) && ((#[trigger] old(world).spec_record(
                e,
            )).scale_anim is None || old(world).spec_record(e).transform is None) ==> final(world).spec_record(e) == old(world).spec_record(e),
        forall|e: Entity|
            old(world).spec_live(e) && (#[trigger] old(world).spec_record(
                e,
            )).scale_anim is Some && old(world).spec_record(e).transform is Some ==> final(world).spec_record(e) == spec_scaled_record(old(world).spec_record(e)),
{
    let n = world.len();
    let mut i: usize = 0;
    while i < n
        invariant
            world.wf(),
            n == world.slots@.len(),
            old(world).slots@.len() == n,
            i <= n,
            evolves(*old(world), *world),
            forall|e: Entity| #[trigger] old(world).spec_killed(e) ==> world.spec_killed(e),
            forall|e: Entity| world.spec_live(e) <==> old(world).spec_live(e),
            forall|e: Entity|
                old(world).spec_live(e) && (((#[trigger] old(world).spec_record(
                    e,
                )).scale_anim is None || old(world).spec_record(e).transform is None) || e.index
                    >= i) ==> world.spec_record(e) == old(world).spec_record(e),
            forall|e: Entity|
                old(world).spec_live(e) && (#[trigger] old(world).spec_record(
                    e,
                )).scale_anim is Some && old(world).spec_record(e).transform is Some && e.index
                    < i ==> world.spec_record(e) == spec_scaled_record(
                    old(world).spec_record(e),
                ),
        decreases n - i,
    {
        match world.entity_at(i) {
            Some(e) => {
                let rec = *world.get(e).unwrap();
                match (rec.scale_anim, rec.transform) {
                    (Some(a), Some(t)) => {
                        let bounded_rate: i64 = if a.rate < 0 {
                            0
                        } else if a.rate > 100000 {
                            100000
                        } else {
                            a.rate
                        };
                        let ceiling: i64 = if a.t_max < 0 {
                            0
                        } else if a.t_max > 1000000 {
                            1000000
                        } else {
                            a.t_max
                        };
                        let base: i64 = if a.t < 0 {
                            0
                        } else if a.t > 1000000 {
                            1000000
                        } else {
                            a.t
                        };
                        let stepped = base + bounded_rate;
                        let nt: i64 = if stepped > ceiling {
                            ceiling
                        } else {
                            stepped
                        };
                        let smooth = crate::fixmath::smooth_step_milli(nt);
                        let ns = crate::fixmath::scale_milli(
                            if a.max_scale < -2000000 {
                                -2000000
                            } else if a.max_scale > 2000000 {
                                2000000
                            } else {
                                a.max_scale
                            },
                            smooth,
                        );
                        let mut r2 = rec;
                        r2.scale_anim = Some(ScaleAnim { t: nt, ..a });
                        r2.transform = Some(Transform { sx: ns, sy: ns, ..t });
                        let ghost prev = *world;
                        world.replace(e, r2);
                        proof {
                            lemma_evolves_transitive(*old(world), prev, *world);
                        }
                    },
                    _ => {},
                }
            },
            None => {},
        }
        i = i + 1;
    }
}

/// The record of an animated entity after one animation pass.
pub open spec fn spec_scaled_record(r: Record) -> Record {
    let a = r.scale_anim.unwrap();
    let t = r.transform.unwrap();
    let bounded_rate = if a.rate < 0 {
        0
    } else if a.rate > 100000 {
        100000int
    } else {
        a.rate as int
    };
    let ceiling = if a.t_max < 0 {
        0
    } else if a.t_max > 1000000 {
        1000000int
    } else {
        a.t_max as int
    };
    let base = if a.t < 0 {
        0
    } else if a.t > 1000000 {
        1000000int
    } else {
        a.t as int
    };
    let nt = if base + bounded_rate > ceiling {
        ceiling
    } else {
        base + bounded_rate
    };
    let smooth = crate::fixmath::spec_smooth_step_milli(nt as i64);
    let bounded_max = if a.max_scale < -2000000 {
        -2000000int
    } else if a.max_scale > 2000000 {
        2000000int
    } else {
        a.max_scale as int
    };
    let ns = crate::fixmath::spec_scale_milli(bounded_max, smooth as int);
    Record {
        scale_anim: Some(ScaleAnim { t: nt as i64, ..a }),
        transform: Some(Transform { sx: ns as i64, sy: ns as i64, ..t }),
        ..r
    }
}

/// Bottom of the play field, in tenths; a ball below it is out.
pub const WORLD_BOTTOM_TENTHS: i64 = -750;

/// Some ball is still in flight: alive, placed, and above the bottom.
pub open spec fn spec_ball_in_flight(w: World) -> bool {
    exists|e: Entity|
        {
            &&& #[trigger] w.spec_live(e)
            &&& w.spec_record(e).ball is Some
            &&& w.spec_record(e).transform is Some
            &&& w.spec_record(e).transform.unwrap().y >= WORLD_BOTTOM_TENTHS
        }
}

/// The payout a finished shot adds to the incoming gold: the reward
/// scaled by the shot multiplier, capped.
pub open spec fn spec_payout_gain(reward: u64, mult: u64) -> int {
    if mult == 0 {
        0
    } else if reward > 1000000000u64 / mult {
        1000000000
    } else {
        reward * mult
    }
}

/// Incoming gold after banking `gain`, saturating far below its type's
/// limit.
pub open spec fn spec_incoming_after(incoming: i64, gain: int) -> int {
    if incoming + gain <= 1000000000000 {
        incoming + gain
    } else {
        1000000000000
    }
}

/// The ball pass: balls fallen below the play field are removed; when
/// none remain in flight, the shot ends — the collected pegs pay out
/// through [`LevelState::prepare_to_shoot`], the headline message
/// follows the payout, the gold (scaled by the shot multiplier) starts
/// trickling in, and the next shot is armed.
pub fn run_balls(
    world: &mut World,
    bridge: &mut PhysicsBridge,
    level: &mut LevelState,
    ui: &mut UIState,
    entropy: &mut Entropy,
)
    requires
        old(world).wf(),
    ensures
        final(world).wf(),
        evolves(*old(world), *final(world)),
        pegs_stable(*old(world), *final(world)),
        forall|e: Entity| #[trigger] old(world).spec_killed(e) ==> final(world).spec_killed(e),
        forall|e: Entity|
            old(world).spec_live(e) && (#[trigger] old(world).spec_record(e)).ball is Some
                && old(world).spec_record(e).transform is Some && old(world).spec_record(
                e,
            ).transform.unwrap().y < WORLD_BOTTOM_TENTHS ==> final(world).spec_killed(e),
        final(level).other_world == old(level).other_world,
        final(level).other_bridge == old(level).other_bridge,
        // Nothing but a fallen ball leaves the world in this pass.
        forall|e: Entity|
            #[trigger] old(world).spec_live(e) && !(old(world).spec_record(e).ball is Some
                && old(world).spec_record(e).transform is Some && old(world).spec_record(
                e,
            ).transform.unwrap().y < WORLD_BOTTOM_TENTHS) ==> final(world).spec_live(e),
        // While a ball flies, the shot is still on: shared state is
        // untouched.
        spec_ball_in_flight(*old(world)) ==> *final(level) == *old(level) && *final(ui) == *old(ui),
        // With no ball left, the shot ends: pay out, reset, re-arm.
        !spec_ball_in_flight(*old(world)) ==> final(level).ready_to_shoot && final(level).multiplier == 1 && !final(level).fired_once && final(ui).gold == old(ui).gold,
        !spec_ball_in_flight(*old(world)) && !old(level).in_shop ==> final(level).collected_pegs@.len() == 0 && final(level).pitch_multiplier
            == crate::level::PITCH_START_TENTHS,
        !spec_ball_in_flight(*old(world)) && !old(level).in_shop && crate::level::spec_no_ball_peg_hybrids(*old(world)) ==> final(ui).incoming_gold == spec_incoming_after(
            old(ui).incoming_gold,
            spec_payout_gain(
                crate::level::spec_rewards(
                    *old(world),
                    old(level).collected_pegs@,
                    old(level).collected_pegs@.len() as int,
                ),
                old(level).multiplier,
            ),
        ),
{
    let n = world.len();
    let mut in_flight: u64 = 0;
    let mut i: usize = 0;
    while i < n
        invariant
            world.wf(),
            n == world.slots@.len(),
            old(world).slots@.len() == n,
            i <= n,
            evolves(*old(world), *world),
            pegs_stable(*old(world), *world),
            forall|e: Entity| #[trigger] old(world).spec_killed(e) ==> world.spec_killed(e),
            forall|e: Entity|
                old(world).spec_live(e) && (#[trigger] old(world).spec_record(
                    e,
                )).ball is Some && old(world).spec_record(e).transform is Some && old(world).spec_record(e).transform.unwrap().y < WORLD_BOTTOM_TENTHS && e.index < i
                    ==> world.spec_killed(e),
            forall|e: Entity|
                #[trigger] old(world).spec_live(e) ==> (world.spec_live(e) && world.spec_record(
                    e,
                ) == old(world).spec_record(e)) || world.spec_killed(e),
            forall|e: Entity| #[trigger] world.spec_live(e) ==> old(world).spec_live(e),
            forall|e: Entity|
                #[trigger] old(world).spec_live(e) && !(old(world).spec_record(
                    e,
                ).ball is Some && old(world).spec_record(e).transform is Some && old(world).spec_record(e).transform.unwrap().y < WORLD_BOTTOM_TENTHS) ==> world.spec_live(
                    e,
                ),
            (in_flight > 0) <==> (exists|e: Entity|
                {
                    &&& #[trigger] old(world).spec_live(e)
                    &&& old(world).spec_record(e).ball is Some
                    &&& old(world).spec_record(e).transform is Some
                    &&& old(world).spec_record(e).transform.unwrap().y >= WORLD_BOTTOM_TENTHS
                    &&& e.index < i
                }),
        decreases n - i,
    {
        match world.entity_at(i) {
            Some(e) => {
                proof {
                    assert forall|e2: Entity|
                        old(world).spec_live(e2) && e2.index == i implies world.spec_live(e2)
                        ==> e2 == e by {}
                }
                let rec = *world.get(e).unwrap();
                match (rec.ball, rec.transform) {
                    (Some(_), Some(t)) => {
                        if t.y < WORLD_BOTTOM_TENTHS {
                            let ghost prev = *world;
                            crate::scheduler::despawn_entity(world, bridge, e);
                            proof {
                                lemma_evolves_transitive(*old(world), prev, *world);
                                crate::world::lemma_pegs_stable_transitive(
                                    *old(world),
                                    prev,
                                    *world,
                                );
                            }
                        } else {
                            if in_flight < u64::MAX {
                                in_flight = in_flight + 1;
                            }
                        }
                    },
                    _ => {},
                }
            },
            None => {},
        }
        i = i + 1;
    }

    proof {
        if in_flight > 0 {
            assert(spec_ball_in_flight(*old(world)));
        } else {
            if spec_ball_in_flight(*old(world)) {
                let e = choose|e: Entity|
                    {
                        &&& #[trigger] old(world).spec_live(e)
                        &&& old(world).spec_record(e).ball is Some
                        &&& old(world).spec_record(e).transform is Some
                        &&& old(world).spec_record(e).transform.unwrap().y
                            >= WORLD_BOTTOM_TENTHS
                    };
                assert(e.index < n);
                assert(false);
            }
        }
    }
    if in_flight == 0 {
        let ghost mid = *world;
        proof {
            // The cull pays each collected peg as the caller's world
            // did: only fallen balls left, and no peg doubles as one.
            if !level.in_shop && crate::level::spec_no_ball_peg_hybrids(*old(world)) {
                assert forall|j: int|
                    0 <= j < level.collected_pegs@.len() implies crate::level::spec_reward_of(
                    *old(world),
                    #[trigger] level.collected_pegs@[j],
                ) == crate::level::spec_reward_of(mid, level.collected_pegs@[j]) by {
                    let e = level.collected_pegs@[j];
                    if old(world).spec_live(e) {
                        if old(world).spec_record(e).peg is Some {
                            assert(world.spec_live(e));
                        }
                    } else {
                        if mid.spec_live(e) {
                            assert(old(world).spec_live(e));
                        }
                    }
                }
                crate::level::lemma_rewards_congruent(
                    *old(world),
                    mid,
                    level.collected_pegs@,
                    level.collected_pegs@.len() as int,
                );
            }
        }
        let new_gold = level.prepare_to_shoot(world, entropy);
        proof {
            lemma_evolves_transitive(*old(world), mid, *world);
            crate::world::lemma_pegs_stable_transitive(*old(world), mid, *world);
        }
        if level.fired_once {
            level.fired_once = false;
            if new_gold == 0 {
                ui.message = crate::level::Message::Sad;
            } else if new_gold > 200 {
                ui.message = crate::level::Message::Wow;
            } else if new_gold > 100 {
                ui.message = crate::level::Message::Amazing;
            } else if new_gold > 50 {
                ui.message = crate::level::Message::Great;
            } else if new_gold > 10 {
                ui.message = crate::level::Message::Nice;
            }
        }
        if ui.gold >= 1000 {
            ui.message = crate::level::Message::Win;
        }
        // Payout scaled by the shot multiplier, capped to keep the
        // counter far from its limits.
        let gain: u64 = if level.multiplier == 0 {
            0
        } else if new_gold > 1000000000 / level.multiplier {
            1000000000
        } else {
            proof {
                assert(new_gold * level.multiplier <= 1000000000) by (nonlinear_arith)
                    requires
                        level.multiplier > 0,
                        new_gold <= 1000000000u64 / level.multiplier,
                ;
            }
            new_gold * level.multiplier
        };
        proof {
            assert(gain <= 1000000000);
        }
        if ui.incoming_gold <= 1000000000000 - (gain as i64) {
            ui.incoming_gold = ui.incoming_gold + gain as i64;
        } else {
            ui.incoming_gold = 1000000000000;
        }
        level.multiplier = 1;
        level.ready_to_shoot = true;
    }
}

/// Length of one plant stem segment, in tenths of a unit.
pub const PLANT_SEGMENT_LENGTH_TENTHS: i64 = 80;

/// Spawn a stem art marker leading into `(x, y)` from the direction
/// `dir` (a direction step), then a peg of `kind` at `(x, y)`.  Used by
/// plant growth for its plant and gold segments.
pub fn spawn_stem_and_peg(
    world: &mut World,
    bridge: &mut PhysicsBridge,
    assets: &GameAssets,
    x: i64,
    y: i64,
    dir: u64,
    kind: PegKind,
) -> (r: Entity)
    requires
        old(world).wf(),
        old(world).slots@.len() + 3 <= ENTITY_CAP,
    ensures
        final(world).wf(),
        evolves(*old(world), *final(world)),
        keeps_existing(*old(world), *final(world)),
        final(world).slots@.len() <= old(world).slots@.len() + 3,
        final(world).spec_live(r),
        !old(world).spec_live(r),
        spec_peg_record(
            *assets,
            x,
            y,
            kind,
            if kind == PegKind::Gold { GOLD_PEG_SCALE_TENTHS } else { PEG_SCALE_TENTHS },
            final(world).spec_record(r).peg.unwrap().shockwave_child,
            final(world).spec_record(r),
        ),
        forall|e: Entity|
            #[trigger] final(world).spec_live(e) && !old(world).spec_live(e)
                ==> final(world).spec_record(e).pending is None
                && final(world).spec_record(e).temporary is None,
        forall|e: Entity| #[trigger] old(world).spec_killed(e) ==> final(world).spec_killed(e),
        crate::laws::spec_grow_potential(*final(world)) == crate::laws::spec_grow_potential(
            *old(world),
        ),
        // The stem art marker stands at the segment, facing along it.
        exists|st: Entity|
            {
                &&& #[trigger] final(world).spec_live(st)
                &&& !old(world).spec_live(st)
                &&& final(world).spec_record(st).material == Some(assets.stem_material)
                &&& final(world).spec_record(st).transform == Some(
                    Transform {
                        x,
                        y,
                        sx: 20,
                        sy: (PLANT_SEGMENT_LENGTH_TENTHS + PLANT_SEGMENT_LENGTH_TENTHS
                            / 10) as i64,
                        dir,
                    },
                )
                &&& final(world).spec_record(st).peg is None
            },
{
    let mut stem = Record::empty();
    stem.transform = Some(
        Transform {
            x,
            y,
            sx: 20,
            sy: PLANT_SEGMENT_LENGTH_TENTHS + PLANT_SEGMENT_LENGTH_TENTHS / 10,
            dir,
        },
    );
    stem.material = Some(assets.stem_material);
    let stem_e = world.spawn(stem);
    proof {
        crate::laws::lemma_potential_single_diff(*old(world), *world, stem_e);
    }

    let ghost mid = *world;
    let r = spawn_peg(world, bridge, assets, x, y, kind);
    proof {
        lemma_evolves_transitive(*old(world), mid, *world);
        assert(world.spec_live(stem_e) && world.spec_record(stem_e) == mid.spec_record(stem_e));
    }
    r
}

} // verus!
