//! The physics bridge.
//!
//! The 2D rigid-body engine (rapier2d) is a black box to the simulation:
//! it owns body and collider state, advances it one fixed step at a time,
//! and reports which collider pairs currently touch.  This module keeps
//! the engine behind a handful of trusted wrappers that exchange plain
//! integers (positions in tenths of a unit) and opaque handles.  Each
//! spawned body's collider carries the owning entity's identifier as its
//! user-data tag, so contact pairs can be resolved back to entities; a
//! zero tag is the sentinel for "no entity" (static world bounds) and is
//! ignored by gameplay.  Nothing is assumed about where bodies end up
//! after a step: the verified pipeline treats every reported position and
//! contact as one more input and states what holds of all of them.

use vstd::prelude::*;
use rapier2d::pipeline::PhysicsWorld;
use rapier2d::dynamics::{RigidBodyBuilder, RigidBodyHandle};
use rapier2d::geometry::{ColliderBuilder, ColliderHandle};
use rapier2d::math::{Real, Vector};
use crate::components::{Entity, Record};
use crate::world::World;

verus! {

#[verifier::external_type_specification]
#[verifier::external_body]
pub struct ExPhysicsWorld(PhysicsWorld);

#[verifier::external_type_specification]
#[verifier::external_body]
pub struct ExRigidBodyHandle(RigidBodyHandle);

#[verifier::external_type_specification]
#[verifier::external_body]
pub struct ExColliderHandle(ColliderHandle);

/// An entity's link to its engine body and collider.
#[derive(Clone, Copy)]
pub struct PhysRef {
    pub body: RigidBodyHandle,
    pub collider: ColliderHandle,
}

/// One contact reported by the engine, already resolved to the colliders'
/// user-data tags; `active` tells whether the shapes currently overlap.
#[derive(Clone, Copy)]
pub struct ContactTag {
    pub tag1: u128,
    pub tag2: u128,
    pub active: bool,
}

/// Bound kept on every coordinate handed to the engine, so the narrowing
/// to its scalar type stays faithful.
pub const COORD_BOUND: i64 = 30000;

/// Relies on `PhysicsWorld::new`: a fresh engine with no bodies; the
/// body replaces its default gravity with the given vector (tenths of a
/// unit per second squared, converted to the engine scalar type).
#[verifier::external_body]
fn engine_new(gx: i64, gy: i64) -> (pw: PhysicsWorld)
    requires
        -COORD_BOUND <= gx <= COORD_BOUND,
        -COORD_BOUND <= gy <= COORD_BOUND,
{
    let mut pw = PhysicsWorld::new();
    pw.gravity = Vector::new(Real::from(gx as i16), Real::from(gy as i16));
    pw
}

/// Relies on `PhysicsWorld::step`: advances the engine by one fixed
/// timestep (its default, one sixtieth of a second), moving dynamic
/// bodies and refreshing the contact graph.
#[verifier::external_body]
fn engine_step(pw: &mut PhysicsWorld) {
    pw.step();
}

/// Relies on `PhysicsWorld::insert` with `RigidBodyBuilder::dynamic` and
/// `ColliderBuilder::ball`: adds a gravity-driven ball body whose
/// collider stores `tag` as user data; restitution is given in percent
/// and converted to the engine's fraction.
#[verifier::external_body]
fn engine_insert_dynamic_ball(
    pw: &mut PhysicsWorld,
    x: i64,
    y: i64,
    vx: i64,
    vy: i64,
    radius: i64,
    restitution_percent: i64,
    tag: u128,
) -> (r: (RigidBodyHandle, ColliderHandle))
    requires
        -COORD_BOUND <= x <= COORD_BOUND,
        -COORD_BOUND <= y <= COORD_BOUND,
        -COORD_BOUND <= vx <= COORD_BOUND,
        -COORD_BOUND <= vy <= COORD_BOUND,
        0 <= radius <= COORD_BOUND,
        0 <= restitution_percent <= 100,
{
    let body = RigidBodyBuilder::dynamic()
        .translation(Vector::new(Real::from(x as i16), Real::from(y as i16)))
        .linvel(Vector::new(Real::from(vx as i16), Real::from(vy as i16)));
    let collider = ColliderBuilder::ball(Real::from(radius as i16))
        .restitution(Real::from(restitution_percent as i16) / Real::from(100i16))
        .user_data(tag);
    pw.insert(body, collider)
}

/// Relies on `PhysicsWorld::insert` with
/// `RigidBodyBuilder::kinematic_position_based` and
/// `ColliderBuilder::ball`: adds a stationary round obstacle whose
/// collider stores `tag` as user data.
#[verifier::external_body]
fn engine_insert_kinematic_ball(
    pw: &mut PhysicsWorld,
    x: i64,
    y: i64,
    radius: i64,
    restitution_percent: i64,
    tag: u128,
) -> (r: (RigidBodyHandle, ColliderHandle))
    requires
        -COORD_BOUND <= x <= COORD_BOUND,
        -COORD_BOUND <= y <= COORD_BOUND,
        0 <= radius <= COORD_BOUND,
        0 <= restitution_percent <= 100,
{
    let body = RigidBodyBuilder::kinematic_position_based()
        .translation(Vector::new(Real::from(x as i16), Real::from(y as i16)));
    let collider = ColliderBuilder::ball(Real::from(radius as i16))
        .restitution(Real::from(restitution_percent as i16) / Real::from(100i16))
        .user_data(tag);
    pw.insert(body, collider)
}

/// Relies on `PhysicsWorld::insert` with
/// `RigidBodyBuilder::kinematic_position_based` and
/// `ColliderBuilder::cuboid`: adds a stationary box obstacle (half
/// extents in tenths of a unit) whose collider stores `tag` as user data.
#[verifier::external_body]
fn engine_insert_kinematic_cuboid(
    pw: &mut PhysicsWorld,
    x: i64,
    y: i64,
    hx: i64,
    hy: i64,
    restitution_percent: i64,
    tag: u128,
) -> (r: (RigidBodyHandle, ColliderHandle))
    requires
        -COORD_BOUND <= x <= COORD_BOUND,
        -COORD_BOUND <= y <= COORD_BOUND,
        0 <= hx <= COORD_BOUND,
        0 <= hy <= COORD_BOUND,
        0 <= restitution_percent <= 100,
{
    let body = RigidBodyBuilder::kinematic_position_based()
        .translation(Vector::new(Real::from(x as i16), Real::from(y as i16)));
    let collider = ColliderBuilder::cuboid(Real::from(hx as i16), Real::from(hy as i16))
        .restitution(Real::from(restitution_percent as i16) / Real::from(100i16))
        .user_data(tag);
    pw.insert(body, collider)
}

/// Relies on `PhysicsWorld::remove_body`: removes a body and its
/// attached colliders; an already-removed handle is a no-op.
#[verifier::external_body]
fn engine_remove_body(pw: &mut PhysicsWorld, h: RigidBodyHandle) {
    let _ = pw.remove_body(h);
}

/// Relies on `RigidBodySet::get` and `RigidBody::translation`: the
/// body's current position, truncated to whole tenths of a unit, or
/// `None` for a removed handle.
#[verifier::external_body]
fn engine_body_position(pw: &PhysicsWorld, h: RigidBodyHandle) -> (r: Option<(i64, i64)>) {
    pw.bodies.get(h).map(|b| {
        let t = b.translation();
        (t.x as i64, t.y as i64)
    })
}

/// Relies on `NarrowPhase::contact_pairs_with` and
/// `ContactPair::has_any_active_contact`: every contact pair currently
/// involving the collider, each as its two collider handles plus whether
/// the shapes actually touch right now.
#[verifier::external_body]
fn engine_contact_pairs(
    pw: &PhysicsWorld,
    c: ColliderHandle,
) -> (r: Vec<(ColliderHandle, ColliderHandle, bool)>) {
    pw.narrow_phase
        .contact_pairs_with(c)
        .map(|p| (p.collider1, p.collider2, p.has_any_active_contact()))
        .collect()
}

/// Relies on `ColliderSet::get` and the `Collider::user_data` field: the
/// user-data tag stored on the collider, or `None` for a removed handle.
#[verifier::external_body]
fn engine_collider_user_data(pw: &PhysicsWorld, c: ColliderHandle) -> (r: Option<u128>) {
    pw.colliders.get(c).map(|col| col.user_data)
}

/// Downward gravity handed to the engine, in tenths of a unit per second
/// squared.
pub const GRAVITY_TENTHS: i64 = -200;

/// Restitution of every gameplay collider, in percent.
pub const RESTITUTION_PERCENT: i64 = 70;

/// The bridge owning the engine instance.
///
/// The simulation loop checks the bridge out of shared storage by value,
/// steps it, and checks it back in, so a second live borrow while the
/// engine runs is impossible by construction.  `tracked_bodies` remembers
/// which entity each inserted body belongs to, for writing positions back
/// after a step; stale entries (despawned entities) are skipped there.
pub struct PhysicsBridge {
    pub engine: PhysicsWorld,
    pub tracked_bodies: Vec<(Entity, RigidBodyHandle)>,
}

impl PhysicsBridge {
    /// A bridge around a fresh engine with the play-field gravity.
    pub fn new() -> (b: PhysicsBridge)
        ensures
            b.tracked_bodies@.len() == 0,
    {
        PhysicsBridge { engine: engine_new(0, GRAVITY_TENTHS), tracked_bodies: Vec::new() }
    }

    /// Clamp a coordinate into the range the engine wrappers accept.
    pub fn clamp_coord(v: i64) -> (r: i64)
        ensures
            -COORD_BOUND <= r <= COORD_BOUND,
            -COORD_BOUND <= v <= COORD_BOUND ==> r == v,
    {
        if v < -COORD_BOUND {
            -COORD_BOUND
        } else if v > COORD_BOUND {
            COORD_BOUND
        } else {
            v
        }
    }

    /// Add a gravity-driven ball body for `e` and remember it for
    /// position write-back.
    pub fn add_dynamic_ball(
        &mut self,
        e: Entity,
        x: i64,
        y: i64,
        vx: i64,
        vy: i64,
        radius: i64,
    ) -> (r: PhysRef)
        requires
            0 <= radius <= COORD_BOUND,
            e.index < crate::world::ENTITY_CAP,
        ensures
            final(self).tracked_bodies@.len() == old(self).tracked_bodies@.len() + 1,
    {
        let tag = crate::components::entity_tag(e);
        let (bh, ch) = engine_insert_dynamic_ball(
            &mut self.engine,
            Self::clamp_coord(x),
            Self::clamp_coord(y),
            Self::clamp_coord(vx),
            Self::clamp_coord(vy),
            radius,
            RESTITUTION_PERCENT,
            tag,
        );
        self.tracked_bodies.push((e, bh));
        PhysRef { body: bh, collider: ch }
    }

    /// Add a stationary round obstacle body for `e`.
    pub fn add_kinematic_ball(&mut self, e: Entity, x: i64, y: i64, radius: i64) -> (r: PhysRef)
        requires
            0 <= radius <= COORD_BOUND,
            e.index < crate::world::ENTITY_CAP,
    {
        let tag = crate::components::entity_tag(e);
        let (bh, ch) = engine_insert_kinematic_ball(
            &mut self.engine,
            Self::clamp_coord(x),
            Self::clamp_coord(y),
            radius,
            RESTITUTION_PERCENT,
            tag,
        );
        PhysRef { body: bh, collider: ch }
    }

    /// Add a stationary box obstacle body for `e`.
    pub fn add_kinematic_cuboid(
        &mut self,
        e: Entity,
        x: i64,
        y: i64,
        hx: i64,
        hy: i64,
    ) -> (r: PhysRef)
        requires
            0 <= hx <= COORD_BOUND,
            0 <= hy <= COORD_BOUND,
            e.index < crate::world::ENTITY_CAP,
    {
        let tag = crate::components::entity_tag(e);
        let (bh, ch) = engine_insert_kinematic_cuboid(
            &mut self.engine,
            Self::clamp_coord(x),
            Self::clamp_coord(y),
            hx,
            hy,
            RESTITUTION_PERCENT,
            tag,
        );
        PhysRef { body: bh, collider: ch }
    }

    /// Remove an entity's body (and collider) from the engine.
    pub fn remove(&mut self, phys: PhysRef) {
        engine_remove_body(&mut self.engine, phys.body);
    }

    /// The contacts currently involving `collider`, resolved to
    /// user-data tags; removed handles resolve to the zero sentinel.
    pub fn contacts_of(&self, collider: ColliderHandle) -> (r: Vec<ContactTag>) {
        let raw = engine_contact_pairs(&self.engine, collider);
        let mut out: Vec<ContactTag> = Vec::new();
        let mut i: usize = 0;
        while i < raw.len()
            decreases raw.len() - i,
        {
            let (c1, c2, active) = raw[i];
            let tag1 = match engine_collider_user_data(&self.engine, c1) {
                Some(t) => t,
                None => 0,
            };
            let tag2 = match engine_collider_user_data(&self.engine, c2) {
                Some(t) => t,
                None => 0,
            };
            out.push(ContactTag { tag1, tag2, active });
            i = i + 1;
        }
        out
    }
}

/// Step the engine one tick and write the resulting body positions back
/// onto the owning entities' transforms.  The bridge moves in and out by
/// value: while the engine steps, nothing else can hold it.  Everything
/// except transforms is untouched: entities stay as they were, and every
/// component other than the position fields keeps its value.
pub fn step_physics(bridge: PhysicsBridge, world: &mut World) -> (r: PhysicsBridge)
    requires
        old(world).wf(),
    ensures
        final(world).wf(),
        crate::world::evolves(*old(world), *final(world)),
        final(world).slots@.len() == old(world).slots@.len(),
        forall|e: Entity|
            final(world).spec_live(e) <==> old(world).spec_live(e),
        forall|e: Entity|
            old(world).spec_live(e) ==> same_but_transform(
                old(world).spec_record(e),
                final(world).spec_record(e),
            ),
        forall|e: Entity| old(world).spec_killed(e) ==> final(world).spec_killed(e),
        r.tracked_bodies@ == bridge.tracked_bodies@,
{
    let mut bridge = bridge;
    engine_step(&mut bridge.engine);
    let mut i: usize = 0;
    while i < bridge.tracked_bodies.len()
        invariant
            world.wf(),
            crate::world::evolves(*old(world), *world),
            world.slots@.len() == old(world).slots@.len(),
            forall|e: Entity| world.spec_live(e) <==> old(world).spec_live(e),
            forall|e: Entity|
                old(world).spec_live(e) ==> same_but_transform(
                    old(world).spec_record(e),
                    world.spec_record(e),
                ),
            forall|e: Entity| old(world).spec_killed(e) ==> world.spec_killed(e),
        decreases bridge.tracked_bodies.len() - i,
    {
        let (e, bh) = bridge.tracked_bodies[i];
        if world.is_live(e) {
            match engine_body_position(&bridge.engine, bh) {
                Some((px, py)) => {
                    let mut rec = *world.get(e).unwrap();
                    match rec.transform {
                        Some(t) => {
                            rec.transform = Some(
                                crate::components::Transform { x: px, y: py, ..t },
                            );
                            let ghost prev = *world;
                            world.replace(e, rec);
                            proof {
                                crate::world::lemma_evolves_transitive(*old(world), prev, *world);
                            }
                        },
                        None => {},
                    }
                },
                None => {},
            }
        }
        i = i + 1;
    }
    bridge
}

/// The two records agree on every component except possibly the
/// transform's position fields.
pub open spec fn same_but_transform(a: Record, b: Record) -> bool {
    &&& b == Record { transform: b.transform, ..a }
    &&& (a.transform is Some <==> b.transform is Some)
    &&& (a.transform is Some ==> {
        let ta = a.transform.unwrap();
        let tb = b.transform.unwrap();
        tb == crate::components::Transform { x: tb.x, y: tb.y, ..ta }
    })
}

} // verus!
