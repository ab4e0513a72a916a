//! The component universe.
//!
//! An entity is nothing but an identifier; its "type" is the set of
//! components attached to it.  The universe is small and fixed, so a
//! record holds one optional slot per component kind.  All quantities are
//! plain integers: positions and scales in tenths of a play-field unit,
//! directions in sixty-fourths of a turn, health in sixtieths of a heart,
//! times in ticks.  Render materials are opaque handles (plain ids) that
//! the embedding assigns; the simulation only stores and swaps them.

use vstd::prelude::*;
use crate::physics::PhysRef;

verus! {

/// An entity identifier: a slot index plus the generation the slot had
/// when the entity was created.  A destroyed entity's identifier never
/// names a live entity again.
#[derive(Clone, Copy, PartialEq, Eq, Structural, Debug)]
pub struct Entity {
    pub index: usize,
    pub generation: u64,
}

/// The gameplay role of a peg.
#[derive(Clone, Copy, PartialEq, Eq, Structural, Debug)]
pub enum PegKind {
    GrowablePlant,
    Plant,
    Gold,
    Stone,
    MultiBall,
    Multiplier,
}

/// A peg: lights up once when first struck and stays lit.
#[derive(Clone, Copy)]
pub struct Peg {
    pub hit: bool,
    pub shockwave_child: Entity,
    pub glowing_material: u64,
    pub kind: PegKind,
}

/// Marks a peg as the root of a future plant-growth chain.
#[derive(Clone, Copy)]
pub struct PlantRoot {
    pub growth: u64,
}

/// A ball in flight.  `health_subtract_rate` is the damage dealt per tick
/// of continuous contact, in sixtieths of a heart.
#[derive(Clone, Copy)]
pub struct Ball {
    pub health_subtract_rate: i64,
}

/// A symbolic powerup effect, granted at the shop and applied later.
#[derive(Clone, Copy, PartialEq, Eq, Structural, Debug)]
pub enum EffectKind {
    BigBall,
    RockStorm,
    RocksToGold,
    SeedStorm,
    MultiBallStorm,
    MultiplierStorm,
    RockWall,
}

/// A powerup offer attached to a brick; the cost wears down by one per
/// tick of ball contact and the effect is granted when it reaches zero.
#[derive(Clone, Copy, PartialEq, Eq, Structural, Debug)]
pub struct Powerup {
    pub cost: u32,
    pub effect: EffectKind,
}

/// Remaining health in sixtieths of a heart; the entity despawns once it
/// is no longer positive.
#[derive(Clone, Copy)]
pub struct Health {
    pub remaining: i64,
}

/// A countdown-tagged transient entity: despawned on the pass that finds
/// the countdown at zero, decremented otherwise.
#[derive(Clone, Copy)]
pub struct Temporary {
    pub ticks: u64,
}

/// A deferred world mutation, carried by value so the scheduler's queue
/// is inspectable.
#[derive(Clone, Copy, PartialEq, Eq, Structural, Debug)]
pub enum ActionKind {
    /// Spawn one peg of `kind` at a position (part of a storm or wall).
    SpawnPeg { x: i64, y: i64, kind: PegKind },
    /// Despawn a previously chosen entity (rocks-to-gold, first half).
    DespawnTarget { target: Entity },
    /// Despawn a multi-ball peg and release a stationary ball there.
    ReleaseMultiBall { target: Entity, x: i64, y: i64 },
    /// Spawn a floating cosmetic marker that expires on its own.
    SpawnMarker { x: i64, y: i64, material: u64, scale: i64, lifetime: u64 },
    /// Grow one plant segment and schedule the rest of the branch.
    GrowPlant { x: i64, y: i64, dir: u64, energy: u64, gold_energy: u64, skip_stem: bool },
    /// Offer a replacement powerup brick at a position.
    ReplacePowerup { x: i64, y: i64 },
}

/// A scheduled action: fires on the pass that finds `ticks` at zero or
/// less after decrement, and the owning entity is destroyed with it.
#[derive(Clone, Copy, PartialEq, Eq, Structural, Debug)]
pub struct DelayedAction {
    pub ticks: u64,
    pub kind: ActionKind,
}

impl DelayedAction {
    /// Defer `kind` by `ticks` scheduler passes.
    pub fn new(kind: ActionKind, ticks: u64) -> (r: DelayedAction)
        ensures
            r == (DelayedAction { ticks, kind }),
    {
        DelayedAction { ticks, kind }
    }
}

/// Local placement: position and scale in tenths of a unit, facing as a
/// direction step.
#[derive(Clone, Copy)]
pub struct Transform {
    pub x: i64,
    pub y: i64,
    pub sx: i64,
    pub sy: i64,
    pub dir: u64,
}

/// Drives the smoothed scale-up visual; `t` advances by `rate` per pass,
/// clamped to `t_max`, all in thousandths of the curve domain.
#[derive(Clone, Copy)]
pub struct ScaleAnim {
    pub rate: i64,
    pub t: i64,
    pub t_max: i64,
    pub max_scale: i64,
}

/// The full component record of one entity.
#[derive(Clone, Copy)]
pub struct Record {
    pub transform: Option<Transform>,
    pub material: Option<u64>,
    pub peg: Option<Peg>,
    pub plant: Option<PlantRoot>,
    pub ball: Option<Ball>,
    pub powerup: Option<Powerup>,
    pub health: Option<Health>,
    pub temporary: Option<Temporary>,
    pub pending: Option<DelayedAction>,
    pub scale_anim: Option<ScaleAnim>,
    pub phys: Option<PhysRef>,
    pub parent: Option<Entity>,
}

impl Record {
    /// A record with no components at all.
    pub open spec fn spec_empty() -> Record {
        Record {
            transform: None,
            material: None,
            peg: None,
            plant: None,
            ball: None,
            powerup: None,
            health: None,
            temporary: None,
            pending: None,
            scale_anim: None,
            phys: None,
            parent: None,
        }
    }

    /// Start an entity record with no components.
    pub fn empty() -> (r: Record)
        ensures
            r == Record::spec_empty(),
    {
        Record {
            transform: None,
            material: None,
            peg: None,
            plant: None,
            ball: None,
            powerup: None,
            health: None,
            temporary: None,
            pending: None,
            scale_anim: None,
            phys: None,
            parent: None,
        }
    }
}

/// One past the largest value the low half of a tag can carry.
pub const TAG_SPLIT: u128 = 0x1_0000_0000_0000_0000;

/// The user-data tag that names `e` on its physics collider: generation
/// in the high half, index plus one in the low half.  Zero is never a
/// tag; it is the engine-side sentinel for "no entity".
pub open spec fn spec_entity_tag(e: Entity) -> u128 {
    ((e.generation as int) * (TAG_SPLIT as int) + (e.index as int) + 1) as u128
}

/// Encode an entity identifier as a collider user-data tag.
pub fn entity_tag(e: Entity) -> (r: u128)
    requires
        e.index < crate::world::ENTITY_CAP,
    ensures
        r == spec_entity_tag(e),
        r != 0,
{
    proof {
        assert((e.generation as int) * (TAG_SPLIT as int) + (e.index as int) + 1 <= (u64::MAX as int)
            * (TAG_SPLIT as int) + (TAG_SPLIT as int)) by (nonlinear_arith)
            requires e.generation <= u64::MAX, (e.index as int) + 1 <= TAG_SPLIT as int;
    }
    (e.generation as u128) * TAG_SPLIT + (e.index as u128) + 1
}

/// The entity a tag names, if it is a well-formed tag.
pub open spec fn spec_entity_of_tag(t: u128) -> Option<Entity> {
    if t == 0 {
        None
    } else if (t - 1) % (TAG_SPLIT as int) >= crate::world::ENTITY_CAP as int {
        None
    } else {
        Some(
            Entity {
                index: ((t - 1) % (TAG_SPLIT as int)) as usize,
                generation: ((t - 1) / (TAG_SPLIT as int)) as u64,
            },
        )
    }
}

/// Decode a collider user-data tag back to an entity identifier.  The
/// zero sentinel, and any tag whose index half is out of range, decodes
/// to `None`.
pub fn entity_of_tag(t: u128) -> (r: Option<Entity>)
    ensures
        r == spec_entity_of_tag(t),
{
    if t == 0 {
        None
    } else {
        let low = (t - 1) % TAG_SPLIT;
        let high = (t - 1) / TAG_SPLIT;
        proof {
            assert(low == ((t - 1) as int) % (TAG_SPLIT as int) && high == ((t - 1) as int) / (
            TAG_SPLIT as int) && high <= u64::MAX as int) by (nonlinear_arith)
                requires
                    low == (t - 1) as u128 % TAG_SPLIT,
                    high == (t - 1) as u128 / TAG_SPLIT,
                    t >= 1,
                    TAG_SPLIT == 0x1_0000_0000_0000_0000u128,
            ;
        }
        if low >= crate::world::ENTITY_CAP as u128 {
            None
        } else {
            Some(Entity { index: low as usize, generation: high as u64 })
        }
    }
}

/// A tag decodes back to the entity it was made from.
pub proof fn lemma_tag_roundtrip(e: Entity)
    requires
        e.index < crate::world::ENTITY_CAP,
    ensures
        spec_entity_of_tag(spec_entity_tag(e)) == Some(e),
{
    let g = e.generation as int;
    let i = e.index as int;
    let k = TAG_SPLIT as int;
    assert((g * k + i) % k == i && (g * k + i) / k == g) by (nonlinear_arith)
        requires 0 <= i < k, 0 <= g, k > 0;
}

impl EffectKind {
    /// The shop label of this effect.
    pub fn description(&self) -> String {
        match self {
            EffectKind::BigBall => "2x Size".to_string(),
            EffectKind::RockStorm => "Rock Storm".to_string(),
            EffectKind::RocksToGold => "Rocks To Gold".to_string(),
            EffectKind::SeedStorm => "Plant Seeds".to_string(),
            EffectKind::MultiBallStorm => "Multiballs!".to_string(),
            EffectKind::MultiplierStorm => "Multipliers!".to_string(),
            EffectKind::RockWall => "Rock Walls!".to_string(),
        }
    }
}

} // verus!
