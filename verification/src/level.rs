//! Session-wide shared state.
//!
//! One [`LevelState`] exists per play session.  It owns the parallel shop
//! world (and that world's physics bridge), the pegs collected by the
//! shot in flight, the effects queued for the next ball, and the small
//! counters the rest of the simulation reads.  [`UIState`] carries the
//! few fields the interface layer displays; the simulation only writes
//! them.  The powerup catalog and the bounded-retry shop selection live
//! here too.

use vstd::prelude::*;
use crate::components::{Entity, EffectKind, Powerup, ActionKind, PegKind, Record};
use crate::world::{World, ENTITY_CAP};
use crate::physics::PhysicsBridge;
use crate::entropy::{Entropy, spec_draw, spec_advance};

verus! {

/// The headline message shown between shots.
#[derive(Clone, Copy, PartialEq, Eq, Structural, Debug)]
pub enum Message {
    Welcome,
    Sad,
    Nice,
    Great,
    Amazing,
    Wow,
    Win,
    Victory,
}

impl Message {
    /// The display text of this message.
    pub fn text(&self) -> String {
        match self {
            Message::Welcome => "Welcome to the farm!".to_string(),
            Message::Sad => ":(".to_string(),
            Message::Nice => "Nice shot!".to_string(),
            Message::Great => "Great shot!".to_string(),
            Message::Amazing => "Amazing!".to_string(),
            Message::Wow => ":O :O :O!!!!".to_string(),
            Message::Win => "YOU WIN!!!".to_string(),
            Message::Victory => "You've reached 1000 and won!".to_string(),
        }
    }
}

/// The fields the interface layer displays.  The simulation writes them;
/// it never reads any layout back.
pub struct UIState {
    pub gold: i64,
    pub incoming_gold: i64,
    pub message: Message,
    pub shown_powerup_cost: i64,
}

impl UIState {
    /// The state shown when a session starts.
    pub fn new() -> (r: UIState)
        ensures
            r.gold == 20,
            r.incoming_gold == 0,
            r.message == Message::Welcome,
            r.shown_powerup_cost == 0,
    {
        UIState { gold: 20, incoming_gold: 0, message: Message::Welcome, shown_powerup_cost: 0 }
    }
}

/// The three render materials of one peg look.
#[derive(Clone, Copy)]
pub struct PegMaterial {
    pub base: u64,
    pub glowing: u64,
    pub shockwave: u64,
}

/// Opaque render-material handles, assigned by the embedding at session
/// start.  The simulation stores them on entities and swaps them; it
/// never looks inside.
#[derive(Clone, Copy)]
pub struct GameAssets {
    pub stem_material: u64,
    pub growable_plant_material: PegMaterial,
    pub plant_material: PegMaterial,
    pub gold_material: PegMaterial,
    pub stone_material: PegMaterial,
    pub multiball_material: PegMaterial,
    pub multiplier_material: PegMaterial,
    pub brick_material: u64,
    pub ball_material: u64,
    pub plus_one: u64,
    pub plus_twenty: u64,
    pub x2: u64,
}

impl GameAssets {
    /// The look of a peg of the given kind.
    pub open spec fn spec_peg_material(&self, kind: crate::components::PegKind) -> PegMaterial {
        match kind {
            crate::components::PegKind::GrowablePlant => self.growable_plant_material,
            crate::components::PegKind::Plant => self.plant_material,
            crate::components::PegKind::Gold => self.gold_material,
            crate::components::PegKind::Stone => self.stone_material,
            crate::components::PegKind::MultiBall => self.multiball_material,
            crate::components::PegKind::Multiplier => self.multiplier_material,
        }
    }

    /// Pick the materials of a peg kind.
    pub fn peg_material(&self, kind: crate::components::PegKind) -> (r: PegMaterial)
        ensures
            r == self.spec_peg_material(kind),
    {
        match kind {
            crate::components::PegKind::GrowablePlant => self.growable_plant_material,
            crate::components::PegKind::Plant => self.plant_material,
            crate::components::PegKind::Gold => self.gold_material,
            crate::components::PegKind::Stone => self.stone_material,
            crate::components::PegKind::MultiBall => self.multiball_material,
            crate::components::PegKind::Multiplier => self.multiplier_material,
        }
    }
}

/// Pitch multiplier at rest, in tenths.
pub const PITCH_START_TENTHS: u64 = 10;

/// Largest pitch multiplier, in tenths.
pub const PITCH_MAX_TENTHS: u64 = 100;

/// The per-session shared state.
pub struct LevelState {
    pub pitch_multiplier: u64,
    pub aiming: bool,
    pub ready_to_shoot: bool,
    pub collected_pegs: Vec<Entity>,
    pub other_world: World,
    pub other_bridge: PhysicsBridge,
    pub in_shop: bool,
    pub screen_shake_milli: i64,
    pub effects_to_apply_to_next_ball: Vec<EffectKind>,
    pub victory: bool,
    pub fired_once: bool,
    pub multiplier: u64,
}

impl LevelState {
    /// Fresh session state around the parallel shop world.
    pub fn new(other_world: World, other_bridge: PhysicsBridge) -> (r: LevelState)
        ensures
            r.pitch_multiplier == PITCH_START_TENTHS,
            r.aiming,
            r.ready_to_shoot,
            r.collected_pegs@.len() == 0,
            r.other_world == other_world,
            !r.in_shop,
            r.screen_shake_milli == 0,
            r.effects_to_apply_to_next_ball@.len() == 0,
            !r.victory,
            !r.fired_once,
            r.multiplier == 1,
    {
        LevelState {
            pitch_multiplier: PITCH_START_TENTHS,
            aiming: true,
            ready_to_shoot: true,
            collected_pegs: Vec::new(),
            other_world,
            other_bridge,
            in_shop: false,
            screen_shake_milli: 0,
            effects_to_apply_to_next_ball: Vec::new(),
            victory: false,
            fired_once: false,
            multiplier: 1,
        }
    }

    /// Raise the screen shake by `amount` thousandths, saturating.
    pub fn add_screen_shake(&mut self, amount: i64)
        requires
            0 <= amount <= 1000000,
        ensures
            *final(self) == (LevelState {
                screen_shake_milli: final(self).screen_shake_milli,
                ..*old(self)
            }),
            final(self).screen_shake_milli == (if old(self).screen_shake_milli + amount
                <= 1000000000 {
                old(self).screen_shake_milli + amount
            } else {
                1000000000int
            }),
    {
        if self.screen_shake_milli <= 1000000000 - amount {
            self.screen_shake_milli = self.screen_shake_milli + amount;
        } else {
            self.screen_shake_milli = 1000000000;
        }
    }
}

/// Reward a collected peg pays out, read off its kind.
pub open spec fn spec_reward_of(w: World, e: Entity) -> u64 {
    if w.spec_live(e) && w.spec_record(e).peg is Some {
        match w.spec_record(e).peg.unwrap().kind {
            crate::components::PegKind::Gold => 20,
            crate::components::PegKind::Plant => 1,
            _ => 0,
        }
    } else {
        0
    }
}

/// Total reward of the first `n` collected pegs, saturating.
pub open spec fn spec_rewards(w: World, pegs: Seq<Entity>, n: int) -> u64
    decreases n,
{
    if n <= 0 {
        0
    } else {
        let prev = spec_rewards(w, pegs, n - 1);
        if prev + spec_reward_of(w, pegs[n - 1]) <= u64::MAX {
            (prev + spec_reward_of(w, pegs[n - 1])) as u64
        } else {
            u64::MAX
        }
    }
}

/// No live entity is at once a ball and a peg; every spawner keeps the
/// roles apart.
pub open spec fn spec_no_ball_peg_hybrids(w: World) -> bool {
    forall|e: Entity|
        #[trigger] w.spec_live(e) ==> !(w.spec_record(e).ball is Some && w.spec_record(
            e,
        ).peg is Some)
}

/// Two worlds that pay each listed peg alike pay the same total.
pub proof fn lemma_rewards_congruent(w1: World, w2: World, pegs: Seq<Entity>, n: int)
    requires
        forall|j: int|
            0 <= j < n ==> spec_reward_of(w1, #[trigger] pegs[j]) == spec_reward_of(
                w2,
                pegs[j],
            ),
    ensures
        spec_rewards(w1, pegs, n) == spec_rewards(w2, pegs, n),
    decreases n,
{
    if n > 0 {
        lemma_rewards_congruent(w1, w2, pegs, n - 1);
    }
}

/// Upper bound on the starting energy of a plant-growth root.
pub const GROW_ROOT_ENERGY_MAX: u64 = 20;

/// Gold budget handed to every plant-growth root.
pub const GROW_ROOT_GOLD: u64 = 3;

impl LevelState {
    /// End the shot in flight: pay out the collected pegs, mark each
    /// for expiry, and plant a growth root under every collected peg
    /// that carries one.  Hands back the gold earned.  In the shop this
    /// does nothing.
    pub fn prepare_to_shoot(&mut self, world: &mut World, entropy: &mut Entropy) -> (r: u64)
        requires
            old(world).wf(),
        ensures
            final(world).wf(),
            crate::world::evolves(*old(world), *final(world)),
            crate::world::pegs_stable(*old(world), *final(world)),
            forall|e: Entity|
                #[trigger] old(world).spec_killed(e) ==> final(world).spec_killed(e),
            forall|e: Entity|
                #[trigger] old(world).spec_live(e) ==> final(world).spec_live(e),
            old(self).in_shop ==> r == 0 && *final(self) == *old(self) && *final(world) == *old(world),
            !old(self).in_shop ==> {
                &&& r == spec_rewards(
                    *old(world),
                    old(self).collected_pegs@,
                    old(self).collected_pegs@.len() as int,
                )
                &&& final(self).collected_pegs@.len() == 0
                &&& final(self).ready_to_shoot
                &&& final(self).pitch_multiplier == PITCH_START_TENTHS
                &&& *final(self) == (LevelState {
                    pitch_multiplier: final(self).pitch_multiplier,
                    ready_to_shoot: final(self).ready_to_shoot,
                    collected_pegs: final(self).collected_pegs,
                    ..*old(self)
                })
            },
            forall|e: Entity|
                #[trigger] final(world).spec_live(e) && !old(world).spec_live(e) ==> {
                    let p = final(world).spec_record(e).pending;
                    &&& p is Some
                    &&& final(world).spec_record(e) == crate::scheduler::spec_action_record(
                        p.unwrap().ticks,
                        p.unwrap().kind,
                    )
                    &&& p.unwrap().ticks >= 1
                    &&& p.unwrap().kind matches ActionKind::GrowPlant { energy, .. } && energy
                        >= 1
                },
            // Every live collected peg is marked for staggered expiry,
            // its record otherwise untouched.
            !old(self).in_shop ==> forall|j: int|
                0 <= j < old(self).collected_pegs@.len() ==> {
                    let e = #[trigger] old(self).collected_pegs@[j];
                    old(world).spec_live(e) ==> final(world).spec_live(e) && final(world).spec_record(e).temporary is Some && final(world).spec_record(
                        e,
                    ).temporary.unwrap().ticks >= 5 && final(world).spec_record(e) == (Record {
                        temporary: final(world).spec_record(e).temporary,
                        ..old(world).spec_record(e)
                    })
                },
    {
        if self.in_shop {
            return 0;
        }
        self.ready_to_shoot = true;
        self.pitch_multiplier = PITCH_START_TENTHS;

        let total = self.collected_pegs.len();
        let mut new_gold: u64 = 0;
        let mut time_offset: u64 = 5;
        let mut roots: Vec<(i64, i64)> = Vec::new();
        let mut i: usize = 0;
        while i < total
            invariant
                world.wf(),
                i <= total,
                total == self.collected_pegs@.len(),
                self.collected_pegs@ == old(self).collected_pegs@,
                crate::world::evolves(*old(world), *world),
                forall|e: Entity|
                    #[trigger] old(world).spec_killed(e) ==> world.spec_killed(e),
                forall|e: Entity| world.spec_live(e) <==> old(world).spec_live(e),
                forall|e: Entity|
                    #[trigger] old(world).spec_live(e) ==> (#[trigger] world.spec_record(
                        e,
                    )) == (Record {
                        temporary: world.spec_record(e).temporary,
                        ..old(world).spec_record(e)
                    }),
                forall|j2: int|
                    0 <= j2 < i ==> {
                        let e = #[trigger] old(self).collected_pegs@[j2];
                        old(world).spec_live(e) ==> world.spec_record(e).temporary is Some
                            && world.spec_record(e).temporary.unwrap().ticks >= 5
                    },
                new_gold == spec_rewards(*old(world), old(self).collected_pegs@, i as int),
                time_offset >= 5,
            decreases total - i,
        {
            let e = self.collected_pegs[i];
            proof {
                assert(spec_reward_of(*world, e) == spec_reward_of(*old(world), e));
            }
            if world.is_live(e) {
                let rec = *world.get(e).unwrap();
                match rec.peg {
                    Some(p) => {
                        let reward: u64 = match p.kind {
                            crate::components::PegKind::Gold => 20,
                            crate::components::PegKind::Plant => 1,
                            _ => 0,
                        };
                        if new_gold <= u64::MAX - reward {
                            new_gold = new_gold + reward;
                        } else {
                            new_gold = u64::MAX;
                        }
                    },
                    None => {},
                }
                // Mark the collected peg for expiry, staggered so the
                // payout reads as a cascade.
                let ghost prev = *world;
                let mut r2 = rec;
                r2.temporary = Some(crate::components::Temporary { ticks: time_offset });
                world.replace(e, r2);
                proof {
                    crate::world::lemma_evolves_transitive(*old(world), prev, *world);
                }
                // Remember where a plant-tagged peg stood; its growth
                // root is planted after the pass.
                match (rec.plant, rec.transform) {
                    (Some(_), Some(t)) => {
                        roots.push((t.x, t.y));
                    },
                    _ => {},
                }
            }
            if total - i - 1 > 10 {
                if time_offset <= u64::MAX - 2 {
                    time_offset = time_offset + 2;
                }
            } else {
                if time_offset <= u64::MAX - 4 {
                    time_offset = time_offset + 4;
                }
            }
            i = i + 1;
        }

        // Plant one growth root under each remembered position.
        let ghost marked = *world;
        let mut j: usize = 0;
        while j < roots.len()
            invariant
                world.wf(),
                j <= roots@.len(),
                crate::world::evolves(marked, *world),
                crate::world::keeps_existing(marked, *world),
                forall|e: Entity| #[trigger] marked.spec_killed(e) ==> world.spec_killed(e),
                forall|e: Entity|
                    #[trigger] world.spec_live(e) && !marked.spec_live(e) ==> {
                        let p = world.spec_record(e).pending;
                        &&& p is Some
                        &&& world.spec_record(e) == crate::scheduler::spec_action_record(
                            p.unwrap().ticks,
                            p.unwrap().kind,
                        )
                        &&& p.unwrap().ticks >= 1
                        &&& p.unwrap().kind matches ActionKind::GrowPlant { energy, .. }
                            && energy >= 1
                    },
            decreases roots@.len() - j,
        {
            let (rx, ry) = roots[j];
            if world.len() < crate::world::ENTITY_CAP {
                let dir = entropy.next_in_range(0, 33);
                let energy = entropy.next_in_range(3, GROW_ROOT_ENERGY_MAX);
                let ghost prev = *world;
                crate::scheduler::schedule(
                    world,
                    1,
                    ActionKind::GrowPlant {
                        x: rx,
                        y: ry,
                        dir,
                        energy,
                        gold_energy: GROW_ROOT_GOLD,
                        skip_stem: true,
                    },
                );
                proof {
                    crate::world::lemma_evolves_transitive(marked, prev, *world);
                }
            }
            j = j + 1;
        }
        proof {
            crate::world::lemma_evolves_transitive(*old(world), marked, *world);
            assert forall|j: int| 0 <= j < old(self).collected_pegs@.len() implies {
                let e = #[trigger] old(self).collected_pegs@[j];
                old(world).spec_live(e) ==> world.spec_live(e) && world.spec_record(
                    e,
                ).temporary is Some && world.spec_record(e).temporary.unwrap().ticks >= 5
                    && world.spec_record(e) == (Record {
                    temporary: world.spec_record(e).temporary,
                    ..old(world).spec_record(e)
                })
            } by {
                let e = old(self).collected_pegs@[j];
                if old(world).spec_live(e) {
                    assert(marked.spec_live(e));
                    assert(world.spec_live(e) && world.spec_record(e) == marked.spec_record(e));
                }
            }
        }
        self.collected_pegs = Vec::new();
        new_gold
    }
}

/// Worst-case entity-store size after applying the first `i` queued
/// effects to a world of `n` slots: a rocks-to-gold pass can triple the
/// store, anything else adds at most sixty slots.
pub open spec fn spec_room_after(n: int, effs: Seq<EffectKind>, i: int) -> int
    decreases i,
{
    if i <= 0 {
        n
    } else {
        let p = spec_room_after(n, effs, i - 1);
        if effs[i - 1] == EffectKind::RocksToGold {
            3 * p + 2
        } else {
            p + 60
        }
    }
}

/// The worst-case size never shrinks as more effects are accounted.
pub proof fn lemma_room_after_grows(n: int, effs: Seq<EffectKind>, i: int, j: int)
    requires
        0 <= n,
        0 <= i <= j,
    ensures
        n <= spec_room_after(n, effs, i) <= spec_room_after(n, effs, j),
    decreases j,
{
    if j > 0 {
        if i == j {
            lemma_room_after_grows(n, effs, i - 1, i - 1);
        } else {
            lemma_room_after_grows(n, effs, i, j - 1);
        }
    }
}

/// What leaving the shop owes for one dequeued effect: the wall or
/// storm stands scheduled, every stone peg has its gold-swap pair, and
/// a per-ball effect owes nothing here.
pub open spec fn spec_effect_applied(post: World, base: World, eff: EffectKind) -> bool {
    match eff {
        EffectKind::BigBall => true,
        EffectKind::RockWall => crate::scheduler::spec_wall_scheduled(post, base),
        EffectKind::RockStorm => crate::scheduler::spec_storm_scheduled(
            post,
            base,
            PegKind::Stone,
            20,
            20,
        ),
        EffectKind::SeedStorm => crate::scheduler::spec_storm_scheduled(
            post,
            base,
            PegKind::GrowablePlant,
            2,
            2,
        ),
        EffectKind::MultiplierStorm => crate::scheduler::spec_storm_scheduled(
            post,
            base,
            PegKind::Multiplier,
            2,
            2,
        ),
        EffectKind::MultiBallStorm => crate::scheduler::spec_storm_scheduled(
            post,
            base,
            PegKind::MultiBall,
            3,
            9,
        ),
        EffectKind::RocksToGold => forall|e: Entity|
            base.spec_live(e) && (#[trigger] base.spec_record(e)).peg is Some
                && base.spec_record(e).peg.unwrap().kind == PegKind::Stone && base.spec_record(
                e,
            ).transform is Some ==> crate::scheduler::spec_has_gold_swap_pair(
                post,
                base,
                e,
                base.spec_record(e).transform.unwrap().x,
                base.spec_record(e).transform.unwrap().y,
            ),
    }
}

/// An applied effect stays applied through any further additions.
pub proof fn lemma_effect_applied_persists(w1: World, w2: World, base: World, eff: EffectKind)
    requires
        crate::world::keeps_existing(w1, w2),
        spec_effect_applied(w1, base, eff),
    ensures
        spec_effect_applied(w2, base, eff),
{
    match eff {
        EffectKind::BigBall => {},
        EffectKind::RockWall => {
            crate::scheduler::lemma_wall_persists(w1, w2, base);
        },
        EffectKind::RockStorm => {
            crate::scheduler::lemma_storm_persists(w1, w2, base, PegKind::Stone, 20, 20);
        },
        EffectKind::SeedStorm => {
            crate::scheduler::lemma_storm_persists(w1, w2, base, PegKind::GrowablePlant, 2, 2);
        },
        EffectKind::MultiplierStorm => {
            crate::scheduler::lemma_storm_persists(w1, w2, base, PegKind::Multiplier, 2, 2);
        },
        EffectKind::MultiBallStorm => {
            crate::scheduler::lemma_storm_persists(w1, w2, base, PegKind::MultiBall, 3, 9);
        },
        EffectKind::RocksToGold => {
            assert forall|e: Entity|
                base.spec_live(e) && (#[trigger] base.spec_record(e)).peg is Some
                    && base.spec_record(e).peg.unwrap().kind == PegKind::Stone
                    && base.spec_record(e).transform is Some implies crate::scheduler::spec_has_gold_swap_pair(
                w2,
                base,
                e,
                base.spec_record(e).transform.unwrap().x,
                base.spec_record(e).transform.unwrap().y,
            ) by {
                crate::scheduler::lemma_gold_pairs_persist(
                    w1,
                    w2,
                    base,
                    e,
                    base.spec_record(e).transform.unwrap().x,
                    base.spec_record(e).transform.unwrap().y,
                );
            }
        },
    }
}

/// The prefix of `s` up to `n`, keeping only the effects that are
/// consumed at the next shot rather than applied on leaving the shop.
pub open spec fn spec_keep_big_ball(s: Seq<EffectKind>, n: int) -> Seq<EffectKind>
    decreases n,
{
    if n <= 0 {
        Seq::empty()
    } else {
        let p = spec_keep_big_ball(s, n - 1);
        if s[n - 1] == EffectKind::BigBall {
            p.push(s[n - 1])
        } else {
            p
        }
    }
}

impl LevelState {
    /// Toggle between play and shop: the parallel world (and its
    /// physics bridge) swaps in.  On the way back to play, every queued
    /// storm, wall and terraform effect is applied exactly once — as
    /// scheduled actions in the play world — and only the per-ball
    /// effects stay queued.
    pub fn toggle_shop(
        &mut self,
        world: &mut World,
        bridge: &mut PhysicsBridge,
        entropy: &mut Entropy,
    )
        requires
            old(world).wf(),
            old(self).other_world.wf(),
        ensures
            final(self).in_shop == !old(self).in_shop,
            final(self).other_world == *old(world),
            final(self).other_bridge == *old(bridge),
            final(world).wf(),
            *final(self) == (LevelState {
                in_shop: final(self).in_shop,
                other_world: final(self).other_world,
                other_bridge: final(self).other_bridge,
                effects_to_apply_to_next_ball: final(self).effects_to_apply_to_next_ball,
                ..*old(self)
            }),
            final(self).in_shop ==> *final(world) == old(self).other_world && final(self).effects_to_apply_to_next_ball@ == old(self).effects_to_apply_to_next_ball@,
            !final(self).in_shop ==> {
                &&& crate::world::evolves(old(self).other_world, *final(world))
                &&& crate::world::keeps_existing(old(self).other_world, *final(world))
                &&& crate::world::pegs_stable(old(self).other_world, *final(world))
                &&& forall|e: Entity|
                    #[trigger] old(self).other_world.spec_killed(e) ==> final(world).spec_killed(e)
                &&& forall|e: Entity|
                    #[trigger] final(world).spec_live(e) && !old(self).other_world.spec_live(e) ==> {
                        let p = final(world).spec_record(e).pending;
                        &&& p is Some
                        &&& final(world).spec_record(e)
                            == crate::scheduler::spec_action_record(
                            p.unwrap().ticks,
                            p.unwrap().kind,
                        )
                        &&& p.unwrap().ticks >= 1
                    }
                &&& final(self).effects_to_apply_to_next_ball@ == spec_keep_big_ball(
                    old(self).effects_to_apply_to_next_ball@,
                    old(self).effects_to_apply_to_next_ball@.len() as int,
                )
                // With only per-ball effects queued, the reinstated play
                // world is exactly the stored one.
                &&& (forall|k: int|
                    0 <= k < old(self).effects_to_apply_to_next_ball@.len() ==> old(self).effects_to_apply_to_next_ball@[k] == EffectKind::BigBall) ==> *final(world)
                    == old(self).other_world
                // Within capacity, every dequeued storm, wall and
                // terraform effect was applied: its scheduled actions
                // stand in the play world.
                &&& spec_room_after(
                    old(self).other_world.slots@.len() as int,
                    old(self).effects_to_apply_to_next_ball@,
                    old(self).effects_to_apply_to_next_ball@.len() as int,
                ) <= ENTITY_CAP as int ==> forall|k: int|
                    0 <= k < old(self).effects_to_apply_to_next_ball@.len()
                        ==> spec_effect_applied(
                        *final(world),
                        old(self).other_world,
                        #[trigger] old(self).effects_to_apply_to_next_ball@[k],
                    )
            },
    {
        self.in_shop = !self.in_shop;
        core::mem::swap(world, &mut self.other_world);
        core::mem::swap(bridge, &mut self.other_bridge);

        if !self.in_shop {
            let mut effs: Vec<EffectKind> = Vec::new();
            core::mem::swap(&mut effs, &mut self.effects_to_apply_to_next_ball);
            let ghost base = *world;
            let mut kept: Vec<EffectKind> = Vec::new();
            let n = effs.len();
            let mut i: usize = 0;
            while i < n
                invariant
                    world.wf(),
                    i <= n,
                    n == effs@.len(),
                    crate::world::evolves(base, *world),
                    crate::world::keeps_existing(base, *world),
                    forall|e: Entity| #[trigger] base.spec_killed(e) ==> world.spec_killed(e),
                    forall|e: Entity|
                        #[trigger] world.spec_live(e) && !base.spec_live(e) ==> {
                            let p = world.spec_record(e).pending;
                            &&& p is Some
                            &&& world.spec_record(e) == crate::scheduler::spec_action_record(
                                p.unwrap().ticks,
                                p.unwrap().kind,
                            )
                            &&& p.unwrap().ticks >= 1
                        },
                    kept@ == spec_keep_big_ball(effs@, i as int),
                    world.slots@.len() <= spec_room_after(
                        base.slots@.len() as int,
                        effs@,
                        i as int,
                    ),
                    (forall|k: int| 0 <= k < n ==> effs@[k] == EffectKind::BigBall) ==> *world
                        == base,
                    spec_room_after(base.slots@.len() as int, effs@, n as int)
                        <= ENTITY_CAP as int ==> forall|k: int|
                        0 <= k < i ==> spec_effect_applied(
                            *world,
                            base,
                            #[trigger] effs@[k],
                        ),
                decreases n - i,
            {
                let eff = effs[i];
                let ghost prev = *world;
                let ghost room = spec_room_after(base.slots@.len() as int, effs@, n as int)
                    <= ENTITY_CAP as int;
                proof {
                    // The store stays within the accounted worst case.
                    lemma_room_after_grows(base.slots@.len() as int, effs@, i as int, n as int);
                    lemma_room_after_grows(
                        base.slots@.len() as int,
                        effs@,
                        i as int + 1,
                        n as int,
                    );
                }
                match eff {
                    EffectKind::BigBall => {
                        kept.push(eff);
                    },
                    EffectKind::RockWall => {
                        if world.len() + 60 <= crate::world::ENTITY_CAP {
                            crate::scheduler::create_rock_wall(world);
                            proof {
                                if room {
                                    crate::scheduler::lemma_wall_call_schedules(
                                        prev,
                                        *world,
                                        base,
                                    );
                                }
                            }
                        } else {
                            proof {
                                if room {
                                    assert(false);
                                }
                            }
                        }
                    },
                    EffectKind::RockStorm => {
                        let cx = entropy.next_in_range(0, 600) as i64 - 300;
                        let cy = entropy.next_in_range(0, 700) as i64 - 400;
                        if world.len() + 20 <= crate::world::ENTITY_CAP {
                            crate::scheduler::apply_rock_storm(
                                world,
                                entropy,
                                PegKind::Stone,
                                50,
                                15,
                                20,
                                cx,
                                cy,
                                100,
                            );
                            proof {
                                if room {
                                    crate::scheduler::lemma_storm_call_schedules(
                                        prev,
                                        *world,
                                        base,
                                        PegKind::Stone,
                                        20,
                                    );
                                }
                            }
                        } else {
                            proof {
                                if room {
                                    assert(false);
                                }
                            }
                        }
                    },
                    EffectKind::MultiBallStorm => {
                        let cx = entropy.next_in_range(0, 600) as i64 - 300;
                        let cy = entropy.next_in_range(0, 700) as i64 - 400;
                        let turn = entropy.next_in_range(20, 100);
                        let rrate = entropy.next_in_range(10, 40) as i64;
                        let count = entropy.next_in_range(3, 10) as usize;
                        if world.len() + count <= crate::world::ENTITY_CAP {
                            crate::scheduler::apply_rock_storm(
                                world,
                                entropy,
                                PegKind::MultiBall,
                                turn,
                                rrate,
                                count,
                                cx,
                                cy,
                                100,
                            );
                            proof {
                                if room {
                                    crate::scheduler::lemma_storm_call_schedules(
                                        prev,
                                        *world,
                                        base,
                                        PegKind::MultiBall,
                                        count as int,
                                    );
                                    assert(spec_effect_applied(*world, base, eff));
                                }
                            }
                        } else {
                            proof {
                                if room {
                                    assert(false);
                                }
                            }
                        }
                    },
                    EffectKind::RocksToGold => {
                        proof {
                            if room {
                                assert(3 * world.slots@.len() + 2 <= ENTITY_CAP);
                            }
                        }
                        crate::scheduler::apply_rocks_to_gold(world);
                        proof {
                            if room {
                                crate::scheduler::lemma_rocks_call_schedules(
                                    prev,
                                    *world,
                                    base,
                                );
                            }
                        }
                    },
                    EffectKind::SeedStorm => {
                        let cx = entropy.next_in_range(0, 600) as i64 - 300;
                        let cy = entropy.next_in_range(0, 400) as i64 - 400;
                        if world.len() + 2 <= crate::world::ENTITY_CAP {
                            crate::scheduler::apply_rock_storm(
                                world,
                                entropy,
                                PegKind::GrowablePlant,
                                200,
                                30,
                                2,
                                cx,
                                cy,
                                100,
                            );
                            proof {
                                if room {
                                    crate::scheduler::lemma_storm_call_schedules(
                                        prev,
                                        *world,
                                        base,
                                        PegKind::GrowablePlant,
                                        2,
                                    );
                                }
                            }
                        } else {
                            proof {
                                if room {
                                    assert(false);
                                }
                            }
                        }
                    },
                    EffectKind::MultiplierStorm => {
                        let cx = entropy.next_in_range(0, 600) as i64 - 300;
                        let cy = entropy.next_in_range(0, 800) as i64 - 400;
                        if world.len() + 2 <= crate::world::ENTITY_CAP {
                            crate::scheduler::apply_rock_storm(
                                world,
                                entropy,
                                PegKind::Multiplier,
                                200,
                                30,
                                2,
                                cx,
                                cy,
                                100,
                            );
                            proof {
                                if room {
                                    crate::scheduler::lemma_storm_call_schedules(
                                        prev,
                                        *world,
                                        base,
                                        PegKind::Multiplier,
                                        2,
                                    );
                                }
                            }
                        } else {
                            proof {
                                if room {
                                    assert(false);
                                }
                            }
                        }
                    },
                }
                proof {
                    crate::world::lemma_evolves_transitive(base, prev, *world);
                    if room {
                        assert forall|k: int| 0 <= k < i + 1 implies spec_effect_applied(
                            *world,
                            base,
                            #[trigger] effs@[k],
                        ) by {
                            if k < i {
                                lemma_effect_applied_persists(prev, *world, base, effs@[k]);
                            }
                        }
                    }
                }
                i = i + 1;
            }
            self.effects_to_apply_to_next_ball = kept;
        }
    }
}

/// Number of powerup kinds in the catalog.
pub const POWERUP_COUNT: u64 = 7;

/// Attempts the shop selection makes before giving up.
pub const SELECT_RETRY_CAP: u64 = 10;

/// The fixed powerup catalog.
pub open spec fn spec_catalog(i: int) -> Powerup {
    if i == 0 {
        Powerup { cost: 10, effect: EffectKind::BigBall }
    } else if i == 1 {
        Powerup { cost: 10, effect: EffectKind::RockStorm }
    } else if i == 2 {
        Powerup { cost: 100, effect: EffectKind::RocksToGold }
    } else if i == 3 {
        Powerup { cost: 40, effect: EffectKind::SeedStorm }
    } else if i == 4 {
        Powerup { cost: 20, effect: EffectKind::MultiBallStorm }
    } else if i == 5 {
        Powerup { cost: 50, effect: EffectKind::MultiplierStorm }
    } else {
        Powerup { cost: 20, effect: EffectKind::RockWall }
    }
}

/// Read one catalog entry.
pub fn catalog(i: u64) -> (p: Powerup)
    requires
        i < POWERUP_COUNT,
    ensures
        p == spec_catalog(i as int),
{
    if i == 0 {
        Powerup { cost: 10, effect: EffectKind::BigBall }
    } else if i == 1 {
        Powerup { cost: 10, effect: EffectKind::RockStorm }
    } else if i == 2 {
        Powerup { cost: 100, effect: EffectKind::RocksToGold }
    } else if i == 3 {
        Powerup { cost: 40, effect: EffectKind::SeedStorm }
    } else if i == 4 {
        Powerup { cost: 20, effect: EffectKind::MultiBallStorm }
    } else if i == 5 {
        Powerup { cost: 50, effect: EffectKind::MultiplierStorm }
    } else {
        Powerup { cost: 20, effect: EffectKind::RockWall }
    }
}

/// Some live entity of `w` offers this effect.
pub open spec fn spec_powerup_present(w: World, eff: EffectKind) -> bool {
    exists|e: Entity|
        w.spec_live(e) && (#[trigger] w.spec_record(e)).powerup is Some && w.spec_record(
            e,
        ).powerup.unwrap().effect == eff
}

/// Scan the world for a live powerup offering `eff`.
pub fn powerup_present(w: &World, eff: EffectKind) -> (r: bool)
    ensures
        r == spec_powerup_present(*w, eff),
{
    let n = w.len();
    let mut i: usize = 0;
    while i < n
        invariant
            i <= n,
            n == w.slots@.len(),
            forall|e: Entity|
                w.spec_live(e) && (#[trigger] w.spec_record(e)).powerup is Some && w.spec_record(
                    e,
                ).powerup.unwrap().effect == eff ==> e.index >= i,
        decreases n - i,
    {
        match w.entity_at(i) {
            Some(e) => {
                let rec = w.get(e).unwrap();
                match rec.powerup {
                    Some(p) => {
                        if p.effect == eff {
                            return true;
                        }
                    },
                    None => {},
                }
            },
            None => {},
        }
        proof {
            assert forall|e: Entity|
                w.spec_live(e) && (#[trigger] w.spec_record(e)).powerup is Some && w.spec_record(
                    e,
                ).powerup.unwrap().effect == eff implies e.index >= i + 1 by {
                if e.index == i {
                    assert(w.spec_live(e));
                }
            }
        }
        i = i + 1;
    }
    false
}

/// The selection the bounded-retry draw arrives at from a given stream
/// state: draw a catalog index, keep it if its effect is absent from the
/// world, otherwise retry, giving up after `tries` draws.
pub open spec fn spec_select_loop(w: World, state: u64, tries: nat) -> Option<Powerup>
    decreases tries,
{
    if tries == 0 {
        None
    } else {
        let p = spec_catalog((spec_draw(state) % POWERUP_COUNT) as int);
        if !spec_powerup_present(w, p.effect) {
            Some(p)
        } else {
            spec_select_loop(w, spec_advance(state), (tries - 1) as nat)
        }
    }
}

/// `state` advanced `n` times.
pub open spec fn spec_advance_n(state: u64, n: nat) -> u64
    decreases n,
{
    if n == 0 {
        state
    } else {
        spec_advance_n(spec_advance(state), (n - 1) as nat)
    }
}

/// Advancing once more at the end is advancing once more at the start.
proof fn lemma_advance_n_snoc(state: u64, n: nat)
    ensures
        spec_advance_n(state, n + 1) == spec_advance(spec_advance_n(state, n)),
    decreases n,
{
    assert(spec_advance_n(state, n + 1) == spec_advance_n(spec_advance(state), n));
    if n > 0 {
        lemma_advance_n_snoc(spec_advance(state), (n - 1) as nat);
        assert(spec_advance_n(spec_advance(state), n) == spec_advance(
            spec_advance_n(spec_advance(state), (n - 1) as nat),
        ));
    }
}

/// Draw a replacement powerup for the shop: uniform draws from the
/// catalog, rejecting kinds already offered in `w`, giving up after
/// [`SELECT_RETRY_CAP`] attempts.  With every catalog kind already
/// present, all attempts are spent and no replacement is offered.
pub fn select_powerup(w: &World, entropy: &mut Entropy) -> (r: Option<Powerup>)
    ensures
        r == spec_select_loop(*w, old(entropy).state, SELECT_RETRY_CAP as nat),
        r is Some ==> !spec_powerup_present(*w, r.unwrap().effect),
        r is None ==> final(entropy).state == spec_advance_n(
            old(entropy).state,
            SELECT_RETRY_CAP as nat,
        ),
{
    let mut tries: u64 = 0;
    while tries < SELECT_RETRY_CAP
        invariant
            tries <= SELECT_RETRY_CAP,
            entropy.state == spec_advance_n(old(entropy).state, tries as nat),
            spec_select_loop(*w, old(entropy).state, SELECT_RETRY_CAP as nat) == spec_select_loop(
                *w,
                entropy.state,
                (SELECT_RETRY_CAP - tries) as nat,
            ),
        decreases SELECT_RETRY_CAP - tries,
    {
        proof {
            lemma_advance_n_snoc(old(entropy).state, tries as nat);
        }
        let idx = entropy.next_u64() % POWERUP_COUNT;
        let p = catalog(idx);
        if !powerup_present(w, p.effect) {
            return Some(p);
        }
        tries = tries + 1;
    }
    None
}

} // verus!
