//! The play session and its fixed-step loop.
//!
//! A [`Session`] owns everything exactly once: the play world, the
//! physics bridge (checked out by value around the engine step, so a
//! second live borrow while the engine runs cannot exist), the level
//! and interface state, the asset handles and the random stream.  One
//! [`fixed_update`] is one simulation tick: due scheduled actions fire,
//! the ball and contact passes run against the contacts computed by the
//! previous tick's physics step, the health reaper collects, and then
//! the engine steps.  The drawing-cadence work — cosmetic scale
//! animation, temporary expiry, the gold trickle and shake decay —
//! lives in [`draw_update`].

use vstd::prelude::*;
use crate::components::{Entity, PegKind, EffectKind};
use crate::world::{World, ENTITY_CAP, evolves, pegs_stable, lemma_evolves_transitive};
use crate::physics::{PhysicsBridge, step_physics};
use crate::level::{LevelState, UIState, GameAssets, Message, select_powerup};
use crate::entropy::Entropy;
use crate::pipeline::{run_balls, run_pegs, run_health, run_scale, spawn_ball, spawn_brick_with_powerup, spawn_peg};
use crate::scheduler::{run_delayed_actions, apply_rock_storm, create_rock_wall};
use crate::temporary::despawn_temporaries;

verus! {

/// Where shots leave from, in tenths: the top middle of the field.
pub const SHOT_ORIGIN_X_TENTHS: i64 = 0;

/// Vertical shot origin, in tenths.
pub const SHOT_ORIGIN_Y_TENTHS: i64 = 562;

/// Diameter of a freshly fired ball, in tenths.
pub const SHOT_BALL_SCALE_TENTHS: i64 = 35;

/// The damage rate the next ball leaves with, after consuming the first
/// `n` queued effects: each per-ball effect doubles it, up to a cap.
pub open spec fn spec_shot_rate(effs: Seq<EffectKind>, n: int) -> int
    decreases n,
{
    if n <= 0 {
        1
    } else {
        let p = spec_shot_rate(effs, n - 1);
        if effs[n - 1] == EffectKind::BigBall && p <= 500000 {
            2 * p
        } else {
            p
        }
    }
}

/// The diameter the next ball leaves with (tenths), after consuming the
/// first `n` queued effects.
pub open spec fn spec_shot_size(effs: Seq<EffectKind>, n: int) -> int
    decreases n,
{
    if n <= 0 {
        SHOT_BALL_SCALE_TENTHS as int
    } else {
        let p = spec_shot_size(effs, n - 1);
        if effs[n - 1] == EffectKind::BigBall && p <= 5000000 {
            2 * p
        } else {
            p
        }
    }
}

/// One whole play session, owned by the simulation loop.
pub struct Session {
    pub world: World,
    pub bridge: Option<PhysicsBridge>,
    pub level: LevelState,
    pub ui: UIState,
    pub assets: GameAssets,
    pub entropy: Entropy,
    pub gold_trickle_timer: u64,
}

impl Session {
    /// The session invariant: both worlds well-formed, the bridge
    /// checked in.
    pub open spec fn wf(&self) -> bool {
        &&& self.world.wf()
        &&& self.level.other_world.wf()
        &&& self.bridge is Some
    }
}

/// Build a fresh session: a play field scattered with starting pegs, a
/// welcoming gold spiral and the first rock wall already scheduled, and
/// a shop world stocked with powerup bricks.
pub fn new_session(assets: GameAssets, seed: u64) -> (s: Session)
    ensures
        s.wf(),
        !s.level.in_shop,
        s.level.ready_to_shoot,
        s.level.collected_pegs@.len() == 0,
        s.ui.gold == 20,
{
    let mut entropy = Entropy::new(seed);

    let mut world = World::new();
    let mut bridge = PhysicsBridge::new();

    let mut i: u64 = 0;
    while i < 2
        invariant
            world.wf(),
            i <= 2,
            world.slots@.len() <= 4 * i,
        decreases 2 - i,
    {
        let x = entropy.next_in_range(0, 1000) as i64 - 500;
        let y = entropy.next_in_range(0, 300) as i64 - 500;
        spawn_peg(&mut world, &mut bridge, &assets, x, y, PegKind::GrowablePlant);
        let x2 = entropy.next_in_range(0, 1000) as i64 - 500;
        let y2 = entropy.next_in_range(0, 600) as i64 - 500;
        spawn_peg(&mut world, &mut bridge, &assets, x2, y2, PegKind::MultiBall);
        i = i + 1;
    }
    let mut j: u64 = 0;
    while j < 2
        invariant
            world.wf(),
            j <= 2,
            world.slots@.len() <= 8 + 2 * j,
        decreases 2 - j,
    {
        let x = entropy.next_in_range(0, 1000) as i64 - 500;
        let y = entropy.next_in_range(0, 600) as i64 - 500;
        spawn_peg(&mut world, &mut bridge, &assets, x, y, PegKind::Multiplier);
        j = j + 1;
    }
    let mut k: u64 = 0;
    while k < 5
        invariant
            world.wf(),
            k <= 5,
            world.slots@.len() <= 12 + 2 * k,
        decreases 5 - k,
    {
        let x = entropy.next_in_range(0, 1000) as i64 - 500;
        let y = entropy.next_in_range(0, 600) as i64 - 500;
        spawn_peg(&mut world, &mut bridge, &assets, x, y, PegKind::Stone);
        k = k + 1;
    }
    // A welcoming ring of gold, and the first wall.
    apply_rock_storm(&mut world, &mut entropy, PegKind::Gold, 400, 0, 4, 0, -200, 600);
    create_rock_wall(&mut world);

    // The shop, stocked with offers.
    let mut shop_world = World::new();
    let mut shop_bridge = PhysicsBridge::new();
    let mut b: u64 = 0;
    while b < 3
        invariant
            shop_world.wf(),
            b <= 3,
            shop_world.slots@.len() <= 1 * b,
        decreases 3 - b,
    {
        match select_powerup(&shop_world, &mut entropy) {
            Some(p) => {
                spawn_brick_with_powerup(
                    &mut shop_world,
                    &mut shop_bridge,
                    &assets,
                    (b as i64) * 650 - 600,
                    -100,
                    p,
                );
            },
            None => {},
        }
        b = b + 1;
    }
    let mut b2: u64 = 0;
    while b2 < 2
        invariant
            shop_world.wf(),
            b2 <= 2,
            shop_world.slots@.len() <= 3 + 1 * b2,
        decreases 2 - b2,
    {
        match select_powerup(&shop_world, &mut entropy) {
            Some(p) => {
                spawn_brick_with_powerup(
                    &mut shop_world,
                    &mut shop_bridge,
                    &assets,
                    (b2 as i64) * 700 - 400,
                    -500,
                    p,
                );
            },
            None => {},
        }
        b2 = b2 + 1;
    }

    let level = LevelState::new(shop_world, shop_bridge);
    let ui = UIState::new();
    Session {
        world,
        bridge: Some(bridge),
        level,
        ui,
        assets,
        entropy,
        gold_trickle_timer: 90,
    }
}

/// Gold needed to win the session.
pub const VICTORY_GOLD: i64 = 1000;

/// Declare victory once the banked gold crosses the line: the banner
/// changes and two celebration storms are scheduled.  Fires at most
/// once per session.
pub fn check_victory(
    world: &mut World,
    level: &mut LevelState,
    ui: &mut UIState,
    entropy: &mut Entropy,
)
    requires
        old(world).wf(),
    ensures
        final(world).wf(),
        evolves(*old(world), *final(world)),
        pegs_stable(*old(world), *final(world)),
        forall|e: Entity| #[trigger] old(world).spec_killed(e) ==> final(world).spec_killed(e),
        final(level).victory == (old(level).victory || old(ui).gold >= VICTORY_GOLD),
        final(level).other_world == old(level).other_world,
        final(level).other_bridge == old(level).other_bridge,
        !(old(ui).gold >= VICTORY_GOLD && !old(level).victory) ==> *final(world) == *old(world)
            && *final(level) == *old(level) && *final(ui) == *old(ui),
{
    if !level.victory && ui.gold >= VICTORY_GOLD {
        ui.message = Message::Victory;
        level.victory = true;
        if world.len() + 60 <= ENTITY_CAP {
            apply_rock_storm(world, entropy, PegKind::MultiBall, 40, 0, 60, 0, 0, 150);
        }
        let ghost mid = *world;
        if world.len() + 40 <= ENTITY_CAP {
            apply_rock_storm(world, entropy, PegKind::Plant, 40, 0, 40, 0, 0, 600);
        }
        proof {
            lemma_evolves_transitive(*old(world), mid, *world);
            crate::world::lemma_pegs_stable_transitive(*old(world), mid, *world);
        }
    }
}

/// One fixed simulation tick, in the order the design fixes: due
/// actions fire first, then the ball and contact passes read the
/// contacts left by the previous tick's physics step, the health reaper
/// collects, the engine steps (with the bridge checked out by value),
/// and the victory line is checked.
pub fn fixed_update(s: &mut Session)
    requires
        old(s).wf(),
    ensures
        final(s).wf(),
        evolves(old(s).world, final(s).world),
        pegs_stable(old(s).world, final(s).world),
        forall|e: Entity|
            #[trigger] old(s).world.spec_killed(e) ==> final(s).world.spec_killed(e),
{
    let mut slot: Option<PhysicsBridge> = None;
    core::mem::swap(&mut slot, &mut s.bridge);
    match slot {
        Some(mut bridge) => {
            let ghost w0 = s.world;
            run_delayed_actions(&mut s.world, &mut bridge, &s.assets, &mut s.entropy);
            let ghost w1 = s.world;
            run_balls(&mut s.world, &mut bridge, &mut s.level, &mut s.ui, &mut s.entropy);
            let ghost w2 = s.world;
            run_pegs(&mut s.world, &mut bridge, &mut s.level, &s.assets);
            let ghost w3 = s.world;
            run_health(&mut s.world, &mut bridge);
            let ghost w4 = s.world;
            let bridge = step_physics(bridge, &mut s.world);
            let ghost w5 = s.world;
            check_victory(&mut s.world, &mut s.level, &mut s.ui, &mut s.entropy);
            s.bridge = Some(bridge);
            proof {
                lemma_evolves_transitive(w0, w1, w2);
                lemma_evolves_transitive(w0, w2, w3);
                lemma_evolves_transitive(w0, w3, w4);
                lemma_evolves_transitive(w0, w4, w5);
                lemma_evolves_transitive(w0, w5, s.world);
                crate::world::lemma_pegs_stable_transitive(w0, w1, w2);
                crate::world::lemma_pegs_stable_transitive(w0, w2, w3);
                crate::world::lemma_pegs_stable_transitive(w0, w3, w4);
                crate::world::lemma_pegs_stable_transitive(w0, w4, w5);
                crate::world::lemma_pegs_stable_transitive(w0, w5, s.world);
            }
        },
        None => {
            proof {
                assert(false);
            }
        },
    }
}

/// Ticks between two grains of trickling gold.
pub const TRICKLE_STEP_TICKS: u64 = 12;

/// Idle reset of the trickle timer.
pub const TRICKLE_IDLE_TICKS: u64 = 90;

/// The between-shots gold trickle: while gold is incoming, one grain
/// banks every few passes (with a small shake); idle, the timer rests.
pub fn run_gold_trickle(s: &mut Session)
    ensures
        final(s).ui.gold >= old(s).ui.gold,
        final(s).ui.incoming_gold <= old(s).ui.incoming_gold,
        final(s).world == old(s).world,
        final(s).bridge == old(s).bridge,
        final(s).level.other_world == old(s).level.other_world,
        final(s).level.other_bridge == old(s).level.other_bridge,
        old(s).ui.incoming_gold > 0 && old(s).gold_trickle_timer == 0 ==> final(s).ui.gold
            == (if old(s).ui.gold < i64::MAX {
            old(s).ui.gold + 1
        } else {
            old(s).ui.gold as int
        }) && final(s).ui.incoming_gold == old(s).ui.incoming_gold - 1 && final(s).gold_trickle_timer == TRICKLE_STEP_TICKS,
        old(s).ui.incoming_gold > 0 && old(s).gold_trickle_timer > 0 ==> *final(s) == (Session {
            gold_trickle_timer: (old(s).gold_trickle_timer - 1) as u64,
            ..*old(s)
        }),
        old(s).ui.incoming_gold <= 0 ==> *final(s) == (Session {
            gold_trickle_timer: TRICKLE_IDLE_TICKS,
            ..*old(s)
        }),
{
    if s.ui.incoming_gold > 0 {
        if s.gold_trickle_timer == 0 {
            s.ui.incoming_gold = s.ui.incoming_gold - 1;
            if s.ui.gold < i64::MAX {
                s.ui.gold = s.ui.gold + 1;
            }
            s.gold_trickle_timer = TRICKLE_STEP_TICKS;
            s.level.add_screen_shake(50);
        } else {
            s.gold_trickle_timer = s.gold_trickle_timer - 1;
        }
    } else {
        s.gold_trickle_timer = TRICKLE_IDLE_TICKS;
    }
}

/// Screen shake decays by six percent per drawing pass.
pub fn decay_screen_shake(level: &mut LevelState)
    ensures
        *final(level) == (LevelState {
            screen_shake_milli: final(level).screen_shake_milli,
            ..*old(level)
        }),
        0 <= final(level).screen_shake_milli <= crate::pipeline::SHAKE_CAP_MILLI,
        final(level).screen_shake_milli <= (if old(level).screen_shake_milli
            > crate::pipeline::SHAKE_CAP_MILLI {
            crate::pipeline::SHAKE_CAP_MILLI as int
        } else if old(level).screen_shake_milli < 0 {
            0
        } else {
            old(level).screen_shake_milli as int
        }),
{
    let s: i64 = if level.screen_shake_milli < 0 {
        0
    } else if level.screen_shake_milli > crate::pipeline::SHAKE_CAP_MILLI {
        crate::pipeline::SHAKE_CAP_MILLI
    } else {
        level.screen_shake_milli
    };
    level.screen_shake_milli = s / 100 * 94;
}

/// The drawing-cadence pass: cosmetic scale animation, temporary
/// expiry, the gold trickle and the shake decay.
pub fn draw_update(s: &mut Session)
    requires
        old(s).wf(),
    ensures
        final(s).wf(),
        evolves(old(s).world, final(s).world),
        pegs_stable(old(s).world, final(s).world),
        forall|e: Entity|
            #[trigger] old(s).world.spec_killed(e) ==> final(s).world.spec_killed(e),
{
    let ghost w0 = s.world;
    run_scale(&mut s.world);
    let ghost w1 = s.world;
    despawn_temporaries(&mut s.world);
    run_gold_trickle(s);
    decay_screen_shake(&mut s.level);
    proof {
        lemma_evolves_transitive(w0, w1, s.world);
        assert forall|e: Entity|
            w0.spec_live(e) && s.world.spec_live(e) && (#[trigger] w0.spec_record(
                e,
            )).peg is Some implies (#[trigger] s.world.spec_record(e)).peg is Some && (
        w0.spec_record(e).peg.unwrap().hit ==> s.world.spec_record(e).peg.unwrap().hit) by {
            crate::world::lemma_live_interpolation(w0, w1, s.world, e);
        }
    }
}

/// Fire one shot: allowed only when armed (or browsing the shop), and
/// only once the gold trickle has settled.  Firing costs one gold,
/// consumes every queued per-ball effect — each one doubles the ball
/// and its damage rate — and releases the ball from the shot origin
/// with the given velocity (tenths per second).
pub fn fire_shot(s: &mut Session, vx: i64, vy: i64) -> (fired: bool)
    requires
        old(s).wf(),
    ensures
        final(s).wf(),
        evolves(old(s).world, final(s).world),
        pegs_stable(old(s).world, final(s).world),
        !old(s).level.ready_to_shoot && !old(s).level.in_shop ==> !fired && *final(s) == *old(s),
        fired ==> !final(s).level.ready_to_shoot && final(s).level.fired_once,
        fired ==> exists|b: Entity|
            #[trigger] final(s).world.spec_live(b) && !old(s).world.spec_live(b) && final(s).world.spec_record(b).ball is Some,
        // When armed (or browsing), settled, and within capacity, the
        // shot happens.
        (old(s).level.ready_to_shoot || old(s).level.in_shop) && old(s).ui.incoming_gold <= 0
            && old(s).world.slots@.len() + 1 <= ENTITY_CAP ==> fired,
        // Firing costs one gold.
        fired ==> final(s).ui.gold == (if old(s).ui.gold > i64::MIN {
            old(s).ui.gold - 1
        } else {
            old(s).ui.gold as int
        }),
        // In play, the queued per-ball effects are consumed into the
        // released ball's size and damage rate.
        fired && !old(s).level.in_shop ==> {
            let effs = old(s).level.effects_to_apply_to_next_ball@;
            let sz = spec_shot_size(effs, effs.len() as int);
            let szc = if sz > crate::pipeline::MAX_BALL_SCALE_TENTHS as int {
                crate::pipeline::MAX_BALL_SCALE_TENTHS as int
            } else {
                sz
            };
            &&& final(s).level.effects_to_apply_to_next_ball@.len() == 0
            &&& exists|b: Entity|
                {
                    &&& #[trigger] final(s).world.spec_live(b)
                    &&& !old(s).world.spec_live(b)
                    &&& final(s).world.spec_record(b).ball == Some(
                        crate::components::Ball {
                            health_subtract_rate: spec_shot_rate(effs, effs.len() as int) as i64,
                        },
                    )
                    &&& final(s).world.spec_record(b).transform == Some(
                        crate::components::Transform {
                            x: SHOT_ORIGIN_X_TENTHS,
                            y: SHOT_ORIGIN_Y_TENTHS,
                            sx: szc as i64,
                            sy: szc as i64,
                            dir: 0,
                        },
                    )
                }
        },
{
    if !s.level.ready_to_shoot && !s.level.in_shop {
        return false;
    }
    s.level.ready_to_shoot = false;
    if s.ui.incoming_gold > 0 {
        return false;
    }
    s.level.fired_once = true;
    if s.ui.gold > i64::MIN {
        s.ui.gold = s.ui.gold - 1;
    }

    let mut size: i64 = SHOT_BALL_SCALE_TENTHS;
    let mut rate: i64 = 1;
    if !s.level.in_shop {
        let mut effs: Vec<EffectKind> = Vec::new();
        core::mem::swap(&mut effs, &mut s.level.effects_to_apply_to_next_ball);
        let mut i: usize = 0;
        while i < effs.len()
            invariant
                i <= effs@.len(),
                1 <= rate <= 1000000,
                0 < size <= 10000000,
                rate == spec_shot_rate(effs@, i as int),
                size == spec_shot_size(effs@, i as int),
            decreases effs@.len() - i,
        {
            match effs[i] {
                EffectKind::BigBall => {
                    if size <= 5000000 {
                        size = size * 2;
                    }
                    if rate <= 500000 {
                        rate = rate * 2;
                    }
                },
                _ => {},
            }
            i = i + 1;
        }
    }

    let mut slot: Option<PhysicsBridge> = None;
    core::mem::swap(&mut slot, &mut s.bridge);
    match slot {
        Some(mut bridge) => {
            if s.world.len() + 1 <= ENTITY_CAP {
                spawn_ball(
                    &mut s.world,
                    &mut bridge,
                    &s.assets,
                    SHOT_ORIGIN_X_TENTHS,
                    SHOT_ORIGIN_Y_TENTHS,
                    vx,
                    vy,
                    rate,
                    size,
                );
                s.bridge = Some(bridge);
                true
            } else {
                s.bridge = Some(bridge);
                false
            }
        },
        None => {
            proof {
                assert(false);
            }
            false
        },
    }
}

} // verus!
