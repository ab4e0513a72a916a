//! Contact resolution: the hit latch, powerup wear, continuous damage
//! and the multi-ball release — plus one pass through the real physics
//! engine.

use peg_drop::components::{entity_tag, ActionKind, PegKind, DelayedAction, Entity};
use peg_drop::entropy::Entropy;
use peg_drop::level::{GameAssets, LevelState, PegMaterial, UIState};
use peg_drop::physics::{step_physics, PhysicsBridge};
use peg_drop::pipeline::{
    apply_contact, run_health, run_pegs, spawn_ball, spawn_brick_with_powerup, spawn_peg,
};
use peg_drop::world::World;

fn test_assets() -> GameAssets {
    let look = |base: u64| PegMaterial { base, glowing: base + 1, shockwave: base + 2 };
    GameAssets {
        stem_material: 1,
        growable_plant_material: look(10),
        plant_material: look(20),
        gold_material: look(30),
        stone_material: look(40),
        multiball_material: look(50),
        multiplier_material: look(60),
        brick_material: 70,
        ball_material: 71,
        plus_one: 72,
        plus_twenty: 73,
        x2: 74,
    }
}

fn fresh_level() -> LevelState {
    LevelState::new(World::new(), PhysicsBridge::new())
}

fn count_balls(w: &World) -> usize {
    let mut count = 0;
    for i in 0..w.len() {
        if let Some(e) = w.entity_at(i) {
            if w.get(e).unwrap().ball.is_some() {
                count += 1;
            }
        }
    }
    count
}

#[test]
fn peg_hit_latches_and_collects_once() {
    let mut w = World::new();
    let mut bridge = PhysicsBridge::new();
    let assets = test_assets();
    let mut level = fresh_level();
    let mut deferred: Vec<DelayedAction> = Vec::new();
    let mut to_despawn: Vec<Entity> = Vec::new();

    let peg = spawn_peg(&mut w, &mut bridge, &assets, 0, 0, PegKind::Gold);
    let ball = spawn_ball(&mut w, &mut bridge, &assets, 0, 100, 0, 0, 1, 35);
    let tag = entity_tag(peg);

    apply_contact(&mut w, &mut level, &mut deferred, &mut to_despawn, &assets, ball, 1, tag);
    let rec = *w.get(peg).unwrap();
    assert!(rec.peg.unwrap().hit);
    // The render material swapped to the glowing variant.
    assert_eq!(rec.material, Some(assets.gold_material.glowing));
    assert_eq!(level.collected_pegs.len(), 1);
    assert_eq!(level.pitch_multiplier, 11);

    // A second tick of the same contact leaves the latch alone.
    apply_contact(&mut w, &mut level, &mut deferred, &mut to_despawn, &assets, ball, 1, tag);
    assert!(w.get(peg).unwrap().peg.unwrap().hit);
    assert_eq!(level.collected_pegs.len(), 1);
    assert_eq!(level.pitch_multiplier, 11);
    // But the continuous damage kept flowing: two ticks, two sixtieths.
    assert_eq!(w.get(peg).unwrap().health.unwrap().remaining, 58);
}

#[test]
fn sixty_ticks_of_contact_fell_the_peg() {
    // A ball with unit damage rate against one heart of health: gone by
    // the sixtieth tick, not before.
    let mut w = World::new();
    let mut bridge = PhysicsBridge::new();
    let assets = test_assets();
    let mut level = fresh_level();
    let mut deferred: Vec<DelayedAction> = Vec::new();
    let mut to_despawn: Vec<Entity> = Vec::new();

    let peg = spawn_peg(&mut w, &mut bridge, &assets, 0, 0, PegKind::Stone);
    let ball = spawn_ball(&mut w, &mut bridge, &assets, 0, 100, 0, 0, 1, 35);
    let tag = entity_tag(peg);

    for _ in 0..59 {
        apply_contact(&mut w, &mut level, &mut deferred, &mut to_despawn, &assets, ball, 1, tag);
        run_health(&mut w, &mut bridge);
        assert!(w.is_live(peg));
    }
    apply_contact(&mut w, &mut level, &mut deferred, &mut to_despawn, &assets, ball, 1, tag);
    run_health(&mut w, &mut bridge);
    assert!(!w.is_live(peg));
}

#[test]
fn powerup_cost_wears_to_exactly_zero() {
    let mut w = World::new();
    let mut bridge = PhysicsBridge::new();
    let assets = test_assets();
    let mut level = fresh_level();
    let mut deferred: Vec<DelayedAction> = Vec::new();
    let mut to_despawn: Vec<Entity> = Vec::new();

    let brick = spawn_brick_with_powerup(
        &mut w,
        &mut bridge,
        &assets,
        0,
        0,
        peg_drop::level::catalog(6),
    );
    assert_eq!(w.get(brick).unwrap().powerup.unwrap().cost, 20);
    let ball = spawn_ball(&mut w, &mut bridge, &assets, 0, 100, 0, 0, 1, 35);
    let tag = entity_tag(brick);

    let mut last_cost = 20;
    for tick in 0..20 {
        apply_contact(&mut w, &mut level, &mut deferred, &mut to_despawn, &assets, ball, 1, tag);
        let cost = w.get(brick).unwrap().powerup.unwrap().cost;
        // Monotone, one per tick, never negative.
        assert_eq!(cost, last_cost - 1);
        last_cost = cost;
        if tick < 19 {
            assert!(level.effects_to_apply_to_next_ball.is_empty());
        }
    }
    assert_eq!(last_cost, 0);
    // Acquisition fired exactly when the cost reached zero.
    assert_eq!(level.effects_to_apply_to_next_ball.len(), 1);
    assert_eq!(
        level.effects_to_apply_to_next_ball[0],
        peg_drop::components::EffectKind::RockWall
    );
    // Brick and ball are marked for destruction, and a replacement offer
    // is queued.
    assert_eq!(to_despawn.len(), 2);
    assert!(matches!(
        deferred.last().unwrap().kind,
        ActionKind::ReplacePowerup { .. }
    ));
}

#[test]
fn multiball_release_leaves_two_balls_and_no_peg() {
    let mut w = World::new();
    let mut bridge = PhysicsBridge::new();
    let mut entropy = Entropy::new(11);
    let assets = test_assets();
    let mut level = fresh_level();
    let mut deferred: Vec<DelayedAction> = Vec::new();
    let mut to_despawn: Vec<Entity> = Vec::new();

    let peg = spawn_peg(&mut w, &mut bridge, &assets, 0, -100, PegKind::MultiBall);
    let ball = spawn_ball(&mut w, &mut bridge, &assets, 0, 100, 0, 0, 1, 35);
    assert_eq!(count_balls(&w), 1);

    apply_contact(
        &mut w,
        &mut level,
        &mut deferred,
        &mut to_despawn,
        &assets,
        ball,
        1,
        entity_tag(peg),
    );
    // The release is deferred, never applied mid-pass.
    assert!(w.is_live(peg));
    assert_eq!(count_balls(&w), 1);
    for pa in deferred.drain(..) {
        peg_drop::scheduler::schedule(&mut w, pa.ticks, pa.kind);
    }
    peg_drop::scheduler::run_delayed_actions(&mut w, &mut bridge, &assets, &mut entropy);
    assert_eq!(count_balls(&w), 2);
    assert!(!w.is_live(peg));
}

#[test]
fn stale_contact_tag_is_skipped() {
    let mut w = World::new();
    let mut bridge = PhysicsBridge::new();
    let assets = test_assets();
    let mut level = fresh_level();
    let mut deferred: Vec<DelayedAction> = Vec::new();
    let mut to_despawn: Vec<Entity> = Vec::new();

    let peg = spawn_peg(&mut w, &mut bridge, &assets, 0, 0, PegKind::Gold);
    let tag = entity_tag(peg);
    let ball = spawn_ball(&mut w, &mut bridge, &assets, 0, 100, 0, 0, 1, 35);
    w.despawn(peg);

    apply_contact(&mut w, &mut level, &mut deferred, &mut to_despawn, &assets, ball, 1, tag);
    assert_eq!(level.collected_pegs.len(), 0);
    assert!(deferred.is_empty());
    apply_contact(&mut w, &mut level, &mut deferred, &mut to_despawn, &assets, ball, 1, 0);
    assert_eq!(level.collected_pegs.len(), 0);
}

#[test]
fn engine_contact_reaches_the_pipeline() {
    // A ball dropped straight onto a peg: after a few engine steps the
    // narrow phase reports the overlap and the resolution pass lights
    // the peg up.  This runs the real engine end to end.
    let mut w = World::new();
    let mut bridge = PhysicsBridge::new();
    let assets = test_assets();
    let mut level = fresh_level();

    let peg = spawn_peg(&mut w, &mut bridge, &assets, 0, 0, PegKind::Gold);
    spawn_ball(&mut w, &mut bridge, &assets, 0, 45, 0, 0, 1, 35);

    let mut hit = false;
    for _ in 0..120 {
        bridge = step_physics(bridge, &mut w);
        run_pegs(&mut w, &mut bridge, &mut level, &assets);
        if w.get(peg).unwrap().peg.unwrap().hit {
            hit = true;
            break;
        }
    }
    assert!(hit, "the falling ball never registered a contact");
    assert_eq!(level.collected_pegs.len(), 1);
    assert_eq!(level.collected_pegs[0], peg);
}

#[test]
fn physics_step_writes_positions_back() {
    // A free-falling ball must have moved down after enough steps; the
    // write-back runs through the engine wrappers.
    let mut w = World::new();
    let mut bridge = PhysicsBridge::new();
    let assets = test_assets();
    let ball = spawn_ball(&mut w, &mut bridge, &assets, 0, 500, 0, 0, 1, 35);
    for _ in 0..60 {
        bridge = step_physics(bridge, &mut w);
    }
    let y = w.get(ball).unwrap().transform.unwrap().y;
    assert!(y < 500, "gravity never moved the ball (still at {y})");
}
