//! The shop: bounded-retry selection, the toggle state machine and the
//! end-of-shot bookkeeping.

use peg_drop::components::{ActionKind, EffectKind, PegKind};
use peg_drop::entropy::Entropy;
use peg_drop::level::{
    catalog, select_powerup, GameAssets, LevelState, Message, PegMaterial, UIState,
    POWERUP_COUNT, SELECT_RETRY_CAP,
};
use peg_drop::physics::PhysicsBridge;
use peg_drop::pipeline::{run_balls, spawn_ball, spawn_brick_with_powerup, spawn_peg};
use peg_drop::world::World;

fn test_assets() -> GameAssets {
    let look = |base: u64| PegMaterial { base, glowing: base + 1, shockwave: base + 2 };
    GameAssets {
        stem_material: 1,
        growable_plant_material: look(10),
        plant_material: look(20),
        gold_material: look(30),
        stone_material: look(40),
        multiball_material: look(50),
        multiplier_material: look(60),
        brick_material: 70,
        ball_material: 71,
        plus_one: 72,
        plus_twenty: 73,
        x2: 74,
    }
}

#[test]
fn selection_avoids_offers_already_present() {
    let mut w = World::new();
    let mut bridge = PhysicsBridge::new();
    let assets = test_assets();
    // Fill the shop with every kind but one.
    for i in 0..POWERUP_COUNT - 1 {
        spawn_brick_with_powerup(&mut w, &mut bridge, &assets, i as i64 * 100, 0, catalog(i));
    }
    let mut entropy = Entropy::new(123);
    match select_powerup(&w, &mut entropy) {
        Some(p) => assert_eq!(p.effect, catalog(POWERUP_COUNT - 1).effect),
        None => {
            // The draws may also run out without meeting the one free
            // kind; that is the bounded-retry contract.
        },
    }
}

#[test]
fn selection_gives_up_after_exactly_the_retry_cap() {
    let mut w = World::new();
    let mut bridge = PhysicsBridge::new();
    let assets = test_assets();
    for i in 0..POWERUP_COUNT {
        spawn_brick_with_powerup(&mut w, &mut bridge, &assets, i as i64 * 100, 0, catalog(i));
    }
    let seed = 999u64;
    let mut entropy = Entropy::new(seed);
    assert_eq!(select_powerup(&w, &mut entropy), None);
    // Exactly the configured number of draws was spent.
    let mut expected = Entropy::new(seed);
    for _ in 0..SELECT_RETRY_CAP {
        expected.next_u64();
    }
    assert_eq!(entropy.state, expected.state);
}

#[test]
fn toggle_swaps_worlds_and_applies_wall_on_exit() {
    let mut play = World::new();
    let mut play_bridge = PhysicsBridge::new();
    let shop = World::new();
    let shop_bridge = PhysicsBridge::new();
    let mut entropy = Entropy::new(7);
    let mut level = LevelState::new(shop, shop_bridge);
    level.effects_to_apply_to_next_ball.push(EffectKind::BigBall);
    level.effects_to_apply_to_next_ball.push(EffectKind::RockWall);

    // Into the shop: nothing applied yet.
    level.toggle_shop(&mut play, &mut play_bridge, &mut entropy);
    assert!(level.in_shop);
    assert_eq!(level.effects_to_apply_to_next_ball.len(), 2);
    assert_eq!(play.len(), 0);

    // Back to play: the wall effect turns into sixty scheduled pegs;
    // the per-ball effect stays queued.
    level.toggle_shop(&mut play, &mut play_bridge, &mut entropy);
    assert!(!level.in_shop);
    assert_eq!(level.effects_to_apply_to_next_ball.len(), 1);
    assert_eq!(level.effects_to_apply_to_next_ball[0], EffectKind::BigBall);
    let mut wall_actions = 0;
    for i in 0..play.len() {
        if let Some(e) = play.entity_at(i) {
            if let Some(p) = play.get(e).unwrap().pending {
                if matches!(p.kind, ActionKind::SpawnPeg { kind: PegKind::Stone, .. }) {
                    wall_actions += 1;
                }
            }
        }
    }
    assert_eq!(wall_actions, 60);
}

#[test]
fn shot_end_pays_out_and_rearms() {
    let mut w = World::new();
    let mut bridge = PhysicsBridge::new();
    let mut entropy = Entropy::new(8);
    let assets = test_assets();
    let mut level = LevelState::new(World::new(), PhysicsBridge::new());
    let mut ui = UIState::new();

    let gold_peg = spawn_peg(&mut w, &mut bridge, &assets, 0, 0, PegKind::Gold);
    let plant_peg = spawn_peg(&mut w, &mut bridge, &assets, 100, 0, PegKind::Plant);
    level.collected_pegs.push(gold_peg);
    level.collected_pegs.push(plant_peg);
    level.ready_to_shoot = false;
    level.fired_once = true;
    level.multiplier = 2;

    // No balls in flight: the shot ends.
    run_balls(&mut w, &mut bridge, &mut level, &mut ui, &mut entropy);
    assert!(level.ready_to_shoot);
    assert!(!level.fired_once);
    assert_eq!(level.collected_pegs.len(), 0);
    assert_eq!(level.multiplier, 1);
    // 21 gold, doubled by the multiplier, starts trickling in.
    assert_eq!(ui.incoming_gold, 42);
    assert_eq!(ui.message, Message::Nice);
    // The collected pegs are marked to expire, not destroyed here.
    assert!(w.is_live(gold_peg));
    assert!(w.get(gold_peg).unwrap().temporary.is_some());
}

#[test]
fn ball_below_the_field_is_removed() {
    let mut w = World::new();
    let mut bridge = PhysicsBridge::new();
    let mut entropy = Entropy::new(9);
    let assets = test_assets();
    let mut level = LevelState::new(World::new(), PhysicsBridge::new());
    let mut ui = UIState::new();

    let lost = spawn_ball(&mut w, &mut bridge, &assets, 0, -900, 0, 0, 1, 35);
    let flying = spawn_ball(&mut w, &mut bridge, &assets, 0, 100, 0, 0, 1, 35);
    level.ready_to_shoot = false;
    run_balls(&mut w, &mut bridge, &mut level, &mut ui, &mut entropy);
    assert!(!w.is_live(lost));
    assert!(w.is_live(flying));
    // One ball still flies, so the shot has not ended.
    assert!(!level.ready_to_shoot);
}

#[test]
fn catalog_lists_seven_distinct_offers() {
    for i in 0..POWERUP_COUNT {
        for j in 0..i {
            assert_ne!(catalog(i).effect, catalog(j).effect);
        }
        assert!(catalog(i).cost > 0);
    }
    assert_eq!(catalog(0).effect, EffectKind::BigBall);
    assert_eq!(catalog(0).cost, 10);
    assert_eq!(catalog(2).cost, 100);
}

#[test]
fn messages_have_their_texts() {
    assert_eq!(Message::Welcome.text(), "Welcome to the farm!");
    assert_eq!(Message::Sad.text(), ":(");
    assert_eq!(Message::Win.text(), "YOU WIN!!!");
    assert_eq!(Message::Victory.text(), "You've reached 1000 and won!");
    assert_eq!(EffectKind::RocksToGold.description(), "Rocks To Gold");
    assert_eq!(EffectKind::BigBall.description(), "2x Size");
}
