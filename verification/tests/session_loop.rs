//! The whole session: setup, ticks, firing and the gold trickle.

use peg_drop::level::{GameAssets, PegMaterial};
use peg_drop::session::{
    draw_update, fire_shot, fixed_update, new_session, run_gold_trickle, TRICKLE_STEP_TICKS,
};

fn test_assets() -> GameAssets {
    let look = |base: u64| PegMaterial { base, glowing: base + 1, shockwave: base + 2 };
    GameAssets {
        stem_material: 1,
        growable_plant_material: look(10),
        plant_material: look(20),
        gold_material: look(30),
        stone_material: look(40),
        multiball_material: look(50),
        multiplier_material: look(60),
        brick_material: 70,
        ball_material: 71,
        plus_one: 72,
        plus_twenty: 73,
        x2: 74,
    }
}

#[test]
fn a_session_runs_many_ticks() {
    let mut s = new_session(test_assets(), 1234);
    assert_eq!(s.ui.gold, 20);
    assert!(fire_shot(&mut s, 100, -700));
    for _ in 0..240 {
        fixed_update(&mut s);
        draw_update(&mut s);
    }
    // The world is still sound and the bridge checked back in.
    assert!(s.bridge.is_some());
    assert!(s.world.len() > 0);
}

#[test]
fn firing_costs_a_gold_and_disarms() {
    let mut s = new_session(test_assets(), 77);
    let gold_before = s.ui.gold;
    assert!(fire_shot(&mut s, 50, -700));
    assert_eq!(s.ui.gold, gold_before - 1);
    assert!(!s.level.ready_to_shoot);
    assert!(s.level.fired_once);
    // A second shot is refused while the first flies.
    assert!(!fire_shot(&mut s, 50, -700));
}

#[test]
fn gold_trickles_one_grain_at_a_time() {
    let mut s = new_session(test_assets(), 5);
    s.ui.incoming_gold = 2;
    s.gold_trickle_timer = 0;
    let before = s.ui.gold;
    run_gold_trickle(&mut s);
    assert_eq!(s.ui.gold, before + 1);
    assert_eq!(s.ui.incoming_gold, 1);
    assert_eq!(s.gold_trickle_timer, TRICKLE_STEP_TICKS);
    // The next passes only count down.
    run_gold_trickle(&mut s);
    assert_eq!(s.ui.gold, before + 1);
    assert_eq!(s.gold_trickle_timer, TRICKLE_STEP_TICKS - 1);
}
