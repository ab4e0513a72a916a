//! The delayed-action scheduler: firing, cancellation, the rock wall
//! and the plant-growth budget.

use peg_drop::components::{ActionKind, PegKind};
use peg_drop::entropy::Entropy;
use peg_drop::level::{GameAssets, PegMaterial};
use peg_drop::physics::PhysicsBridge;
use peg_drop::scheduler::{
    create_rock_wall, apply_rock_storm, apply_rocks_to_gold, run_delayed_actions, schedule,
};
use peg_drop::world::World;

fn test_assets() -> GameAssets {
    let look = |base: u64| PegMaterial { base, glowing: base + 1, shockwave: base + 2 };
    GameAssets {
        stem_material: 1,
        growable_plant_material: look(10),
        plant_material: look(20),
        gold_material: look(30),
        stone_material: look(40),
        multiball_material: look(50),
        multiplier_material: look(60),
        brick_material: 70,
        ball_material: 71,
        plus_one: 72,
        plus_twenty: 73,
        x2: 74,
    }
}

fn count_pending_stone_spawns(w: &World) -> (usize, u64) {
    let mut count = 0;
    let mut max_ticks = 0;
    for i in 0..w.len() {
        if let Some(e) = w.entity_at(i) {
            if let Some(p) = w.get(e).unwrap().pending {
                if let ActionKind::SpawnPeg { kind: PegKind::Stone, .. } = p.kind {
                    count += 1;
                    if p.ticks > max_ticks {
                        max_ticks = p.ticks;
                    }
                }
            }
        }
    }
    (count, max_ticks)
}

fn count_pegs_of(w: &World, kind: PegKind) -> usize {
    let mut count = 0;
    for i in 0..w.len() {
        if let Some(e) = w.entity_at(i) {
            if let Some(p) = w.get(e).unwrap().peg {
                if p.kind == kind {
                    count += 1;
                }
            }
        }
    }
    count
}

#[test]
fn action_fires_once_and_owner_is_gone() {
    let mut w = World::new();
    let mut bridge = PhysicsBridge::new();
    let mut entropy = Entropy::new(1);
    let assets = test_assets();
    let act = schedule(
        &mut w,
        2,
        ActionKind::SpawnMarker { x: 0, y: 0, material: 9, scale: 100, lifetime: 5 },
    );
    // First pass only counts down.
    let fired = run_delayed_actions(&mut w, &mut bridge, &assets, &mut entropy);
    assert_eq!(fired.len(), 0);
    assert!(w.is_live(act));
    // Second pass fires it, exactly once, and destroys the owner.
    let fired = run_delayed_actions(&mut w, &mut bridge, &assets, &mut entropy);
    assert_eq!(fired.len(), 1);
    assert_eq!(fired[0].0, act);
    assert!(!w.is_live(act));
    // The marker it spawned is there.
    let mut markers = 0;
    for i in 0..w.len() {
        if let Some(e) = w.entity_at(i) {
            let rec = *w.get(e).unwrap();
            if rec.material == Some(9) && rec.temporary.is_some() {
                markers += 1;
            }
        }
    }
    assert_eq!(markers, 1);
    // Later passes find nothing left to fire.
    let fired = run_delayed_actions(&mut w, &mut bridge, &assets, &mut entropy);
    assert_eq!(fired.len(), 0);
}

#[test]
fn rock_wall_is_sixty_pegs_across_thirty_ticks() {
    let mut w = World::new();
    let mut bridge = PhysicsBridge::new();
    let mut entropy = Entropy::new(2);
    let assets = test_assets();
    create_rock_wall(&mut w);
    let (count, max_ticks) = count_pending_stone_spawns(&w);
    assert_eq!(count, 60);
    assert_eq!(max_ticks, 30);
    // Two pegs appear per tick, thirty ticks in all.
    for tick in 0..30 {
        run_delayed_actions(&mut w, &mut bridge, &assets, &mut entropy);
        assert_eq!(count_pegs_of(&w, PegKind::Stone), 2 * (tick + 1));
    }
    let (left, _) = count_pending_stone_spawns(&w);
    assert_eq!(left, 0);
    assert_eq!(count_pegs_of(&w, PegKind::Stone), 60);
}

#[test]
fn storm_schedules_the_requested_count() {
    let mut w = World::new();
    let mut entropy = Entropy::new(3);
    apply_rock_storm(&mut w, &mut entropy, PegKind::Gold, 50, 15, 7, 0, 0, 100);
    let mut count = 0;
    for i in 0..w.len() {
        if let Some(e) = w.entity_at(i) {
            if let Some(p) = w.get(e).unwrap().pending {
                match p.kind {
                    ActionKind::SpawnPeg { kind: PegKind::Gold, .. } => count += 1,
                    _ => panic!("unexpected action in the queue"),
                }
            }
        }
    }
    assert_eq!(count, 7);
}

#[test]
fn rocks_to_gold_schedules_despawn_then_gold() {
    let mut w = World::new();
    let mut bridge = PhysicsBridge::new();
    let mut entropy = Entropy::new(4);
    let assets = test_assets();
    let rock = peg_drop::pipeline::spawn_peg(&mut w, &mut bridge, &assets, 50, 60, PegKind::Stone);
    apply_rocks_to_gold(&mut w);
    // Let every scheduled action run out.
    for _ in 0..20 {
        run_delayed_actions(&mut w, &mut bridge, &assets, &mut entropy);
    }
    assert!(!w.is_live(rock));
    assert_eq!(count_pegs_of(&w, PegKind::Stone), 0);
    assert_eq!(count_pegs_of(&w, PegKind::Gold), 1);
}

#[test]
fn plant_growth_spends_at_most_its_energy() {
    // A root with energy 5 can grow at most 5 segments, however the
    // branching draws fall.
    for seed in 0..10u64 {
        let mut w = World::new();
        let mut bridge = PhysicsBridge::new();
        let mut entropy = Entropy::new(seed);
        let assets = test_assets();
        schedule(
            &mut w,
            1,
            ActionKind::GrowPlant {
                x: 0,
                y: 0,
                dir: 16,
                energy: 5,
                gold_energy: 1,
                skip_stem: true,
            },
        );
        for _ in 0..200 {
            run_delayed_actions(&mut w, &mut bridge, &assets, &mut entropy);
        }
        let segments =
            count_pegs_of(&w, PegKind::Plant) + count_pegs_of(&w, PegKind::Gold);
        assert!(segments <= 5, "grew {segments} segments from 5 energy");
        // Nothing is left smoldering in the queue after enough passes.
        let mut pending = 0;
        for i in 0..w.len() {
            if let Some(e) = w.entity_at(i) {
                if w.get(e).unwrap().pending.is_some() {
                    pending += 1;
                }
            }
        }
        assert_eq!(pending, 0);
    }
}

#[test]
fn cancelled_action_never_fires() {
    let mut w = World::new();
    let mut bridge = PhysicsBridge::new();
    let mut entropy = Entropy::new(5);
    let assets = test_assets();
    let act = schedule(
        &mut w,
        3,
        ActionKind::SpawnMarker { x: 0, y: 0, material: 9, scale: 100, lifetime: 5 },
    );
    // Despawning the owner before it fires cancels it.
    w.despawn(act);
    for _ in 0..5 {
        let fired = run_delayed_actions(&mut w, &mut bridge, &assets, &mut entropy);
        assert_eq!(fired.len(), 0);
    }
}
