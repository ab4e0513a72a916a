//! The entity store, the identifier codec, the fixed-point helpers and
//! the random stream.

use peg_drop::components::{entity_of_tag, entity_tag, Entity, Record, Temporary, Transform};
use peg_drop::entropy::Entropy;
use peg_drop::fixmath::{cos_milli, sin_milli, smooth_step_milli, scale_milli};
use peg_drop::temporary::despawn_temporaries;
use peg_drop::world::World;

fn record_with_temporary(ticks: u64) -> Record {
    let mut r = Record::empty();
    r.temporary = Some(Temporary { ticks });
    r
}

#[test]
fn spawn_then_get_round_trips() {
    let mut w = World::new();
    let mut r = Record::empty();
    r.transform = Some(Transform { x: 7, y: -3, sx: 10, sy: 10, dir: 0 });
    let e = w.spawn(r);
    assert!(w.is_live(e));
    let back = w.get(e).unwrap();
    assert_eq!(back.transform.unwrap().x, 7);
    assert_eq!(back.transform.unwrap().y, -3);
}

#[test]
fn despawned_identifier_never_revives() {
    let mut w = World::new();
    let e = w.spawn(Record::empty());
    w.despawn(e);
    assert!(!w.is_live(e));
    // The freed slot is reused, but under a fresh generation.
    let e2 = w.spawn(Record::empty());
    assert!(w.is_live(e2));
    assert!(!w.is_live(e));
    assert_ne!(e, e2);
}

#[test]
fn stale_lookups_fail_soft() {
    let mut w = World::new();
    let e = w.spawn(Record::empty());
    w.despawn(e);
    assert!(w.get(e).is_none());
    // Despawning again is a quiet no-op.
    w.despawn(e);
    assert!(!w.is_live(e));
}

#[test]
fn temporary_expires_exactly_after_countdown() {
    // A countdown of 2 survives the passes that see 2 and 1, and is
    // despawned by the pass that sees 0.
    let mut w = World::new();
    let e = w.spawn(record_with_temporary(2));
    despawn_temporaries(&mut w);
    assert!(w.is_live(e));
    assert_eq!(w.get(e).unwrap().temporary.unwrap().ticks, 1);
    despawn_temporaries(&mut w);
    assert!(w.is_live(e));
    assert_eq!(w.get(e).unwrap().temporary.unwrap().ticks, 0);
    despawn_temporaries(&mut w);
    assert!(!w.is_live(e));
}

#[test]
fn temporary_zero_goes_on_first_pass() {
    let mut w = World::new();
    let e = w.spawn(record_with_temporary(0));
    despawn_temporaries(&mut w);
    assert!(!w.is_live(e));
}

#[test]
fn set_parent_rejects_cycles() {
    let mut w = World::new();
    let mut tr = Record::empty();
    tr.transform = Some(Transform { x: 10, y: 20, sx: 1, sy: 1, dir: 0 });
    let a = w.spawn(tr);
    let mut tr2 = Record::empty();
    tr2.transform = Some(Transform { x: 1, y: 2, sx: 1, sy: 1, dir: 0 });
    let b = w.spawn(tr2);
    assert!(w.set_parent(a, b));
    // Completing the loop must be refused, with nothing changed.
    assert!(!w.set_parent(b, a));
    assert!(w.get(a).unwrap().parent.is_none());
    // Self-parenting is a cycle too.
    assert!(!w.set_parent(a, a));
}

#[test]
fn global_position_sums_the_parent_chain() {
    let mut w = World::new();
    let mut pr = Record::empty();
    pr.transform = Some(Transform { x: 100, y: 200, sx: 1, sy: 1, dir: 0 });
    let parent = w.spawn(pr);
    let mut cr = Record::empty();
    cr.transform = Some(Transform { x: 5, y: -7, sx: 1, sy: 1, dir: 0 });
    let child = w.spawn(cr);
    assert!(w.set_parent(parent, child));
    assert_eq!(w.global_position(child), (105, 193));
    // A despawned parent leaves the child detached, not dangling.
    w.despawn(parent);
    assert_eq!(w.global_position(child), (5, -7));
}

#[test]
fn entity_tag_round_trips() {
    let e = Entity { index: 12345, generation: 67890 };
    let t = entity_tag(e);
    assert_ne!(t, 0);
    assert_eq!(entity_of_tag(t), Some(e));
    // The engine sentinel decodes to nothing.
    assert_eq!(entity_of_tag(0), None);
}

#[test]
fn entropy_is_deterministic() {
    let mut a = Entropy::new(42);
    let mut b = Entropy::new(42);
    for _ in 0..16 {
        assert_eq!(a.next_u64(), b.next_u64());
    }
    let mut c = Entropy::new(43);
    assert_ne!(a.next_u64(), c.next_u64());
}

#[test]
fn entropy_range_stays_in_range() {
    let mut a = Entropy::new(7);
    for _ in 0..100 {
        let v = a.next_in_range(3, 20);
        assert!((3..20).contains(&v));
    }
    assert_eq!(a.next_in_range(5, 5), 5);
}

#[test]
fn sine_table_hits_the_axes() {
    assert_eq!(sin_milli(0), 0);
    assert_eq!(sin_milli(16), 1000);
    assert_eq!(sin_milli(32), 0);
    assert_eq!(sin_milli(48), -1000);
    assert_eq!(cos_milli(0), 1000);
    assert_eq!(cos_milli(16), 0);
    assert_eq!(cos_milli(32), -1000);
}

#[test]
fn smooth_step_is_exact_at_the_middle() {
    assert_eq!(smooth_step_milli(0), 0);
    assert_eq!(smooth_step_milli(500), 500);
    assert_eq!(smooth_step_milli(1000), 1000);
    assert_eq!(smooth_step_milli(-5), 0);
    assert_eq!(smooth_step_milli(2000), 1000);
    // 3 t^2 - 2 t^3 at t = 0.25 is 0.15625, truncated in thousandths.
    assert_eq!(smooth_step_milli(250), 156);
}

#[test]
fn scale_milli_truncates_toward_zero() {
    assert_eq!(scale_milli(100, 500), 50);
    assert_eq!(scale_milli(-100, 500), -50);
    assert_eq!(scale_milli(3, 500), 1);
    assert_eq!(scale_milli(-3, 500), -1);
    assert_eq!(scale_milli(80, -1000), -80);
}
