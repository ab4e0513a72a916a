//! The entity-component world.
//!
//! Storage is a vector of slots; a slot carries a generation counter and,
//! while occupied, the entity's component record.  An entity identifier
//! pairs the slot index with the generation at creation time, and the
//! generation is bumped whenever a freed slot is reused, so an identifier
//! of a destroyed entity never matches a live slot again.  Every lookup
//! is fallible: gameplay code tolerates stale identifiers by skipping the
//! dependent effect, never by faulting.

use vstd::prelude::*;
use crate::components::{Entity, Record, Transform};

verus! {

/// Machine cap on the number of slots, so indices stay far from the
/// integer limits that the identifier encoding needs.
pub const ENTITY_CAP: usize = 0x1000_0000;

/// One storage slot: the current generation, and the record while an
/// entity occupies the slot.
pub struct Slot {
    pub generation: u64,
    pub rec: Option<Record>,
}

/// The entity-component store.
pub struct World {
    pub slots: Vec<Slot>,
    pub free: Vec<usize>,
}

impl World {
    /// `e` currently names a live entity.
    pub open spec fn spec_live(&self, e: Entity) -> bool {
        &&& e.index < self.slots@.len()
        &&& self.slots@[e.index as int].generation == e.generation
        &&& self.slots@[e.index as int].rec is Some
    }

    /// The component record of a live entity.
    pub open spec fn spec_record(&self, e: Entity) -> Record {
        self.slots@[e.index as int].rec.unwrap()
    }

    /// `e` named an entity this world has destroyed: its slot has moved
    /// past it.  A killed identifier can never be live again (see
    /// [`lemma_killed_stays_killed`]).
    pub open spec fn spec_killed(&self, e: Entity) -> bool {
        &&& e.index < self.slots@.len()
        &&& {
            ||| self.slots@[e.index as int].generation > e.generation
            ||| (self.slots@[e.index as int].generation == e.generation
                && self.slots@[e.index as int].rec is None)
        }
    }

    /// Structural well-formedness: the free list names empty slots below
    /// the cap, without duplicates, each still able to bump its
    /// generation on reuse.
    pub open spec fn wf(&self) -> bool {
        &&& self.slots@.len() <= ENTITY_CAP
        &&& forall|k: int| 0 <= k < self.free@.len() ==> {
            &&& (#[trigger] self.free@[k]) < self.slots@.len()
            &&& self.slots@[self.free@[k] as int].rec is None
            &&& self.slots@[self.free@[k] as int].generation < u64::MAX
        }
        &&& forall|k1: int, k2: int|
            #![trigger self.free@[k1], self.free@[k2]]
            0 <= k1 < k2 < self.free@.len() ==> self.free@[k1] != self.free@[k2]
    }

    /// Make an empty world.
    pub fn new() -> (w: World)
        ensures
            w.wf(),
            w.slots@.len() == 0,
            forall|e: Entity| !w.spec_live(e),
    {
        World { slots: Vec::new(), free: Vec::new() }
    }

    /// Number of storage slots (an upper bound on live entities).
    pub fn len(&self) -> (r: usize)
        ensures
            r == self.slots@.len(),
    {
        self.slots.len()
    }

    /// Does `e` name a live entity?
    pub fn is_live(&self, e: Entity) -> (r: bool)
        ensures
            r == self.spec_live(e),
    {
        if e.index < self.slots.len() {
            let slot = &self.slots[e.index];
            slot.generation == e.generation && slot.rec.is_some()
        } else {
            false
        }
    }

    /// The live entity occupying slot `i`, if any.
    pub fn entity_at(&self, i: usize) -> (r: Option<Entity>)
        requires
            i < self.slots@.len(),
        ensures
            match r {
                Some(e) => self.spec_live(e) && e.index == i,
                None => self.slots@[i as int].rec is None,
            },
    {
        let slot = &self.slots[i];
        if slot.rec.is_some() {
            Some(Entity { index: i, generation: slot.generation })
        } else {
            None
        }
    }

    /// Read the record of `e`; `None` for a stale identifier.
    pub fn get(&self, e: Entity) -> (r: Option<&Record>)
        ensures
            match r {
                Some(rec) => self.spec_live(e) && *rec == self.spec_record(e),
                None => !self.spec_live(e),
            },
    {
        if e.index < self.slots.len() {
            let slot = &self.slots[e.index];
            if slot.generation == e.generation {
                slot.rec.as_ref()
            } else {
                None
            }
        } else {
            None
        }
    }

    /// Overwrite the record of a live entity.
    pub fn replace(&mut self, e: Entity, rec: Record)
        requires
            old(self).wf(),
            old(self).spec_live(e),
        ensures
            final(self).wf(),
            final(self).spec_live(e),
            final(self).spec_record(e) == rec,
            final(self).slots@ == old(self).slots@.update(
                e.index as int,
                Slot { generation: e.generation, rec: Some(rec) },
            ),
            final(self).free@ == old(self).free@,
            evolves(*old(self), *final(self)),
            final(self).slots@.len() == old(self).slots@.len(),
            forall|e2: Entity|
                e2 != e ==> (final(self).spec_live(e2) <==> old(self).spec_live(e2)),
            forall|e2: Entity|
                e2 != e && old(self).spec_live(e2) ==> final(self).spec_record(e2)
                    == old(self).spec_record(e2),
            forall|e2: Entity| old(self).spec_killed(e2) ==> final(self).spec_killed(e2),
    {
        self.slots.set(e.index, Slot { generation: e.generation, rec: Some(rec) });
    }

    /// Create an entity holding `rec`.  The identifier handed back has
    /// never named a live entity of this world before.
    pub fn spawn(&mut self, rec: Record) -> (e: Entity)
        requires
            old(self).wf(),
            old(self).slots@.len() < ENTITY_CAP,
        ensures
            final(self).wf(),
            final(self).spec_live(e),
            !old(self).spec_live(e),
            !old(self).spec_killed(e),
            final(self).spec_record(e) == rec,
            evolves(*old(self), *final(self)),
            final(self).slots@.len() <= old(self).slots@.len() + 1,
            forall|e2: Entity|
                e2 != e ==> (final(self).spec_live(e2) <==> old(self).spec_live(e2)),
            forall|e2: Entity|
                e2 != e && old(self).spec_live(e2) ==> final(self).spec_record(e2)
                    == old(self).spec_record(e2),
            forall|e2: Entity| old(self).spec_killed(e2) ==> final(self).spec_killed(e2),
    {
        match self.free.pop() {
            Some(idx) => {
                let g = self.slots[idx].generation;
                self.slots.set(idx, Slot { generation: g + 1, rec: Some(rec) });
                Entity { index: idx, generation: g + 1 }
            },
            None => {
                let idx = self.slots.len();
                self.slots.push(Slot { generation: 0, rec: Some(rec) });
                Entity { index: idx, generation: 0 }
            },
        }
    }

    /// Destroy `e`.  A stale identifier is a no-op; a live one leaves
    /// its slot empty, and `e` is killed for good.
    pub fn despawn(&mut self, e: Entity)
        requires
            old(self).wf(),
        ensures
            final(self).wf(),
            !final(self).spec_live(e),
            old(self).spec_live(e) ==> final(self).spec_killed(e),
            !old(self).spec_live(e) ==> *final(self) == *old(self),
            evolves(*old(self), *final(self)),
            final(self).slots@.len() == old(self).slots@.len(),
            forall|e2: Entity|
                e2 != e ==> (final(self).spec_live(e2) <==> old(self).spec_live(e2)),
            forall|e2: Entity|
                e2 != e && old(self).spec_live(e2) ==> final(self).spec_record(e2)
                    == old(self).spec_record(e2),
            forall|e2: Entity| old(self).spec_killed(e2) ==> final(self).spec_killed(e2),
    {
        if e.index < self.slots.len() {
            let slot = &self.slots[e.index];
            if slot.generation == e.generation && slot.rec.is_some() {
                let g = slot.generation;
                self.slots.set(e.index, Slot { generation: g, rec: None });
                if g < u64::MAX - 1 {
                    self.free.push(e.index);
                }
            }
        }
    }
}

/// `post` is a possible future of `pre`: slots are never dropped, a
/// slot's generation never goes backwards, and an empty slot only fills
/// by bumping its generation.
pub open spec fn evolves(pre: World, post: World) -> bool {
    &&& post.slots@.len() >= pre.slots@.len()
    &&& forall|i: int| 0 <= i < pre.slots@.len() ==> {
        &&& (#[trigger] post.slots@[i]).generation >= pre.slots@[i].generation
        &&& (post.slots@[i].generation == pre.slots@[i].generation && pre.slots@[i].rec is None
            ==> post.slots@[i].rec is None)
    }
}

/// `target` occurs in the parent chain that starts at `from`, within
/// `fuel` upward steps; a dangling parent link ends the chain.
pub open spec fn spec_in_chain(w: World, from: Entity, target: Entity, fuel: nat) -> bool
    decreases fuel,
{
    ||| from == target
    ||| (fuel > 0 && w.spec_live(from) && w.spec_record(from).parent is Some && spec_in_chain(
        w,
        w.spec_record(from).parent.unwrap(),
        target,
        (fuel - 1) as nat,
    ))
}

/// Iterative world-position derivation: walk the parent chain upward
/// from `cur`, adding each link's local position to the accumulator,
/// stopping at a root, a dangling link, or a link with no transform —
/// or when the fuel runs out.
pub open spec fn spec_gpos_from(w: World, cur: Entity, ax: int, ay: int, fuel: nat) -> (int, int)
    decreases fuel,
{
    if !w.spec_live(cur) || w.spec_record(cur).transform is None {
        (ax, ay)
    } else {
        let t = w.spec_record(cur).transform.unwrap();
        if fuel > 0 && w.spec_record(cur).parent is Some {
            spec_gpos_from(
                w,
                w.spec_record(cur).parent.unwrap(),
                ax + t.x,
                ay + t.y,
                (fuel - 1) as nat,
            )
        } else {
            (ax + t.x, ay + t.y)
        }
    }
}

/// The world-space position of `e`: its local position composed with
/// every ancestor's along the parent chain.
pub open spec fn spec_global_pos(w: World, e: Entity) -> (int, int) {
    spec_gpos_from(w, e, 0, 0, w.slots@.len() as nat)
}

/// `v` clamped into `i64` range.
pub open spec fn spec_clamp_i64(v: int) -> i64 {
    if v < i64::MIN {
        i64::MIN
    } else if v > i64::MAX {
        i64::MAX
    } else {
        v as i64
    }
}

impl World {
    /// Derive the world-space position of `e` from the parent chain's
    /// transforms, in tenths; each coordinate clamps at the integer
    /// limits.
    pub fn global_position(&self, e: Entity) -> (r: (i64, i64))
        requires
            self.wf(),
        ensures
            r.0 == spec_clamp_i64(spec_global_pos(*self, e).0),
            r.1 == spec_clamp_i64(spec_global_pos(*self, e).1),
    {
        let mut ax: i128 = 0;
        let mut ay: i128 = 0;
        let mut cur = e;
        let mut fuel: usize = self.slots.len();
        loop
            invariant_except_break
                -((self.slots@.len() - fuel) * 0x8000_0000_0000_0000) <= ax as int <= (
                self.slots@.len() - fuel) * 0x8000_0000_0000_0000,
                -((self.slots@.len() - fuel) * 0x8000_0000_0000_0000) <= ay as int <= (
                self.slots@.len() - fuel) * 0x8000_0000_0000_0000,
                spec_global_pos(*self, e) == spec_gpos_from(
                    *self,
                    cur,
                    ax as int,
                    ay as int,
                    fuel as nat,
                ),
            invariant
                self.wf(),
                fuel <= self.slots@.len(),
            ensures
                spec_global_pos(*self, e) == (ax as int, ay as int),
            decreases fuel,
        {
            if !self.is_live(cur) {
                break ;
            }
            let rec = *self.get(cur).unwrap();
            match rec.transform {
                None => { break ; },
                Some(t) => {
                    ax = ax + t.x as i128;
                    ay = ay + t.y as i128;
                    match rec.parent {
                        Some(p) if fuel > 0 => {
                            cur = p;
                            fuel = fuel - 1;
                        },
                        _ => { break ; },
                    }
                },
            }
        }
        let rx: i64 = if ax < i64::MIN as i128 {
            i64::MIN
        } else if ax > i64::MAX as i128 {
            i64::MAX
        } else {
            ax as i64
        };
        let ry: i64 = if ay < i64::MIN as i128 {
            i64::MIN
        } else if ay > i64::MAX as i128 {
            i64::MAX
        } else {
            ay as i64
        };
        (rx, ry)
    }

    /// Make `child` a child of `parent`.  Both must be live, and a
    /// relation that would close a cycle — `child` already on `parent`'s
    /// ancestor chain — is rejected with no change.  `true` means the
    /// link was set.
    pub fn set_parent(&mut self, parent: Entity, child: Entity) -> (r: bool)
        requires
            old(self).wf(),
        ensures
            final(self).wf(),
            evolves(*old(self), *final(self)),
            final(self).slots@.len() == old(self).slots@.len(),
            r ==> old(self).spec_live(parent) && old(self).spec_live(child) && !spec_in_chain(
                *old(self),
                parent,
                child,
                old(self).slots@.len() as nat,
            ),
            r ==> final(self).spec_live(child) && final(self).spec_record(child) == (Record {
                parent: Some(parent),
                ..old(self).spec_record(child)
            }),
            r ==> forall|e2: Entity|
                e2 != child && old(self).spec_live(e2) ==> final(self).spec_live(e2) && final(self).spec_record(e2) == old(self).spec_record(e2),
            !r ==> *final(self) == *old(self),
            forall|e2: Entity| final(self).spec_live(e2) <==> old(self).spec_live(e2),
            forall|e2: Entity| old(self).spec_killed(e2) ==> final(self).spec_killed(e2),
    {
        if !self.is_live(parent) || !self.is_live(child) {
            return false;
        }
        let mut cur = parent;
        let mut fuel: usize = self.slots.len();
        loop
            invariant
                self.wf(),
                fuel <= self.slots@.len(),
                spec_in_chain(*self, parent, child, self.slots@.len() as nat) == spec_in_chain(
                    *self,
                    cur,
                    child,
                    fuel as nat,
                ),
                self.spec_live(child),
            ensures
                !spec_in_chain(*old(self), parent, child, old(self).slots@.len() as nat),
                *self == *old(self),
                self.spec_live(child),
            decreases fuel,
        {
            if cur.index == child.index && cur.generation == child.generation {
                return false;
            }
            if !self.is_live(cur) {
                break ;
            }
            let rec = *self.get(cur).unwrap();
            match rec.parent {
                Some(p) if fuel > 0 => {
                    cur = p;
                    fuel = fuel - 1;
                },
                _ => { break ; },
            }
        }
        let mut rec = *self.get(child).unwrap();
        rec.parent = Some(parent);
        self.replace(child, rec);
        true
    }
}

/// Every entity of `pre` is still present in `post`, record untouched.
pub open spec fn keeps_existing(pre: World, post: World) -> bool {
    forall|e: Entity|
        #[trigger] pre.spec_live(e) ==> post.spec_live(e) && post.spec_record(e)
            == pre.spec_record(e)
}

/// Between two worlds, no surviving peg loses its peg component and no
/// lit peg goes dark: the `hit` flag only latches.
pub open spec fn pegs_stable(pre: World, post: World) -> bool {
    forall|e: Entity|
        pre.spec_live(e) && post.spec_live(e) && (#[trigger] pre.spec_record(e)).peg is Some
            ==> (#[trigger] post.spec_record(e)).peg is Some && (pre.spec_record(
            e,
        ).peg.unwrap().hit ==> post.spec_record(e).peg.unwrap().hit)
}

/// A world is a future of itself.
pub proof fn lemma_evolves_reflexive(w: World)
    ensures
        evolves(w, w),
{
}

/// Futures compose: stepping twice is still stepping forward.
pub proof fn lemma_evolves_transitive(w1: World, w2: World, w3: World)
    requires
        evolves(w1, w2),
        evolves(w2, w3),
    ensures
        evolves(w1, w3),
{
    assert forall|i: int| 0 <= i < w1.slots@.len() implies {
        &&& (#[trigger] w3.slots@[i]).generation >= w1.slots@[i].generation
        &&& (w3.slots@[i].generation == w1.slots@[i].generation && w1.slots@[i].rec is None
            ==> w3.slots@[i].rec is None)
    } by {
        assert(w2.slots@[i].generation >= w1.slots@[i].generation);
        assert(w3.slots@[i].generation >= w2.slots@[i].generation);
    }
}

/// An entity live at both ends of a two-step evolution was live in the
/// middle: a slot can only move forward, so it cannot leave and return.
pub proof fn lemma_live_interpolation(w1: World, w2: World, w3: World, e: Entity)
    requires
        evolves(w1, w2),
        evolves(w2, w3),
        w1.spec_live(e),
        w3.spec_live(e),
    ensures
        w2.spec_live(e),
{
    assert(w2.slots@[e.index as int].generation >= w1.slots@[e.index as int].generation);
    assert(w3.slots@[e.index as int].generation >= w2.slots@[e.index as int].generation);
}

/// Peg stability composes across an intermediate world.
pub proof fn lemma_pegs_stable_transitive(w1: World, w2: World, w3: World)
    requires
        evolves(w1, w2),
        evolves(w2, w3),
        pegs_stable(w1, w2),
        pegs_stable(w2, w3),
    ensures
        pegs_stable(w1, w3),
{
    assert forall|e: Entity|
        w1.spec_live(e) && w3.spec_live(e) && (#[trigger] w1.spec_record(e)).peg is Some implies (
    #[trigger] w3.spec_record(e)).peg is Some && (w1.spec_record(e).peg.unwrap().hit
        ==> w3.spec_record(e).peg.unwrap().hit) by {
        lemma_live_interpolation(w1, w2, w3, e);
        assert(w2.spec_live(e));
        assert((w2.spec_record(e)).peg is Some && (w1.spec_record(e).peg.unwrap().hit
            ==> w2.spec_record(e).peg.unwrap().hit));
    }
}

/// Once a world has killed an identifier, every future of that world
/// still counts it killed — destroyed entities never come back.
pub proof fn lemma_killed_stays_killed(pre: World, post: World, e: Entity)
    requires
        evolves(pre, post),
        pre.spec_killed(e),
    ensures
        post.spec_killed(e),
        !post.spec_live(e),
{
    assert(post.slots@[e.index as int].generation >= pre.slots@[e.index as int].generation);
}

} // verus!
