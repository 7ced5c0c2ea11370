//! Authoritative world-state store.
//!
//! An arena of slots indexed by entity id: ids are handed out
//! monotonically, never reused, and a removed entity leaves an empty
//! slot behind.  The store enforces no cross-entity invariant; it is
//! plain keyed storage whose only owner is the coordinator.

use vstd::prelude::*;
use crate::vec3::Vec3;

verus! {

/// What kind of simulated object an entity is.
#[derive(Clone, Copy, Debug, PartialEq, Eq, Structural)]
pub enum ObjectType {
    Actor,
    Item,
    Player,
}

/// Game metadata of one entity.
#[derive(Clone, Copy, Debug, PartialEq, Eq, Structural)]
pub struct GameObject {
    pub alive: bool,
    pub age: u32,
    pub object_id: u32,
    pub object_type: ObjectType,
    pub health: u8,
}

/// The full authoritative record of one entity: metadata plus
/// kinematic state.
#[derive(Clone, Copy, Debug, PartialEq, Eq, Structural)]
pub struct EntityState {
    pub object: GameObject,
    pub position: Vec3,
    pub velocity: Vec3,
    pub acceleration: Vec3,
}

/// An immutable copy of one entity's record, safe to hand to any
/// concurrent reader; it has no back-reference to live state.
#[derive(Clone, Copy, Debug, PartialEq, Eq, Structural)]
pub struct FrozenGameObject {
    pub object: GameObject,
    pub position: Vec3,
    pub velocity: Vec3,
    pub acceleration: Vec3,
}

impl EntityState {
    /// Copy this record into a frozen snapshot object.
    pub fn freeze(&self) -> (r: FrozenGameObject)
        ensures
            r.object == self.object,
            r.position == self.position,
            r.velocity == self.velocity,
            r.acceleration == self.acceleration,
    {
        FrozenGameObject {
            object: self.object,
            position: self.position,
            velocity: self.velocity,
            acceleration: self.acceleration,
        }
    }
}

/// Arena-indexed storage of entity records.
pub struct WorldStore {
    pub slots: Vec<Option<EntityState>>,
}

impl WorldStore {
    /// The record stored under `id`, if any.
    pub open spec fn spec_get(&self, id: u32) -> Option<EntityState> {
        if id < self.slots@.len() {
            self.slots@[id as int]
        } else {
            None
        }
    }

    /// `id` is currently occupied.
    pub open spec fn spec_contains(&self, id: u32) -> bool {
        self.spec_get(id) is Some
    }

    /// Every occupied slot records its own id, and ids fit their type.
    pub open spec fn wf(&self) -> bool {
        &&& self.slots@.len() <= u32::MAX
        &&& forall|i: int| 0 <= i < self.slots@.len() && self.slots@[i] is Some
            ==> (#[trigger] self.slots@[i])->Some_0.object.object_id == i
    }

    /// The id the next added entity will get.
    pub open spec fn spec_next_id(&self) -> int {
        self.slots@.len() as int
    }

    pub fn new() -> (r: WorldStore)
        ensures
            r.wf(),
            r.slots@.len() == 0,
            forall|id: u32| !r.spec_contains(id),
    {
        WorldStore { slots: Vec::new() }
    }

    /// Create a new entity: alive, age zero, full health, with a fresh
    /// monotonically increasing id.
    pub fn add(
        &mut self,
        object_type: ObjectType,
        position: Vec3,
        velocity: Vec3,
        acceleration: Vec3,
    ) -> (id: u32)
        requires
            old(self).wf(),
            old(self).spec_next_id() < u32::MAX,
        ensures
            final(self).wf(),
            id == old(self).spec_next_id(),
            final(self).spec_next_id() == old(self).spec_next_id() + 1,
            final(self).spec_get(id) == Some(
                EntityState {
                    object: GameObject {
                        alive: true,
                        age: 0,
                        object_id: id,
                        object_type,
                        health: 100,
                    },
                    position,
                    velocity,
                    acceleration,
                },
            ),
            forall|o: u32| o != id ==> final(self).spec_get(o) == old(self).spec_get(o),
    {
        let id = self.slots.len() as u32;
        let st = EntityState {
            object: GameObject { alive: true, age: 0, object_id: id, object_type, health: 100 },
            position,
            velocity,
            acceleration,
        };
        self.slots.push(Some(st));
        id
    }

    /// How many ids have ever been handed out.
    pub fn len(&self) -> (r: usize)
        ensures
            r == self.slots@.len(),
    {
        self.slots.len()
    }

    /// Copy out the record stored under `id`.
    pub fn get(&self, id: u32) -> (r: Option<EntityState>)
        ensures
            r == self.spec_get(id),
    {
        if (id as usize) < self.slots.len() {
            self.slots[id as usize]
        } else {
            None
        }
    }

    /// Replace the record stored under `id`; the id recorded in the new
    /// state must stay the slot's own.
    pub fn set(&mut self, id: u32, st: EntityState)
        requires
            old(self).wf(),
            old(self).spec_contains(id),
            st.object.object_id == id,
        ensures
            final(self).wf(),
            final(self).spec_next_id() == old(self).spec_next_id(),
            final(self).spec_get(id) == Some(st),
            forall|o: u32| o != id ==> final(self).spec_get(o) == old(self).spec_get(o),
    {
        self.slots.set(id as usize, Some(st));
    }

    /// Remove the record stored under `id` and return it; removing an
    /// absent id is a no-op.
    pub fn remove(&mut self, id: u32) -> (r: Option<EntityState>)
        requires
            old(self).wf(),
        ensures
            final(self).wf(),
            final(self).spec_next_id() == old(self).spec_next_id(),
            r == old(self).spec_get(id),
            final(self).spec_get(id) == None::<EntityState>,
            forall|o: u32| o != id ==> final(self).spec_get(o) == old(self).spec_get(o),
    {
        if (id as usize) < self.slots.len() {
            let r = self.slots[id as usize];
            self.slots.set(id as usize, None);
            r
        } else {
            None
        }
    }
}

} // verus!
