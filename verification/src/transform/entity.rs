//! Entity identifiers, parent links and the structural events of a hierarchy.
use vstd::prelude::*;

verus! {

/// A stable identifier of a scene object: a slot index and the generation of
/// that slot. Two entities with the same index and different generations are
/// different objects; the older one is stale.
#[derive(Clone, Copy, Debug, PartialEq, Eq, Structural)]
pub struct Entity {
    pub id: u32,
    pub generation: i32,
}

impl Entity {
    /// The entity that occupies slot `id` in generation `generation`.
    pub fn new(id: u32, generation: i32) -> (e: Entity)
        ensures
            e.id == id,
            e.generation == generation,
    {
        Entity { id, generation }
    }

    /// The slot index of this entity.
    pub fn id(&self) -> (id: u32)
        ensures
            id == self.id,
    {
        self.id
    }
}

/// Declares that an entity's global transform is relative to that of
/// `entity`.
#[derive(Clone, Copy, Debug, PartialEq, Eq, Structural)]
pub struct Parent {
    pub entity: Entity,
}

impl Parent {
    /// The entity this link points to.
    pub fn parent_entity(&self) -> (e: Entity)
        ensures
            e == self.entity,
    {
        self.entity
    }
}

/// A structural change reported by the hierarchy since it was last read.
#[derive(Clone, Copy, Debug, PartialEq, Eq, Structural)]
pub enum HierarchyEvent {
    /// The entity was added to the hierarchy or moved to another parent.
    Modified(Entity),
    /// The entity left the hierarchy and is to be deleted.
    Removed(Entity),
}

} // verus!
