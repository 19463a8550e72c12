//! The components that place an entity in the scene graph.

use vstd::prelude::*;

verus! {

/// Component that represents a parent-child relationship between entities to help build a scene graph.
#[derive(Clone, Copy, Debug, PartialEq, Eq)]
pub struct TransformParent {
    /// The parent entity of the entity to which this component is attached.
    entity: u32,
}

impl TransformParent {
    pub closed spec fn entity_view(&self) -> u32 {
        self.entity
    }

    /// A relationship with `entity` as the parent.
    pub fn new(entity: u32) -> (parent: TransformParent)
        ensures
            parent.entity_view() == entity,
    {
        TransformParent { entity }
    }

    /// Makes `entity` the parent.
    pub fn set_parent(&mut self, entity: u32)
        ensures
            final(self).entity_view() == entity,
    {
        self.entity = entity;
    }

    /// The parent entity.
    pub fn parent_entity(&self) -> (entity: u32)
        ensures
            entity == self.entity_view(),
    {
        self.entity
    }
}

/// The Enabled component is a flag component stating that the object should be updated and rendered.
#[derive(Clone, Copy, Debug, PartialEq, Eq)]
pub struct Enabled;

/// The DirtyTransform component is a flag component stating that the transform of the object has changed.
#[derive(Clone, Copy, Debug, PartialEq, Eq)]
pub struct DirtyTransform;

impl Default for Enabled {
    fn default() -> (flag: Enabled)
        ensures
            flag == Enabled,
    {
        Enabled
    }
}

impl Default for DirtyTransform {
    fn default() -> (flag: DirtyTransform)
        ensures
            flag == DirtyTransform,
    {
        DirtyTransform
    }
}

} // verus!
