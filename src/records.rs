//! The persisted records that mirror the live world.
use crate::handle::{BodyHandle, ColliderHandle};
use vstd::prelude::*;

verus! {

/// An entity's external identity.
#[derive(Clone, Copy, Debug, PartialEq, Eq, Structural, Default)]
pub struct Entity {
    pub id: u32,
}

/// The persisted association between an entity and the engine handles of
/// its body and collider, each as an (index, generation) pair.
#[derive(Clone, Copy, Debug, PartialEq, Eq, Structural)]
pub struct EntityPhysics {
    pub entity_id: u32,
    pub rb_handle_index: u32,
    pub rb_handle_generation: u32,
    pub co_handle_index: u32,
    pub co_handle_generation: u32,
}

impl EntityPhysics {
    pub open spec fn body_spec(self) -> BodyHandle {
        BodyHandle { index: self.rb_handle_index, generation: self.rb_handle_generation }
    }

    pub open spec fn collider_spec(self) -> ColliderHandle {
        ColliderHandle { index: self.co_handle_index, generation: self.co_handle_generation }
    }

    /// The record for `entity_id`, holding the encodings of both handles.
    pub fn new(entity_id: u32, body: BodyHandle, collider: ColliderHandle) -> (r: EntityPhysics)
        ensures
            r.entity_id == entity_id,
            r.body_spec() == body,
            r.collider_spec() == collider,
    {
        let (rb_handle_index, rb_handle_generation) = body.into_raw_parts();
        let (co_handle_index, co_handle_generation) = collider.into_raw_parts();
        EntityPhysics {
            entity_id,
            rb_handle_index,
            rb_handle_generation,
            co_handle_index,
            co_handle_generation,
        }
    }

    /// The body handle that the record encodes.
    pub fn body(&self) -> (r: BodyHandle)
        ensures
            r == self.body_spec(),
    {
        BodyHandle::from_raw_parts(self.rb_handle_index, self.rb_handle_generation)
    }

    /// The collider handle that the record encodes.
    pub fn collider(&self) -> (r: ColliderHandle)
        ensures
            r == self.collider_spec(),
    {
        ColliderHandle::from_raw_parts(self.co_handle_index, self.co_handle_generation)
    }
}

} // verus!
