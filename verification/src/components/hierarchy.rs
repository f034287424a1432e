//! Parent-link component: ties an entity to a parent entity with a
//! transform offset relative to the parent's world transform.

use crate::components::orientation::Orientation;
use crate::components::position::Position;
use crate::transform;
use vstd::prelude::*;

verus! {

/// A parent link. `parent` is the parent's entity id — an identifier
/// used for lookup, never a direct reference — and the two offsets are
/// relative to the parent's current world transform.
#[derive(Debug, Clone, Copy, PartialEq, Eq, Structural)]
pub struct HierarchyComponent {
    pub parent: u32,
    pub local_position: Position,
    pub local_orientation: Orientation,
}

impl HierarchyComponent {
    pub fn new(parent: u32, local_position: Position, local_orientation: Orientation) -> (r: Self)
        ensures
            r == (HierarchyComponent { parent, local_position, local_orientation }),
    {
        HierarchyComponent { parent, local_position, local_orientation }
    }

    /// Builds the link whose offsets reproduce the child's current world
    /// transform when composed with the parent's current world transform.
    pub fn from_world_transforms(
        parent: u32,
        parent_position: Position,
        parent_orientation: Orientation,
        child_position: Position,
        child_orientation: Orientation,
    ) -> (r: Self)
        ensures
            r.parent == parent,
            r.local_position == transform::inverse_rotated(
                parent_orientation,
                transform::difference(child_position, parent_position),
            ),
            r.local_orientation == transform::inverse_combined(
                parent_orientation,
                child_orientation,
            ),
    {
        let offset = transform::difference_of(&child_position, &parent_position);
        let local_position = transform::inverse_rotate_by(&parent_orientation, &offset);
        let local_orientation = transform::inverse_combine(&parent_orientation, &child_orientation);
        HierarchyComponent { parent, local_position, local_orientation }
    }

    /// Composes this link's offsets with the parent's world transform:
    /// the local offset rotated by the parent's orientation and added to
    /// the parent's position, and the orientations multiplied.
    pub fn compose_with_parent(
        &self,
        parent_position: Position,
        parent_orientation: Orientation,
    ) -> (r: (Position, Orientation))
        ensures
            r.0 == transform::composed_position(
                parent_position,
                parent_orientation,
                self.local_position,
            ),
            r.1 == transform::composed_orientation(parent_orientation, self.local_orientation),
    {
        let rotated_offset = transform::rotate_by(&parent_orientation, &self.local_position);
        let world_position = transform::translate_by(&parent_position, &rotated_offset);
        let world_orientation = transform::combine(&parent_orientation, &self.local_orientation);
        (world_position, world_orientation)
    }

    pub fn set_local_position(&mut self, position: Position)
        ensures
            *final(self) == (HierarchyComponent { local_position: position, ..*old(self) }),
    {
        self.local_position = position;
    }

    pub fn set_local_orientation(&mut self, orientation: Orientation)
        ensures
            *final(self) == (HierarchyComponent { local_orientation: orientation, ..*old(self) }),
    {
        self.local_orientation = orientation;
    }
}

} // verus!
