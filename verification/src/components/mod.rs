//! The facets of an entity kept apart, each in a list of its own and each
//! naming the entity that it belongs to.
use vstd::prelude::*;

pub mod ai;
pub mod combat;
pub mod fov;
pub mod position;
pub mod render;

verus! {

/// A facet of an entity.
pub trait Component {
    /// The entity that the facet belongs to.
    spec fn entity(&self) -> usize;

    /// The entity that the facet belongs to.
    fn get_entity(&self) -> (id: usize)
        ensures
            id == self.entity(),
    ;
}

} // verus!
