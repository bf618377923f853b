//! How an entity looks.
use vstd::prelude::*;
use crate::colors::Color;
use crate::components::Component;

verus! {

/// The glyph of an entity and its colour.
#[derive(Debug)]
pub struct Render {
    pub entity: usize,
    pub char: char,
    pub color: Color,
}

impl Component for Render {
    open spec fn entity(&self) -> usize {
        self.entity
    }

    fn get_entity(&self) -> (id: usize) {
        self.entity
    }
}

impl Render {
    /// The looks of `entity`: the glyph `char` in `color`.
    pub fn new(entity: usize, char: char, color: Color) -> (r: Render)
        ensures
            r == (Render { entity, char, color }),
    {
        Render { entity, char, color }
    }
}

} // verus!
