//! How an entity behaves on its own.
use vstd::prelude::*;
use crate::components::Component;

verus! {

/// The behaviour of an entity.
#[derive(Debug)]
pub struct Ai {
    pub entity: usize,
    pub ai_type: AiType,
}

/// The kinds of behaviour.
#[derive(Clone, Copy, Debug, PartialEq, Eq, Structural)]
pub enum AiType {
    Goblin,
}

impl Component for Ai {
    open spec fn entity(&self) -> usize {
        self.entity
    }

    fn get_entity(&self) -> (id: usize) {
        self.entity
    }
}

impl Ai {
    /// The behaviour of a goblin, for the entity `entity`.
    pub fn goblin(entity: usize) -> (ai: Ai)
        ensures
            ai == (Ai { entity, ai_type: AiType::Goblin }),
    {
        Ai { entity, ai_type: AiType::Goblin }
    }
}

} // verus!
