//! Gear that grants stat bonuses while it is worn in a slot.
use vstd::prelude::*;

verus! {

/// Where a piece of equipment is worn. Each slot holds at most one worn item.
#[derive(Clone, Copy, Debug, PartialEq, Eq, Structural)]
pub enum Slot {
    LeftHand,
    RightHand,
    Head,
}

impl Slot {
    /// The slot's name as it reads in the log.
    pub open spec fn spec_name(self) -> Seq<char> {
        match self {
            Slot::LeftHand => "left hand"@,
            Slot::RightHand => "right hand"@,
            Slot::Head => "head"@,
        }
    }

    /// The slot's name as it reads in the log.
    pub fn name(self) -> (s: &'static str)
        ensures
            s@ == self.spec_name(),
    {
        match self {
            Slot::LeftHand => "left hand",
            Slot::RightHand => "right hand",
            Slot::Head => "head",
        }
    }
}

/// The equipment facet of an entity: its slot, whether it is worn, and what
/// it adds to the wearer's stats while worn.
#[derive(Clone, Copy, Debug, PartialEq, Eq, Structural)]
pub struct Equipment {
    pub slot: Slot,
    pub equipped: bool,
    pub power_bonus: i32,
    pub defense_bonus: i32,
    pub max_hp_bonus: i32,
}

/// The three stats that equipment can raise.
#[derive(Clone, Copy, Debug, PartialEq, Eq, Structural)]
pub enum Stat {
    MaxHp,
    Power,
    Defense,
}

impl Equipment {
    /// What this piece adds to `stat` while worn.
    pub open spec fn spec_bonus(self, stat: Stat) -> int {
        match stat {
            Stat::MaxHp => self.max_hp_bonus as int,
            Stat::Power => self.power_bonus as int,
            Stat::Defense => self.defense_bonus as int,
        }
    }

    /// What this piece adds to `stat` while worn.
    pub fn bonus(&self, stat: Stat) -> (b: i32)
        ensures
            b == self.spec_bonus(stat),
    {
        match stat {
            Stat::MaxHp => self.max_hp_bonus,
            Stat::Power => self.power_bonus,
            Stat::Defense => self.defense_bonus,
        }
    }
}

/// The sum of what the pieces in `worn` add to `stat`.
pub open spec fn total_bonus(worn: Seq<Equipment>, stat: Stat) -> int
    decreases worn.len(),
{
    if worn.len() == 0 {
        0
    } else {
        total_bonus(worn.drop_last(), stat) + worn.last().spec_bonus(stat)
    }
}

} // verus!
