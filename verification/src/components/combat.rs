//! An entity's part in a fight.
use vstd::prelude::*;
use crate::components::Component;
use crate::object::fits_i32;
use crate::text::{nat_text, push_nat};

verus! {

/// What is to be announced when an entity dies.
#[derive(Clone, Copy, Debug, PartialEq, Eq, Structural)]
pub enum DeathCallback {
    Player,
    Monster,
}

impl DeathCallback {
    /// The announcement of the death of `entity`.
    pub open spec fn spec_announcement(self, entity: usize) -> Seq<char> {
        match self {
            DeathCallback::Player => "Player ("@ + nat_text(entity as nat)
                + ") is dead"@,
            DeathCallback::Monster => "Monster ("@ + nat_text(entity as nat)
                + ") is dead"@,
        }
    }

    /// The announcement of the death of `entity`.
    pub fn announcement(self, entity: usize) -> (text: String)
        ensures
            text@ == self.spec_announcement(entity),
    {
        let mut text = match self {
            DeathCallback::Player => String::from_str("Player ("),
            DeathCallback::Monster => String::from_str("Monster ("),
        };
        push_nat(&mut text, entity as u64);
        text.append(") is dead");
        text
    }
}

/// The combat statistics of an entity.
#[derive(Debug, PartialEq, Eq, Structural)]
pub struct Combat {
    pub entity: usize,
    pub alive: bool,
    pub base_max_hp: i32,
    pub hp: i32,
    pub base_defense: i32,
    pub base_damage: i32,
    pub on_death: Option<DeathCallback>,
}

impl Component for Combat {
    open spec fn entity(&self) -> usize {
        self.entity
    }

    fn get_entity(&self) -> (id: usize) {
        self.entity
    }
}

impl Combat {
    /// A combat component at full hit points, not alive yet, with nothing to
    /// announce on its death.
    pub fn new(entity: usize, base_max_hp: i32, base_defense: i32, base_damage: i32) -> (c: Combat)
        ensures
            c == (Combat {
                entity,
                alive: false,
                base_max_hp,
                hp: base_max_hp,
                base_defense,
                base_damage,
                on_death: None,
            }),
    {
        Combat {
            entity,
            alive: false,
            base_max_hp,
            hp: base_max_hp,
            base_defense,
            base_damage,
            on_death: None,
        }
    }

    /// The strength of the entity's blows.
    pub fn get_damage(&self) -> (value: i32)
        ensures
            value == self.base_damage,
    {
        self.base_damage
    }

    /// What the entity wards off of each blow.
    pub fn get_defense(&self) -> (value: i32)
        ensures
            value == self.base_defense,
    {
        self.base_defense
    }

    /// The most hit points the entity can have.
    pub fn get_max_hp(&self) -> (value: i32)
        ensures
            value == self.base_max_hp,
    {
        self.base_max_hp
    }

    /// The component after `damage`: damage above zero comes off the hit
    /// points, and a component that is alive and is left without hit points
    /// is alive no more.
    pub open spec fn hurt(self, damage: int) -> Combat {
        let hp = if damage > 0 {
            self.hp - damage
        } else {
            self.hp as int
        };
        Combat { hp: hp as i32, alive: self.alive && hp > 0, ..self }
    }

    /// What is to be announced when the component takes `damage`: its death,
    /// if it is alive and is left without hit points.
    pub open spec fn dies_of(self, damage: int) -> Option<DeathCallback> {
        if self.alive && self.hurt(damage).hp <= 0 {
            self.on_death
        } else {
            None
        }
    }

    /// Takes `damage` off the hit points. A component that is alive and is
    /// left without hit points dies, and what is to be announced of that is
    /// returned; nothing dies twice.
    pub fn take_damage(&mut self, damage: i32) -> (died: Option<DeathCallback>)
        requires
            damage > 0 ==> fits_i32(old(self).hp - damage),
        ensures
            *final(self) == old(self).hurt(damage as int),
            died == old(self).dies_of(damage as int),
    {
        if damage > 0 {
            self.hp -= damage;
        }
        if self.hp <= 0 && self.alive {
            self.alive = false;
            return self.on_death;
        }
        None
    }

    /// The blow that this component deals to `target`.
    pub open spec fn blow(self, target: Combat) -> int {
        self.base_damage - target.base_defense
    }

    /// Attacks `target`: a blow above zero is taken off its hit points.
    pub fn attack(&self, target: &mut Combat) -> (died: Option<DeathCallback>)
        requires
            fits_i32(self.blow(*old(target))),
            self.blow(*old(target)) > 0 ==> fits_i32(old(target).hp - self.blow(*old(target))),
        ensures
            *final(target) == if self.blow(*old(target)) > 0 {
                old(target).hurt(self.blow(*old(target)))
            } else {
                *old(target)
            },
            died == if self.blow(*old(target)) > 0 {
                old(target).dies_of(self.blow(*old(target)))
            } else {
                None
            },
    {
        let damage = self.get_damage() - target.get_defense();
        if damage > 0 {
            target.take_damage(damage)
        } else {
            None
        }
    }

    /// Adds `amount` to the hit points, up to the most the entity can have.
    pub fn get_healed(&mut self, amount: i32)
        requires
            old(self).hp + amount >= i32::MIN,
        ensures
            *final(self) == (Combat {
                hp: (if old(self).hp + amount > old(self).base_max_hp {
                    old(self).base_max_hp as int
                } else {
                    old(self).hp + amount
                }) as i32,
                ..*old(self)
            }),
    {
        let max_hp = self.get_max_hp();
        let raised: i64 = self.hp as i64 + amount as i64;
        if raised > max_hp as i64 {
            self.hp = max_hp;
        } else {
            self.hp = raised as i32;
        }
    }
}

} // verus!
