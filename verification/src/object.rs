//! The one record for everything on the map: the player, monsters, items, stairs.
use vstd::prelude::*;
use crate::ai::Ai;
use crate::colors::{light_green, light_yellow, red, Color};
use crate::equipment::{total_bonus, Equipment, Stat};
use crate::fighter::Fighter;
use crate::fov::FovMap;
use crate::game::{
    grid_wf, in_bounds, is_blocked, mut_two, only_logged, spec_is_blocked, Game, Grid, Messages,
    PLAYER,
};
use crate::item::Item;
use crate::text::{int_text, push_int, text_is};

verus! {

/// An entity of the game.
#[derive(Debug)]
pub struct Object {
    pub x: i32,
    pub y: i32,
    pub char: char,
    pub color: Color,
    pub name: String,
    pub blocks: bool,
    pub alive: bool,
    pub fighter: Option<Fighter>,
    pub equipment: Option<Equipment>,
    pub ai: Option<Ai>,
    pub item: Option<Item>,
    pub always_visible: bool,
    pub level: i32,
}

/// An entity as a mathematical value: the name is the sequence of its characters.
pub struct ObjectView {
    pub x: i32,
    pub y: i32,
    pub char: char,
    pub color: Color,
    pub name: Seq<char>,
    pub blocks: bool,
    pub alive: bool,
    pub fighter: Option<Fighter>,
    pub equipment: Option<Equipment>,
    pub ai: Option<Ai>,
    pub item: Option<Item>,
    pub always_visible: bool,
    pub level: i32,
}

impl View for Object {
    type V = ObjectView;

    open spec fn view(&self) -> ObjectView {
        ObjectView {
            x: self.x,
            y: self.y,
            char: self.char,
            color: self.color,
            name: self.name@,
            blocks: self.blocks,
            alive: self.alive,
            fighter: self.fighter,
            equipment: self.equipment,
            ai: self.ai,
            item: self.item,
            always_visible: self.always_visible,
            level: self.level,
        }
    }
}

/// The entities of `objects` as mathematical values, in the same order.
pub open spec fn views(objects: Seq<Object>) -> Seq<ObjectView> {
    objects.map_values(|o: Object| o@)
}

/// The text that `{:?}` gives for an entity.
pub uninterp spec fn debug_text(object: ObjectView) -> Seq<char>;

/// The text of an entity as `format!` writes it for `{:?}`, through the
/// `Debug` that `derive` gives `Object` and its parts. Nothing is claimed of
/// the text but that it depends on the entity alone.
#[verifier::external_body]
fn debug_string(object: &Object) -> (text: String)
    ensures
        text@ == debug_text(object@),
{
    format!("{:?}", object)
}

/// What an attack of `attacker` on `victim` gives: the attacker afterwards,
/// the victim afterwards, and the log lines. A blow of zero or less is a miss;
/// a blow that leaves a living victim without hit points kills it and earns
/// the attacker its experience.
pub open spec fn attack_outcome(
    attacker: ObjectView,
    victim: ObjectView,
    inventory: Seq<ObjectView>,
) -> (ObjectView, ObjectView, Seq<(Seq<char>, Color)>) {
    let blow = attacker.blow(victim, inventory);
    if blow <= 0 {
        (attacker, victim, seq![miss_line(attacker.name, victim.name)])
    } else if victim.hurt(blow).slain() {
        (
            attacker.with_xp(victim.fighter->0.xp as int),
            victim.hurt(blow).dead(),
            seq![damage_line(victim.name, blow, attacker.name), victim.hurt(blow).death_line()],
        )
    } else {
        (attacker, victim.hurt(blow), seq![damage_line(victim.name, blow, attacker.name)])
    }
}

/// The worn pieces of equipment among `inventory`, in its order.
pub open spec fn worn(inventory: Seq<ObjectView>) -> Seq<Equipment>
    decreases inventory.len(),
{
    if inventory.len() == 0 {
        Seq::empty()
    } else {
        let rest = worn(inventory.drop_last());
        match inventory.last().equipment {
            Some(equipment) => if equipment.equipped {
                rest.push(equipment)
            } else {
                rest
            },
            None => rest,
        }
    }
}

/// Whether `value` is a value of `i32`.
pub open spec fn fits_i32(value: int) -> bool {
    i32::MIN <= value <= i32::MAX
}

/// The log line of a hit.
pub open spec fn damage_line(target: Seq<char>, damage: int, attacker: Seq<char>) -> (
    Seq<char>,
    Color,
) {
    (target + " gets "@ + int_text(damage) + " damage from "@ + attacker, red())
}

/// The log line of an attack that does no harm.
pub open spec fn miss_line(attacker: Seq<char>, target: Seq<char>) -> (Seq<char>, Color) {
    (attacker + " failed to scratch "@ + target, red())
}

impl ObjectView {
    /// Whether this is the entity whose gear is in the inventory: the one
    /// called "player".
    pub open spec fn is_player(self) -> bool {
        self.name == "player"@
    }

    /// The gear the entity wears: the worn pieces of `inventory` for the
    /// player, nothing for anything else.
    pub open spec fn all_equipped(self, inventory: Seq<ObjectView>) -> Seq<Equipment> {
        if self.is_player() {
            worn(inventory)
        } else {
            Seq::empty()
        }
    }

    /// The entity's own value of `stat`, 0 for what cannot fight.
    pub open spec fn base(self, stat: Stat) -> int {
        match self.fighter {
            Some(fighter) => match stat {
                Stat::MaxHp => fighter.base_max_hp as int,
                Stat::Power => fighter.base_power as int,
                Stat::Defense => fighter.base_defense as int,
            },
            None => 0,
        }
    }

    /// The entity's value of `stat` with its gear counted in.
    pub open spec fn stat(self, stat: Stat, inventory: Seq<ObjectView>) -> int {
        self.base(stat) + total_bonus(self.all_equipped(inventory), stat)
    }

    /// The most hit points the entity can have, gear counted in.
    pub open spec fn max_hp(self, inventory: Seq<ObjectView>) -> int {
        self.stat(Stat::MaxHp, inventory)
    }

    /// The strength of the entity's blows, gear counted in.
    pub open spec fn power(self, inventory: Seq<ObjectView>) -> int {
        self.stat(Stat::Power, inventory)
    }

    /// What the entity wards off of each blow, gear counted in.
    pub open spec fn defense(self, inventory: Seq<ObjectView>) -> int {
        self.stat(Stat::Defense, inventory)
    }

    /// The entity with `damage` taken off its hit points; damage that is not
    /// positive, or to what cannot fight, changes nothing.
    pub open spec fn hurt(self, damage: int) -> ObjectView {
        match self.fighter {
            Some(fighter) => if damage > 0 {
                ObjectView {
                    fighter: Some(Fighter { hp: (fighter.hp - damage) as i32, ..fighter }),
                    ..self
                }
            } else {
                self
            },
            None => self,
        }
    }

    /// Whether the entity is alive with no hit points left: about to die.
    pub open spec fn slain(self) -> bool {
        self.alive && self.fighter is Some && self.fighter->0.hp <= 0
    }

    /// What becomes of an entity about to die: it is no longer alive and its
    /// death policy has been applied.
    pub open spec fn dead(self) -> ObjectView {
        self.fighter->0.on_death.apply(ObjectView { alive: false, ..self })
    }

    /// The log line on the death of an entity about to die.
    pub open spec fn death_line(self) -> (Seq<char>, Color) {
        self.fighter->0.on_death.line(ObjectView { alive: false, ..self })
    }

    /// The entity with `amount` added to its hit points, up to `max_hp`.
    pub open spec fn healed(self, amount: int, max_hp: int) -> ObjectView {
        match self.fighter {
            Some(fighter) => ObjectView {
                fighter: Some(
                    Fighter {
                        hp: (if fighter.hp + amount > max_hp {
                            max_hp
                        } else {
                            fighter.hp + amount
                        }) as i32,
                        ..fighter
                    },
                ),
                ..self
            },
            None => self,
        }
    }

    /// The entity with `gain` added to its experience.
    pub open spec fn with_xp(self, gain: int) -> ObjectView {
        match self.fighter {
            Some(fighter) => ObjectView {
                fighter: Some(Fighter { xp: (fighter.xp + gain) as i32, ..fighter }),
                ..self
            },
            None => self,
        }
    }

    /// The blow that this entity deals to `target`: its power less the
    /// target's defense.
    pub open spec fn blow(self, target: ObjectView, inventory: Seq<ObjectView>) -> int {
        self.power(inventory) - target.defense(inventory)
    }

    /// Whether an attack of this entity on `target` stays within the numbers
    /// of `i32`: both stats and the blow, the target's hit points after it, and
    /// the attacker's experience after a kill, which only a fighter can gain.
    pub open spec fn can_attack(self, target: ObjectView, inventory: Seq<ObjectView>) -> bool {
        let blow = self.blow(target, inventory);
        &&& fits_i32(self.power(inventory))
        &&& fits_i32(target.defense(inventory))
        &&& fits_i32(blow)
        &&& blow > 0 && target.fighter is Some ==> fits_i32(target.fighter->0.hp - blow)
        &&& blow > 0 && target.hurt(blow).slain() ==> self.fighter is Some && fits_i32(
            self.fighter->0.xp + target.fighter->0.xp,
        )
    }

    /// The entity worn or taken off, if it is equipment.
    pub open spec fn with_equipped(self, equipped: bool) -> ObjectView {
        match self.equipment {
            Some(equipment) => ObjectView {
                equipment: Some(Equipment { equipped, ..equipment }),
                ..self
            },
            None => self,
        }
    }

    /// What wearing the entity gives: the entity afterwards and the log lines.
    pub open spec fn equip_outcome(self) -> (ObjectView, Seq<(Seq<char>, Color)>) {
        if self.item is None {
            (self, seq![("Can't equip "@ + debug_text(self) + " as it's not an item"@, red())])
        } else {
            match self.equipment {
                Some(equipment) => if equipment.equipped {
                    (self, Seq::empty())
                } else {
                    (
                        self.with_equipped(true),
                        seq![
                            (
                                "Equipped "@ + self.name + " on "@ + equipment.slot.spec_name(),
                                light_green(),
                            ),
                        ],
                    )
                },
                None => (
                    self,
                    seq![
                        ("Can't equip "@ + debug_text(self) + " as it's not an equipment"@, red()),
                    ],
                ),
            }
        }
    }

    /// What bluntly taking the entity off gives, whether it is an item or
    /// not: worn equipment is worn no more and the log says so; anything else
    /// stays as it is and nothing is said.
    pub open spec fn taken_off(self) -> (ObjectView, Seq<(Seq<char>, Color)>) {
        match self.equipment {
            Some(equipment) => if equipment.equipped {
                (
                    self.with_equipped(false),
                    seq![
                        (
                            "Dequipped "@ + self.name + " from "@ + equipment.slot.spec_name(),
                            light_yellow(),
                        ),
                    ],
                )
            } else {
                (self, Seq::empty())
            },
            None => (self, Seq::empty()),
        }
    }

    /// What taking the entity off gives: the entity afterwards and the log
    /// lines. What is no item, or no equipment, is refused with one log line
    /// and stays as it is; equipment is taken off as `taken_off` says.
    pub open spec fn dequip_outcome(self) -> (ObjectView, Seq<(Seq<char>, Color)>) {
        if self.item is None {
            (self, seq![("Can't dequip "@ + debug_text(self) + " as it's not an item"@, red())])
        } else if self.equipment is None {
            (
                self,
                seq![("Can't dequip "@ + debug_text(self) + " as it's not an equipment"@, red())],
            )
        } else {
            self.taken_off()
        }
    }

    /// A bare entity: not alive, no facets, level 1.
    pub open spec fn new(
        x: i32,
        y: i32,
        char: char,
        name: Seq<char>,
        color: Color,
        blocks: bool,
    ) -> ObjectView {
        ObjectView {
            x,
            y,
            char,
            color,
            name,
            blocks,
            alive: false,
            fighter: None,
            equipment: None,
            ai: None,
            item: None,
            always_visible: false,
            level: 1,
        }
    }

    /// Whether the entity stands on tile (`x`, `y`).
    pub open spec fn is_at(self, x: int, y: int) -> bool {
        self.x == x && self.y == y
    }
}

impl Object {
    /// A bare entity: not alive, no facets, level 1.
    pub fn new(x: i32, y: i32, char: char, name: &str, color: Color, blocks: bool) -> (o: Object)
        ensures
            o@ == ObjectView::new(x, y, char, name@, color, blocks),
    {
        Object {
            x: x,
            y: y,
            char: char,
            color: color,
            name: String::from_str(name),
            blocks: blocks,
            alive: false,
            fighter: None,
            equipment: None,
            ai: None,
            item: None,
            always_visible: false,
            level: 1,
        }
    }

    /// The tile the entity stands on.
    pub fn pos(&self) -> (p: (i32, i32))
        ensures
            p == (self.x, self.y),
    {
        (self.x, self.y)
    }

    /// Puts the entity on tile (`x`, `y`).
    pub fn set_pos(&mut self, x: i32, y: i32)
        ensures
            final(self)@ == (ObjectView { x, y, ..old(self)@ }),
    {
        self.x = x;
        self.y = y;
    }

    /// The square of the distance from the entity to tile (`x`, `y`).
    pub fn distance_sq(&self, x: i32, y: i32) -> (d: i128)
        ensures
            d == dist_sq(self.x as int, self.y as int, x as int, y as int),
            d >= 0,
    {
        let dx: i128 = x as i128 - self.x as i128;
        let dy: i128 = y as i128 - self.y as i128;
        assert(dx * dx <= 0x1_0000_0000 * 0x1_0000_0000 && dy * dy <= 0x1_0000_0000 * 0x1_0000_0000)
            by (nonlinear_arith)
            requires
                -0x1_0000_0000 <= dx <= 0x1_0000_0000,
                -0x1_0000_0000 <= dy <= 0x1_0000_0000,
        ;
        assert(dx * dx >= 0 && dy * dy >= 0) by (nonlinear_arith);
        dx * dx + dy * dy
    }

    /// The square of the distance from the entity to another.
    pub fn distance_sq_to(&self, other: &Object) -> (d: i128)
        ensures
            d == dist_sq(self.x as int, self.y as int, other.x as int, other.y as int),
            d >= 0,
    {
        self.distance_sq(other.x, other.y)
    }

    /// The gear the entity wears: the worn pieces of the inventory for the
    /// player, nothing for anything else.
    pub fn get_all_equipped(&self, game: &Game) -> (gear: Vec<Equipment>)
        ensures
            gear@ == self@.all_equipped(views(game.inventory@)),
    {
        let mut gear: Vec<Equipment> = Vec::new();
        if text_is(&self.name, "player") {
            let ghost inventory = views(game.inventory@);
            let mut i: usize = 0;
            assert(inventory.take(0) =~= Seq::<ObjectView>::empty());
            while i < game.inventory.len()
                invariant
                    i <= game.inventory@.len(),
                    inventory == views(game.inventory@),
                    gear@ == worn(inventory.take(i as int)),
                decreases game.inventory@.len() - i,
            {
                proof {
                    assert(inventory.take(i + 1).drop_last() =~= inventory.take(i as int));
                    assert(inventory.take(i + 1).last() == game.inventory@[i as int]@);
                }
                if let Some(equipment) = game.inventory[i].equipment {
                    if equipment.equipped {
                        gear.push(equipment);
                    }
                }
                i += 1;
            }
            assert(inventory.take(i as int) =~= inventory);
        }
        gear
    }

    /// The entity's value of `stat` with its gear counted in.
    fn stat(&self, stat: Stat, game: &Game) -> (value: i32)
        requires
            fits_i32(self@.stat(stat, views(game.inventory@))),
        ensures
            value == self@.stat(stat, views(game.inventory@)),
    {
        let base: i32 = match self.fighter {
            Some(fighter) => match stat {
                Stat::MaxHp => fighter.base_max_hp,
                Stat::Power => fighter.base_power,
                Stat::Defense => fighter.base_defense,
            },
            None => 0,
        };
        let gear = self.get_all_equipped(game);
        let mut bonus: i128 = 0;
        let mut i: usize = 0;
        assert(gear@.take(0) =~= Seq::<Equipment>::empty());
        while i < gear.len()
            invariant
                i <= gear@.len(),
                bonus == total_bonus(gear@.take(i as int), stat),
                -0x8000_0000 * i <= bonus <= 0x8000_0000 * i,
            decreases gear@.len() - i,
        {
            proof {
                assert(gear@.take(i + 1).drop_last() =~= gear@.take(i as int));
                assert(gear@.take(i + 1).last() == gear@[i as int]);
            }
            bonus = bonus + gear[i].bonus(stat) as i128;
            i += 1;
        }
        assert(gear@.take(i as int) =~= gear@);
        (base as i128 + bonus) as i32
    }

    /// The most hit points the entity can have, gear counted in.
    pub fn max_hp(&self, game: &Game) -> (value: i32)
        requires
            fits_i32(self@.max_hp(views(game.inventory@))),
        ensures
            value == self@.max_hp(views(game.inventory@)),
    {
        self.stat(Stat::MaxHp, game)
    }

    /// The strength of the entity's blows, gear counted in.
    pub fn power(&self, game: &Game) -> (value: i32)
        requires
            fits_i32(self@.power(views(game.inventory@))),
        ensures
            value == self@.power(views(game.inventory@)),
    {
        self.stat(Stat::Power, game)
    }

    /// What the entity wards off of each blow, gear counted in.
    pub fn defense(&self, game: &Game) -> (value: i32)
        requires
            fits_i32(self@.defense(views(game.inventory@))),
        ensures
            value == self@.defense(views(game.inventory@)),
    {
        self.stat(Stat::Defense, game)
    }

    /// Takes `damage` off the entity's hit points. An entity that is alive and
    /// is left without hit points dies: it is marked dead, its death policy
    /// runs, and the experience it was worth is returned. In every other case
    /// nothing is returned; what is dead already does not die again.
    pub fn take_damage(&mut self, damage: i32, game: &mut Game) -> (reward: Option<i32>)
        requires
            damage > 0 && old(self).fighter is Some ==> fits_i32(old(self).fighter->0.hp - damage),
        ensures
            old(self)@.hurt(damage as int).slain() ==> {
                &&& reward == Some(old(self).fighter->0.xp)
                &&& final(self)@ == old(self)@.hurt(damage as int).dead()
                &&& only_logged(
                    *old(game),
                    *final(game),
                    seq![old(self)@.hurt(damage as int).death_line()],
                )
            },
            !old(self)@.hurt(damage as int).slain() ==> {
                &&& reward is None
                &&& final(self)@ == old(self)@.hurt(damage as int)
                &&& *final(game) == *old(game)
            },
    {
        if let Some(fighter) = self.fighter.as_mut() {
            if damage > 0 {
                fighter.hp -= damage;
            }
        }
        if let Some(fighter) = self.fighter {
            if fighter.hp <= 0 && self.alive {
                self.alive = false;
                fighter.on_death.callback(self, game);
                return Some(fighter.xp);
            }
        }
        None
    }

    /// Attacks `target`. A blow above zero is logged and taken off the
    /// target's hit points, and the attacker gains the experience of a target
    /// that dies of it; any other blow is logged as a miss and does nothing.
    pub fn attack(&mut self, target: &mut Object, game: &mut Game)
        requires
            old(self)@.can_attack(old(target)@, views(old(game).inventory@)),
        ensures
            final(self)@ == attack_outcome(old(self)@, old(target)@, views(old(game).inventory@)).0,
            final(target)@ == attack_outcome(
                old(self)@,
                old(target)@,
                views(old(game).inventory@),
            ).1,
            only_logged(
                *old(game),
                *final(game),
                attack_outcome(old(self)@, old(target)@, views(old(game).inventory@)).2,
            ),
    {
        let damage = self.power(game) - target.defense(game);
        if damage > 0 {
            let mut line = target.name.clone();
            line.append(" gets ");
            push_int(&mut line, damage as i64);
            line.append(" damage from ");
            line.append(self.name.as_str());
            game.messages.add(line, red());
            let ghost logged = *game;
            assert(logged.messages@ =~= old(game).messages@ + seq![
                damage_line(old(target)@.name, damage as int, old(self)@.name),
            ]);
            let reward = target.take_damage(damage, game);
            if let Some(xp) = reward {
                if let Some(fighter) = self.fighter.as_mut() {
                    fighter.xp += xp;
                }
                assert(game.messages@ =~= old(game).messages@ + seq![
                    damage_line(old(target)@.name, damage as int, old(self)@.name),
                    old(target)@.hurt(damage as int).death_line(),
                ]);
            }
        } else {
            let mut line = self.name.clone();
            line.append(" failed to scratch ");
            line.append(target.name.as_str());
            game.messages.add(line, red());
            assert(game.messages@ =~= old(game).messages@ + seq![
                miss_line(old(self)@.name, old(target)@.name),
            ]);
        }
    }

    /// Wears the entity, if it is an item of equipment that is not worn
    /// already, and logs that; what is no item or no equipment is refused with
    /// a log line.
    pub fn equip(&mut self, messages: &mut Messages)
        ensures
            final(self)@ == old(self)@.equip_outcome().0,
            final(messages)@ == old(messages)@ + old(self)@.equip_outcome().1,
    {
        if self.item.is_none() {
            let mut line = String::from_str("Can't equip ");
            line.append(debug_string(self).as_str());
            line.append(" as it's not an item");
            messages.add(line, red());
            assert(messages@ =~= old(messages)@ + old(self)@.equip_outcome().1);
            return ;
        }
        match self.equipment {
            Some(equipment) => {
                if !equipment.equipped {
                    self.equipment = Some(Equipment { equipped: true, ..equipment });
                    let mut line = String::from_str("Equipped ");
                    line.append(self.name.as_str());
                    line.append(" on ");
                    line.append(equipment.slot.name());
                    messages.add(line, light_green());
                }
                assert(messages@ =~= old(messages)@ + old(self)@.equip_outcome().1);
            },
            None => {
                let mut line = String::from_str("Can't equip ");
                line.append(debug_string(self).as_str());
                line.append(" as it's not an equipment");
                messages.add(line, red());
                assert(messages@ =~= old(messages)@ + old(self)@.equip_outcome().1);
            },
        }
    }

    /// Takes the entity off, whether it is an item or not: worn equipment is
    /// worn no more and the log says so; see `taken_off`.
    pub fn take_off(&mut self, messages: &mut Messages)
        ensures
            final(self)@ == old(self)@.taken_off().0,
            final(messages)@ == old(messages)@ + old(self)@.taken_off().1,
    {
        if let Some(equipment) = self.equipment {
            if equipment.equipped {
                self.equipment = Some(Equipment { equipped: false, ..equipment });
                let mut line = String::from_str("Dequipped ");
                line.append(self.name.as_str());
                line.append(" from ");
                line.append(equipment.slot.name());
                messages.add(line, light_yellow());
            }
        }
        assert(messages@ =~= old(messages)@ + old(self)@.taken_off().1);
    }

    /// Takes the entity off, if it is an item of equipment that is worn, and
    /// logs that; what is no item or no equipment is refused with a log line.
    pub fn dequip(&mut self, messages: &mut Messages)
        ensures
            final(self)@ == old(self)@.dequip_outcome().0,
            final(messages)@ == old(messages)@ + old(self)@.dequip_outcome().1,
    {
        if self.item.is_none() {
            let mut line = String::from_str("Can't dequip ");
            line.append(debug_string(self).as_str());
            line.append(" as it's not an item");
            messages.add(line, red());
            assert(messages@ =~= old(messages)@ + old(self)@.dequip_outcome().1);
            return ;
        }
        if self.equipment.is_none() {
            let mut line = String::from_str("Can't dequip ");
            line.append(debug_string(self).as_str());
            line.append(" as it's not an equipment");
            messages.add(line, red());
            assert(messages@ =~= old(messages)@ + old(self)@.dequip_outcome().1);
            return ;
        }
        self.take_off(messages);
    }

    /// Adds `amount` to the entity's hit points, up to the most it can have.
    pub fn heal(&mut self, amount: i32, game: &Game)
        requires
            fits_i32(old(self)@.max_hp(views(game.inventory@))),
            old(self).fighter is Some ==> old(self).fighter->0.hp + amount >= i32::MIN,
        ensures
            final(self)@ == old(self)@.healed(
                amount as int,
                old(self)@.max_hp(views(game.inventory@)),
            ),
    {
        let max_hp = self.max_hp(game);
        if let Some(fighter) = self.fighter.as_mut() {
            let raised: i64 = fighter.hp as i64 + amount as i64;
            if raised > max_hp as i64 {
                fighter.hp = max_hp;
            } else {
                fighter.hp = raised as i32;
            }
        }
    }
}

/// An attack between two that can fight, within the numbers of `i32`: the
/// blow is the attacker's power less the target's defense. A blow above zero
/// is logged as a hit and comes off the target's hit points, and a living
/// target left without hit points dies of it; any other blow is logged as a
/// miss and leaves the target as it was. The attacker changes in its
/// experience at most.
pub proof fn lemma_attack_takes_the_blow(
    attacker: ObjectView,
    victim: ObjectView,
    inventory: Seq<ObjectView>,
)
    requires
        attacker.fighter is Some,
        victim.fighter is Some,
        attacker.can_attack(victim, inventory),
    ensures
        ({
            let outcome = attack_outcome(attacker, victim, inventory);
            let blow = attacker.power(inventory) - victim.defense(inventory);
            let left = victim.fighter->0.hp - blow;
            &&& blow <= 0 ==> outcome.1 == victim && outcome.0 == attacker && outcome.2 == seq![
                miss_line(attacker.name, victim.name),
            ]
            &&& blow > 0 ==> outcome.2[0] == damage_line(victim.name, blow, attacker.name)
            &&& blow > 0 && !(victim.alive && left <= 0) ==> outcome.2.len() == 1 && outcome.1 == (
            ObjectView {
                fighter: Some(Fighter { hp: left as i32, ..victim.fighter->0 }),
                ..victim
            }) && outcome.0 == attacker
            &&& blow > 0 && victim.alive && left <= 0 ==> outcome.2.len() == 2 && !outcome.1.alive
                && outcome.1 == victim.hurt(blow).dead() && outcome.0 == attacker.with_xp(
                victim.fighter->0.xp as int,
            )
            &&& outcome.0 == (ObjectView {
                fighter: Some(
                    Fighter { xp: outcome.0.fighter->0.xp, ..attacker.fighter->0 },
                ),
                ..attacker
            })
        }),
{
}

/// Damage above zero lowers the hit points of what can fight by just that
/// much, other damage changes nothing; what is not alive does not die of
/// damage and stays not alive; and what has died is not alive, so it does not
/// die again of any further damage.
pub proof fn lemma_take_damage_monotone(object: ObjectView, damage: int, further: int)
    requires
        damage > 0 && object.fighter is Some ==> fits_i32(object.fighter->0.hp - damage),
    ensures
        damage > 0 && object.fighter is Some ==> object.hurt(damage).fighter->0.hp
            == object.fighter->0.hp - damage,
        damage > 0 && object.fighter is Some ==> object.hurt(damage).fighter->0.hp
            < object.fighter->0.hp,
        damage <= 0 ==> object.hurt(damage) == object,
        object.hurt(damage).alive == object.alive,
        !object.alive ==> !object.hurt(damage).slain(),
        object.hurt(damage).slain() ==> !object.hurt(damage).dead().alive,
        object.hurt(damage).slain() ==> !object.hurt(damage).dead().hurt(further).slain(),
{
}

/// The square of the distance between tiles (`ax`, `ay`) and (`bx`, `by`).
pub open spec fn dist_sq(ax: int, ay: int, bx: int, by: int) -> int {
    (bx - ax) * (bx - ax) + (by - ay) * (by - ay)
}

/// The entities after the `id`-th has tried to step by (`dx`, `dy`): it moves
/// unless rock or a blocking entity holds the tile it steps onto.
pub open spec fn spec_move_by(
    id: int,
    dx: int,
    dy: int,
    map: Grid,
    objects: Seq<ObjectView>,
) -> Seq<ObjectView> {
    let x = objects[id].x + dx;
    let y = objects[id].y + dy;
    if spec_is_blocked(x, y, map, objects) {
        objects
    } else {
        objects.update(id, ObjectView { x: x as i32, y: y as i32, ..objects[id] })
    }
}

/// Moves the `id`-th entity by (`dx`, `dy`) unless the tile it steps onto is blocked.
pub fn move_by(id: usize, dx: i32, dy: i32, map: &Grid, objects: &mut [Object])
    requires
        id < old(objects)@.len(),
        grid_wf(*map),
        in_bounds(old(objects)@[id as int].x + dx, old(objects)@[id as int].y + dy),
    ensures
        final(objects)@.len() == old(objects)@.len(),
        views(final(objects)@) == spec_move_by(
            id as int,
            dx as int,
            dy as int,
            *map,
            views(old(objects)@),
        ),
{
    let (x, y) = objects[id].pos();
    let blocked = is_blocked(x + dx, y + dy, map, objects);
    if !blocked {
        objects[id].set_pos(x + dx, y + dy);
        assert(views(objects@) =~= spec_move_by(
            id as int,
            dx as int,
            dy as int,
            *map,
            views(old(objects)@),
        ));
    }
}

/// Whether the `id`-th entity is the first that can fight and stands on (`x`, `y`).
pub open spec fn first_fighter_at(objects: Seq<ObjectView>, x: int, y: int, id: int) -> bool {
    &&& 0 <= id < objects.len()
    &&& objects[id].fighter is Some
    &&& objects[id].is_at(x, y)
    &&& forall|j: int| 0 <= j < id ==> !((#[trigger] objects[j]).fighter is Some && objects[j].is_at(x, y))
}

/// Whether nothing that can fight stands on (`x`, `y`).
pub open spec fn no_fighter_at(objects: Seq<ObjectView>, x: int, y: int) -> bool {
    forall|j: int|
        0 <= j < objects.len() ==> !((#[trigger] objects[j]).fighter is Some && objects[j].is_at(x, y))
}

/// The first entity that can fight and stands on (`x`, `y`).
pub fn fighter_at(x: i32, y: i32, objects: &[Object]) -> (found: Option<usize>)
    ensures
        match found {
            Some(id) => first_fighter_at(views(objects@), x as int, y as int, id as int),
            None => no_fighter_at(views(objects@), x as int, y as int),
        },
{
    let mut i: usize = 0;
    while i < objects.len()
        invariant
            i <= objects@.len(),
            forall|j: int|
                0 <= j < i ==> !((#[trigger] views(objects@)[j]).fighter is Some && views(
                    objects@,
                )[j].is_at(x as int, y as int)),
        decreases objects@.len() - i,
    {
        if objects[i].fighter.is_some() && objects[i].x == x && objects[i].y == y {
            assert(views(objects@)[i as int].fighter is Some);
            return Some(i);
        }
        i += 1;
    }
    None
}

/// Whether a step or attack of the player by (`dx`, `dy`) stays within the
/// level and within the numbers of `i32`: the tile stepped onto has
/// coordinates in `i32`; where something that can fight stands on it, that is
/// not the player itself and the attack is one that `can_attack` admits;
/// where nothing does, the tile is one of the level.
pub open spec fn move_attack_safe(
    dx: int,
    dy: int,
    inventory: Seq<ObjectView>,
    objects: Seq<ObjectView>,
) -> bool {
    let x = objects[0].x + dx;
    let y = objects[0].y + dy;
    &&& objects.len() > 0
    &&& fits_i32(x)
    &&& fits_i32(y)
    &&& forall|id: int|
        first_fighter_at(objects, x, y, id) ==> id != 0 && objects[0].can_attack(
            #[trigger] objects[id],
            inventory,
        )
    &&& no_fighter_at(objects, x, y) ==> in_bounds(x, y)
}

/// Whether the world went from `before` to `after` by a step or attack of
/// the player by (`dx`, `dy`): an attack on the first entity that can fight
/// on the tile stepped onto, or a step onto the tile unless it is blocked.
pub open spec fn move_attack_done(
    dx: int,
    dy: int,
    before: Game,
    objects: Seq<ObjectView>,
    after: Game,
    after_objects: Seq<ObjectView>,
) -> bool {
    let x = objects[0].x + dx;
    let y = objects[0].y + dy;
    &&& forall|id: int|
        first_fighter_at(objects, x, y, id) ==> {
            let outcome = attack_outcome(
                objects[0],
                #[trigger] objects[id],
                views(before.inventory@),
            );
            &&& after_objects == objects.update(0, outcome.0).update(id, outcome.1)
            &&& only_logged(before, after, outcome.2)
        }
    &&& no_fighter_at(objects, x, y) ==> {
        &&& after_objects == spec_move_by(0, dx, dy, before.map, objects)
        &&& after == before
    }
}

/// The player steps by (`dx`, `dy`), or attacks the first entity that can
/// fight on the tile stepped onto.
pub fn player_move_attack(dx: i32, dy: i32, game: &mut Game, objects: &mut [Object])
    requires
        old(objects)@.len() > 0,
        grid_wf(old(game).map),
        move_attack_safe(dx as int, dy as int, views(old(game).inventory@), views(old(objects)@)),
    ensures
        final(objects)@.len() == old(objects)@.len(),
        move_attack_done(
            dx as int,
            dy as int,
            *old(game),
            views(old(objects)@),
            *final(game),
            views(final(objects)@),
        ),
{
    let x = objects[PLAYER].x + dx;
    let y = objects[PLAYER].y + dy;
    let target_id = fighter_at(x, y, objects);
    match target_id {
        Some(id) => {
            assert(first_fighter_at(views(old(objects)@), x as int, y as int, id as int));
            assert(views(old(objects)@)[0].can_attack(
                views(old(objects)@)[id as int],
                views(old(game).inventory@),
            ));
            let (monster, player) = mut_two(id, PLAYER, objects);
            player.attack(monster, game);
            proof {
                let outcome = attack_outcome(
                    views(old(objects)@)[0],
                    views(old(objects)@)[id as int],
                    views(old(game).inventory@),
                );
                assert(views(final(objects)@) =~= views(old(objects)@).update(0, outcome.0).update(
                    id as int,
                    outcome.1,
                ));
                assert forall|other: int|
                    first_fighter_at(
                        views(old(objects)@),
                        x as int,
                        y as int,
                        other,
                    ) implies other == id by {
                    if other < id {
                        assert(views(old(objects)@)[other].fighter is Some);
                    } else if id < other {
                        assert(views(old(objects)@)[id as int].fighter is Some);
                    }
                }
            }
        },
        None => {
            move_by(PLAYER, dx, dy, &game.map, objects);
            assert forall|id: int|
                first_fighter_at(views(old(objects)@), x as int, y as int, id) implies false by {
                assert(views(old(objects)@)[id].fighter is Some);
            }
        },
    }
}

/// The step along one axis towards a target that lies `along` tiles away on
/// that axis and `across` tiles away on the other: one tile towards it when
/// the target lies within 60 degrees of the axis, none otherwise.
pub open spec fn toward(along: int, across: int) -> int {
    if 3 * (along * along) >= across * across {
        if along > 0 {
            1
        } else if along < 0 {
            -1
        } else {
            0
        }
    } else {
        0
    }
}

/// A step towards a target that is elsewhere is a step of one tile at most
/// each way, is not a standstill, and brings one strictly nearer: the square
/// of the distance that is left is smaller than it was.
pub proof fn lemma_step_closes_in(dx: int, dy: int)
    requires
        dx != 0 || dy != 0,
    ensures
        -1 <= toward(dx, dy) <= 1,
        -1 <= toward(dy, dx) <= 1,
        toward(dx, dy) != 0 || toward(dy, dx) != 0,
        (dx - toward(dx, dy)) * (dx - toward(dx, dy)) + (dy - toward(dy, dx)) * (dy - toward(
            dy,
            dx,
        )) < dx * dx + dy * dy,
{
    let sx = toward(dx, dy);
    let sy = toward(dy, dx);
    assert(dx * dx >= 0 && dy * dy >= 0) by (nonlinear_arith);
    assert(dx != 0 ==> dx * dx >= 1) by (nonlinear_arith);
    assert(dy != 0 ==> dy * dy >= 1) by (nonlinear_arith);
    assert(sx != 0 || sy != 0);
    let gain_x = (dx - sx) * (dx - sx) - dx * dx;
    let gain_y = (dy - sy) * (dy - sy) - dy * dy;
    assert(gain_x <= 0 && (sx != 0 ==> gain_x <= -1)) by (nonlinear_arith)
        requires
            gain_x == (dx - sx) * (dx - sx) - dx * dx,
            (sx == 1 && dx >= 1) || (sx == -1 && dx <= -1) || sx == 0,
    ;
    assert(gain_y <= 0 && (sy != 0 ==> gain_y <= -1)) by (nonlinear_arith)
        requires
            gain_y == (dy - sy) * (dy - sy) - dy * dy,
            (sy == 1 && dy >= 1) || (sy == -1 && dy <= -1) || sy == 0,
    ;
}

/// The step along one axis towards a target; see `toward`.
fn step_toward(along: i32, across: i32) -> (step: i32)
    ensures
        step == toward(along as int, across as int),
{
    let a: i128 = along as i128;
    let b: i128 = across as i128;
    assert(0 <= a * a <= 0x8000_0000 * 0x8000_0000 && 0 <= b * b <= 0x8000_0000 * 0x8000_0000)
        by (nonlinear_arith)
        requires
            -0x8000_0000 <= a <= 0x8000_0000,
            -0x8000_0000 <= b <= 0x8000_0000,
    ;
    if 3 * (a * a) >= b * b {
        if along > 0 {
            1
        } else if along < 0 {
            -1
        } else {
            0
        }
    } else {
        0
    }
}

/// The entities after the `id`-th has tried to step towards (`target_x`,
/// `target_y`), in the one of the eight directions that lies nearest.
pub open spec fn spec_move_towards(
    id: int,
    target_x: int,
    target_y: int,
    map: Grid,
    objects: Seq<ObjectView>,
) -> Seq<ObjectView> {
    let dx = target_x - objects[id].x;
    let dy = target_y - objects[id].y;
    spec_move_by(id, toward(dx, dy), toward(dy, dx), map, objects)
}

/// Moves the `id`-th entity one step towards (`target_x`, `target_y`), in the
/// one of the eight directions that lies nearest, unless the tile it steps
/// onto is blocked.
pub fn move_towards(id: usize, target_x: i32, target_y: i32, map: &Grid, objects: &mut [Object])
    requires
        id < old(objects)@.len(),
        grid_wf(*map),
        fits_i32(target_x - old(objects)@[id as int].x),
        fits_i32(target_y - old(objects)@[id as int].y),
        in_bounds(
            old(objects)@[id as int].x + toward(
                target_x - old(objects)@[id as int].x,
                target_y - old(objects)@[id as int].y,
            ),
            old(objects)@[id as int].y + toward(
                target_y - old(objects)@[id as int].y,
                target_x - old(objects)@[id as int].x,
            ),
        ),
    ensures
        final(objects)@.len() == old(objects)@.len(),
        views(final(objects)@) == spec_move_towards(
            id as int,
            target_x as int,
            target_y as int,
            *map,
            views(old(objects)@),
        ),
{
    let dx = target_x - objects[id].x;
    let dy = target_y - objects[id].y;
    let step_x = step_toward(dx, dy);
    let step_y = step_toward(dy, dx);
    move_by(id, step_x, step_y, map, objects);
}

/// Whether the `k`-th entity is a monster that the player sees: not the
/// player, able to fight and to act, and in the field of view.
pub open spec fn visible_monster(fov: FovMap, objects: Seq<ObjectView>, k: int) -> bool {
    &&& 0 < k < objects.len()
    &&& objects[k].fighter is Some
    &&& objects[k].ai is Some
    &&& fov.spec_is_in_fov(objects[k].x as int, objects[k].y as int)
}

/// The square of the distance from the player to the `k`-th entity.
pub open spec fn player_dist_sq(objects: Seq<ObjectView>, k: int) -> int {
    dist_sq(objects[0].x as int, objects[0].y as int, objects[k].x as int, objects[k].y as int)
}

/// Whether the `k`-th entity is within `range` tiles of the player; nothing
/// is within a range below zero.
pub open spec fn in_reach(objects: Seq<ObjectView>, k: int, range: int) -> bool {
    range >= 0 && player_dist_sq(objects, k) <= range * range
}

/// Whether the `id`-th entity is the visible monster nearest to the player
/// and within `range` tiles of it, the first in the order of the entities
/// among those that are equally near.
pub open spec fn is_closest_monster(
    fov: FovMap,
    objects: Seq<ObjectView>,
    range: int,
    id: int,
) -> bool {
    &&& visible_monster(fov, objects, id)
    &&& in_reach(objects, id, range)
    &&& forall|k: int| #[trigger]
        visible_monster(fov, objects, k) ==> player_dist_sq(objects, id) <= player_dist_sq(
            objects,
            k,
        )
    &&& forall|k: int| #[trigger]
        visible_monster(fov, objects, k) && k < id ==> player_dist_sq(objects, id)
            < player_dist_sq(objects, k)
}

/// Whether no visible monster is within `range` tiles of the player.
pub open spec fn no_monster_in_reach(fov: FovMap, objects: Seq<ObjectView>, range: int) -> bool {
    forall|k: int| #[trigger] visible_monster(fov, objects, k) ==> !in_reach(objects, k, range)
}

/// At most one entity is the closest monster.
pub proof fn lemma_closest_monster_unique(
    fov: FovMap,
    objects: Seq<ObjectView>,
    range: int,
    a: int,
    b: int,
)
    requires
        is_closest_monster(fov, objects, range, a),
        is_closest_monster(fov, objects, range, b),
    ensures
        a == b,
{
}

/// The closest monster, if there is one; see `is_closest_monster`.
pub open spec fn spec_closest_monster(fov: FovMap, objects: Seq<ObjectView>, range: int) -> Option<
    int,
> {
    if exists|id: int| is_closest_monster(fov, objects, range, id) {
        Some(choose|id: int| is_closest_monster(fov, objects, range, id))
    } else {
        None
    }
}

/// The visible monster nearest to the player among those within `range`
/// tiles of it, the first in the order of the entities where several are
/// equally near.
pub fn closest_monster(fov: &FovMap, objects: &[Object], range: i32) -> (found: Option<usize>)
    requires
        objects@.len() > 0,
    ensures
        match found {
            Some(id) => is_closest_monster(*fov, views(objects@), range as int, id as int),
            None => no_monster_in_reach(*fov, views(objects@), range as int),
        },
        match found {
            Some(id) => spec_closest_monster(*fov, views(objects@), range as int) == Some(
                id as int,
            ),
            None => spec_closest_monster(*fov, views(objects@), range as int) is None,
        },
{
    let mut closest_enemy: Option<usize> = None;
    let reach: i128 = range as i128;
    assert(0 <= reach * reach <= 0x8000_0000 * 0x8000_0000) by (nonlinear_arith)
        requires
            -0x8000_0000 <= reach <= 0x8000_0000,
    ;
    let limit: i128 = if range >= 0 {
        reach * reach
    } else {
        -1
    };
    let mut closest_dist: i128 = limit + 1;
    let ghost objs = views(objects@);
    let mut id: usize = 0;
    while id < objects.len()
        invariant
            id <= objects@.len(),
            objects@.len() > 0,
            objs == views(objects@),
            limit == if range >= 0 {
                range * range
            } else {
                -1
            },
            0 <= closest_dist <= limit + 1,
            match closest_enemy {
                Some(best) => {
                    &&& best < id
                    &&& visible_monster(*fov, objs, best as int)
                    &&& closest_dist == player_dist_sq(objs, best as int)
                    &&& closest_dist <= limit
                    &&& forall|k: int|
                        #[trigger] visible_monster(*fov, objs, k) && k < best ==> closest_dist
                            < player_dist_sq(objs, k)
                },
                None => closest_dist == limit + 1,
            },
            forall|k: int|
                #[trigger] visible_monster(*fov, objs, k) && k < id ==> closest_dist
                    <= player_dist_sq(objs, k),
        decreases objects@.len() - id,
    {
        if (id != PLAYER) && objects[id].fighter.is_some() && objects[id].ai.is_some()
            && fov.is_in_fov(objects[id].x, objects[id].y) {
            let dist = objects[PLAYER].distance_sq_to(&objects[id]);
            if dist < closest_dist {
                closest_enemy = Some(id);
                closest_dist = dist;
            }
        }
        id += 1;
    }
    proof {
        match closest_enemy {
            Some(best) => {
                assert(is_closest_monster(*fov, objs, range as int, best as int));
                let chosen = choose|id: int| is_closest_monster(*fov, objs, range as int, id);
                lemma_closest_monster_unique(*fov, objs, range as int, chosen, best as int);
            },
            None => {
                assert forall|id: int| !is_closest_monster(*fov, objs, range as int, id) by {
                    if visible_monster(*fov, objs, id) {
                        assert(player_dist_sq(objs, id) >= limit + 1);
                    }
                }
            },
        }
    }
    closest_enemy
}

} // verus!
