//! Items: picking them up, using them, dropping them.
use vstd::prelude::*;
use crate::ai::Ai;
use crate::colors::{dark_red, light_blue, light_grey, light_violet, orange, white, Color};
use crate::equipment::Slot;
use crate::fighter::Fighter;
use crate::fov::FovMap;
use crate::game::{Game, LogLine, PLAYER};
use crate::object::{
    closest_monster, dist_sq, fits_i32, spec_closest_monster, views, Object, ObjectView,
};
use crate::text::{int_text, push_int};

verus! {

/// How many items the inventory holds at most.
pub const INVENTORY_SIZE: i32 = 26;

/// Hit points restored by a healing potion.
pub const HEAL_AMOUNT: i32 = 10;

/// Damage dealt by a lightning bolt.
pub const LIGHTNING_DAMAGE: i32 = 30;

/// Damage dealt by a fireball to everything in its blast.
pub const FIRE_DAMAGE: i32 = 15;

/// Reach of targeted spells, in tiles; a fireball burns within half of it.
pub const SPELL_RANGE: i32 = 10;

/// Turns a confused monster stumbles before it recovers.
pub const CONFUSION_DURATION: i32 = 5;

/// What using an item does.
#[derive(Clone, Copy, Debug, PartialEq, Eq, Structural)]
pub enum Item {
    Heal,
    Lightning,
    Fireball,
    Confusion,
    Sword,
    Shield,
}

/// The outcome of using an item.
#[derive(Clone, Copy, Debug, PartialEq, Eq, Structural)]
pub enum UseResult {
    /// The item took effect and is gone.
    UsedUp,
    /// Nothing happened and the item stays.
    Cancelled,
    /// The item took effect and stays.
    UsedAndKept,
}

/// The log line on picking up something called `name`.
pub open spec fn pick_line(name: Seq<char>) -> (Seq<char>, Color) {
    ("You picked up an item: "@ + name, light_grey())
}

/// The log line on dropping something called `name`.
pub open spec fn drop_line(name: Seq<char>) -> (Seq<char>, Color) {
    ("Yout dropped "@ + name, light_grey())
}

/// Whether the world went from `before` to `after` by picking up the
/// `id`-th entity of the level: it has moved to the end of the inventory, the
/// last entity of the level has taken its place, and the log says so; or,
/// with `INVENTORY_SIZE` items held already, only the log says that the
/// inventory is full.
pub open spec fn picked(
    id: int,
    before: Game,
    objects: Seq<ObjectView>,
    after: Game,
    after_objects: Seq<ObjectView>,
) -> bool {
    &&& after.map == before.map
    &&& after.dungeon_level == before.dungeon_level
    &&& if before.inventory@.len() >= INVENTORY_SIZE {
        &&& after_objects == objects
        &&& views(after.inventory@) == views(before.inventory@)
        &&& after.messages@ == before.messages@.push(("Your inventory is full"@, dark_red()))
    } else {
        &&& after_objects == objects.update(id, objects.last()).drop_last()
        &&& views(after.inventory@) == views(before.inventory@).push(objects[id])
        &&& after.messages@ == before.messages@.push(pick_line(objects[id].name))
    }
}

/// Picking up anything but the player leaves the player the first entity of
/// the level.
pub proof fn lemma_pick_keeps_player(
    id: int,
    before: Game,
    objects: Seq<ObjectView>,
    after: Game,
    after_objects: Seq<ObjectView>,
)
    requires
        0 < id < objects.len(),
        picked(id, before, objects, after, after_objects),
    ensures
        after_objects.len() > 0,
        after_objects[0] == objects[0],
{
}

/// Picks up the `object_id`-th entity of the level, which is not the player;
/// see `picked`. The player stays the first entity of the level.
pub fn pick_item(object_id: usize, game: &mut Game, objects: &mut Vec<Object>)
    requires
        0 < object_id < old(objects)@.len(),
    ensures
        final(objects)@.len() > 0,
        views(final(objects)@)[0] == views(old(objects)@)[0],
        picked(
            object_id as int,
            *old(game),
            views(old(objects)@),
            *final(game),
            views(final(objects)@),
        ),
{
    if game.inventory.len() >= INVENTORY_SIZE as usize {
        game.messages.add_str("Your inventory is full", dark_red());
    } else {
        let item = objects.swap_remove(object_id);
        let mut line = String::from_str("You picked up an item: ");
        line.append(item.name.as_str());
        game.messages.add(line, light_grey());
        game.inventory.push(item);
        proof {
            assert(views(objects@) =~= views(old(objects)@).update(
                object_id as int,
                views(old(objects)@).last(),
            ).drop_last());
            assert(views(game.inventory@) =~= views(old(game).inventory@).push(
                views(old(objects)@)[object_id as int],
            ));
        }
    }
}

/// Whether `item` is equipment worn in `slot`.
pub open spec fn wears(item: ObjectView, slot: Slot) -> bool {
    item.equipment is Some && item.equipment->0.equipped && item.equipment->0.slot == slot
}

/// The first item of `inventory` that is worn in `slot`.
pub open spec fn equipped_in_slot(slot: Slot, inventory: Seq<ObjectView>) -> Option<int>
    decreases inventory.len(),
{
    if inventory.len() == 0 {
        None
    } else {
        match equipped_in_slot(slot, inventory.drop_last()) {
            Some(i) => Some(i),
            None => if wears(inventory.last(), slot) {
                Some(inventory.len() - 1)
            } else {
                None
            },
        }
    }
}

/// `equipped_in_slot` finds an item worn in the slot, with none before it, or
/// finds none where none is worn there.
pub proof fn lemma_equipped_in_slot(slot: Slot, inventory: Seq<ObjectView>)
    ensures
        match equipped_in_slot(slot, inventory) {
            Some(i) => {
                &&& 0 <= i < inventory.len()
                &&& wears(inventory[i], slot)
                &&& forall|j: int| 0 <= j < i ==> !wears(#[trigger] inventory[j], slot)
            },
            None => forall|j: int| 0 <= j < inventory.len() ==> !wears(#[trigger] inventory[j], slot),
        },
    decreases inventory.len(),
{
    if inventory.len() > 0 {
        let front = inventory.drop_last();
        lemma_equipped_in_slot(slot, front);
        assert forall|j: int| 0 <= j < front.len() implies front[j] == inventory[j] by {}
        match equipped_in_slot(slot, front) {
            Some(i) => {
                assert(wears(front[i], slot));
                assert forall|j: int| 0 <= j < i implies !wears(#[trigger] inventory[j], slot) by {
                    assert(!wears(front[j], slot));
                }
            },
            None => {
                assert forall|j: int| 0 <= j < front.len() implies !wears(
                    #[trigger] inventory[j],
                    slot,
                ) by {
                    assert(!wears(front[j], slot));
                }
            },
        }
    }
}

/// The first item of `inventory` that is worn in `slot`.
pub fn get_equipped_in_slot(slot: Slot, inventory: &[Object]) -> (found: Option<usize>)
    ensures
        match found {
            Some(i) => equipped_in_slot(slot, views(inventory@)) == Some(i as int),
            None => equipped_in_slot(slot, views(inventory@)) is None,
        },
{
    let ghost items = views(inventory@);
    let mut i: usize = 0;
    while i < inventory.len()
        invariant
            i <= inventory@.len(),
            items == views(inventory@),
            forall|j: int| 0 <= j < i ==> !wears(#[trigger] items[j], slot),
        decreases inventory@.len() - i,
    {
        let worn_here = match inventory[i].equipment {
            Some(equipment) => equipment.equipped && equipment.slot == slot,
            None => false,
        };
        if worn_here {
            assert(wears(items[i as int], slot));
            proof {
                lemma_equipped_in_slot(slot, items);
                match equipped_in_slot(slot, items) {
                    Some(first) => {
                        if first < i {
                            assert(!wears(items[first], slot));
                        } else if first > i {
                            assert(!wears(items[i as int], slot));
                        }
                    },
                    None => {
                        assert(!wears(items[i as int], slot));
                    },
                }
            }
            return Some(i);
        }
        i += 1;
    }
    proof {
        lemma_equipped_in_slot(slot, items);
        match equipped_in_slot(slot, items) {
            Some(first) => {
                assert(!wears(items[first], slot));
            },
            None => {},
        }
    }
    None
}

/// The inventory with every item that is worn in `slot` taken off.
pub open spec fn cleared_slot(inventory: Seq<ObjectView>, slot: Slot) -> Seq<ObjectView> {
    Seq::new(
        inventory.len(),
        |i: int|
            if wears(inventory[i], slot) {
                inventory[i].taken_off().0
            } else {
                inventory[i]
            },
    )
}

/// The log lines on taking off every item of `inventory` that is worn in
/// `slot`, in the order of the inventory.
pub open spec fn cleared_lines(inventory: Seq<ObjectView>, slot: Slot) -> Seq<LogLine>
    decreases inventory.len(),
{
    if inventory.len() == 0 {
        Seq::empty()
    } else {
        cleared_lines(inventory.drop_last(), slot) + if wears(inventory.last(), slot) {
            inventory.last().taken_off().1
        } else {
            Seq::empty()
        }
    }
}

/// What toggling the `id`-th item of `inventory` gives: the inventory
/// afterwards, the log lines and the outcome. What is no equipment cancels.
/// Otherwise every item worn in the slot of the toggled one is taken off;
/// then the toggled item is put on if it was not worn to begin with, and
/// asked to come off, which it has, if it was.
pub open spec fn toggle_outcome(inventory: Seq<ObjectView>, id: int) -> (
    Seq<ObjectView>,
    Seq<(Seq<char>, Color)>,
    UseResult,
) {
    match inventory[id].equipment {
        None => (inventory, Seq::empty(), UseResult::Cancelled),
        Some(equipment) => {
            let cleared = cleared_slot(inventory, equipment.slot);
            let toggled = if equipment.equipped {
                cleared[id].dequip_outcome()
            } else {
                cleared[id].equip_outcome()
            };
            (
                cleared.update(id, toggled.0),
                cleared_lines(inventory, equipment.slot) + toggled.1,
                UseResult::UsedAndKept,
            )
        },
    }
}

/// Whether at most one item of `inventory` is worn in `slot`.
pub open spec fn at_most_one_worn(inventory: Seq<ObjectView>, slot: Slot) -> bool {
    forall|i: int, j: int|
        0 <= i < inventory.len() && 0 <= j < inventory.len() && i != j ==> !(wears(
            #[trigger] inventory[i],
            slot,
        ) && wears(#[trigger] inventory[j], slot))
}

/// Whether no two items of `inventory` are worn in the same slot.
pub open spec fn slots_exclusive(inventory: Seq<ObjectView>) -> bool {
    forall|slot: Slot| #[trigger] at_most_one_worn(inventory, slot)
}

/// Toggling an item of equipment leaves at most one item worn in its slot,
/// whatever was worn before, and leaves what is worn in every other slot as
/// it was.
pub proof fn lemma_toggle_clears_slot(inventory: Seq<ObjectView>, id: int)
    requires
        0 <= id < inventory.len(),
        inventory[id].equipment is Some,
    ensures
        toggle_outcome(inventory, id).0.len() == inventory.len(),
        at_most_one_worn(toggle_outcome(inventory, id).0, inventory[id].equipment->0.slot),
        forall|i: int, slot: Slot|
            0 <= i < inventory.len() && slot != inventory[id].equipment->0.slot ==> wears(
                #[trigger] toggle_outcome(inventory, id).0[i],
                slot,
            ) == #[trigger] wears(inventory[i], slot),
{
    let after = toggle_outcome(inventory, id).0;
    let mine = inventory[id].equipment->0.slot;
    assert forall|i: int, j: int|
        0 <= i < after.len() && 0 <= j < after.len() && i != j implies !(wears(
        #[trigger] after[i],
        mine,
    ) && wears(#[trigger] after[j], mine)) by {
        if i != id {
            assert(!wears(after[i], mine));
        } else {
            assert(!wears(after[j], mine));
        }
    }
}

/// Toggling an item leaves at most one item worn in each slot, provided that
/// was so before.
pub proof fn lemma_toggle_keeps_slots_exclusive(inventory: Seq<ObjectView>, id: int)
    requires
        0 <= id < inventory.len(),
        slots_exclusive(inventory),
    ensures
        slots_exclusive(toggle_outcome(inventory, id).0),
{
    let after = toggle_outcome(inventory, id).0;
    match inventory[id].equipment {
        None => {},
        Some(equipment) => {
            lemma_toggle_clears_slot(inventory, id);
            assert forall|slot: Slot| #[trigger] at_most_one_worn(after, slot) by {
                if slot != equipment.slot {
                    assert(at_most_one_worn(inventory, slot));
                    assert forall|i: int, j: int|
                        0 <= i < after.len() && 0 <= j < after.len() && i != j implies !(wears(
                        #[trigger] after[i],
                        slot,
                    ) && wears(#[trigger] after[j], slot)) by {
                        assert(wears(after[i], slot) == wears(inventory[i], slot));
                        assert(wears(after[j], slot) == wears(inventory[j], slot));
                    }
                }
            }
        },
    }
}

/// Puts the `inventory_id`-th item of the inventory on or takes it off; see
/// `toggle_outcome`. Whatever was worn before, at most one item is worn in
/// the slot of the toggled one afterwards.
pub fn toggle_equipment(inventory_id: usize, game: &mut Game) -> (result: UseResult)
    requires
        inventory_id < old(game).inventory@.len(),
    ensures
        final(game).map == old(game).map,
        final(game).dungeon_level == old(game).dungeon_level,
        final(game).inventory@.len() == old(game).inventory@.len(),
        views(final(game).inventory@) == toggle_outcome(
            views(old(game).inventory@),
            inventory_id as int,
        ).0,
        final(game).messages@ == old(game).messages@ + toggle_outcome(
            views(old(game).inventory@),
            inventory_id as int,
        ).1,
        result == toggle_outcome(views(old(game).inventory@), inventory_id as int).2,
        old(game).inventory@[inventory_id as int].equipment is Some ==> at_most_one_worn(
            views(final(game).inventory@),
            old(game).inventory@[inventory_id as int].equipment->0.slot,
        ),
        slots_exclusive(views(old(game).inventory@)) ==> slots_exclusive(
            views(final(game).inventory@),
        ),
{
    let ghost before = views(game.inventory@);
    proof {
        if slots_exclusive(before) {
            lemma_toggle_keeps_slots_exclusive(before, inventory_id as int);
        }
        if before[inventory_id as int].equipment is Some {
            lemma_toggle_clears_slot(before, inventory_id as int);
        }
    }
    let equipment = match game.inventory[inventory_id].equipment {
        Some(equipment) => equipment,
        None => {
            assert(game.messages@ + Seq::<(Seq<char>, Color)>::empty() =~= game.messages@);
            return UseResult::Cancelled;
        },
    };
    let n = game.inventory.len();
    let mut i: usize = 0;
    proof {
        assert(before.take(0) =~= Seq::<ObjectView>::empty());
        assert(game.messages@ + cleared_lines(before.take(0), equipment.slot) =~= game.messages@);
    }
    while i < n
        invariant
            i <= n,
            n == game.inventory@.len(),
            n == before.len(),
            inventory_id < n,
            before == views(old(game).inventory@),
            game.map == old(game).map,
            game.dungeon_level == old(game).dungeon_level,
            game.messages@ == old(game).messages@ + cleared_lines(
                before.take(i as int),
                equipment.slot,
            ),
            forall|k: int|
                0 <= k < n ==> (#[trigger] views(game.inventory@)[k]) == if k < i && wears(
                    before[k],
                    equipment.slot,
                ) {
                    before[k].taken_off().0
                } else {
                    before[k]
                },
        decreases n - i,
    {
        let ghost so_far = views(game.inventory@);
        let ghost log = game.messages@;
        proof {
            assert(before.take(i + 1).drop_last() =~= before.take(i as int));
            assert(before.take(i + 1).last() == before[i as int]);
            assert(so_far[i as int] == before[i as int]);
        }
        let worn_here = match game.inventory[i].equipment {
            Some(worn) => worn.equipped && worn.slot == equipment.slot,
            None => false,
        };
        if worn_here {
            game.inventory[i].take_off(&mut game.messages);
        }
        proof {
            assert(game.messages@ =~= old(game).messages@ + cleared_lines(
                before.take(i + 1),
                equipment.slot,
            ));
            assert forall|k: int| 0 <= k < n implies (#[trigger] views(game.inventory@)[k])
                == if k < i + 1 && wears(before[k], equipment.slot) {
                before[k].taken_off().0
            } else {
                before[k]
            } by {
                if k != i {
                    assert(views(game.inventory@)[k] == so_far[k]);
                }
            }
        }
        i += 1;
    }
    proof {
        assert(before.take(n as int) =~= before);
        assert(views(game.inventory@) =~= cleared_slot(before, equipment.slot));
    }
    if equipment.equipped {
        game.inventory[inventory_id].dequip(&mut game.messages);
    } else {
        game.inventory[inventory_id].equip(&mut game.messages);
    }
    proof {
        let outcome = toggle_outcome(before, inventory_id as int);
        assert(views(game.inventory@) =~= outcome.0);
        assert(game.messages@ =~= old(game).messages@ + outcome.1);
    }
    UseResult::UsedAndKept
}

/// Whether the world went from `before` to `after` by dropping the `id`-th
/// item of the inventory: it has left the inventory and lies, as the last
/// entity of the level, where the player stands, taken off first if it is
/// equipment; and the log says so.
pub open spec fn dropped(
    id: int,
    before: Game,
    objects: Seq<ObjectView>,
    after: Game,
    after_objects: Seq<ObjectView>,
) -> bool {
    let item = views(before.inventory@)[id];
    let taken_off = if item.equipment is Some {
        item.dequip_outcome()
    } else {
        (item, Seq::empty())
    };
    &&& after.map == before.map
    &&& after.dungeon_level == before.dungeon_level
    &&& views(after.inventory@) == views(before.inventory@).remove(id)
    &&& after_objects == objects.push(
        ObjectView { x: objects[0].x, y: objects[0].y, ..taken_off.0 },
    )
    &&& after.messages@ == (before.messages@ + taken_off.1).push(drop_line(item.name))
}

/// Drops the `inventory_id`-th item of the inventory; see `dropped`.
pub fn drop_item(inventory_id: usize, game: &mut Game, objects: &mut Vec<Object>)
    requires
        inventory_id < old(game).inventory@.len(),
        old(objects)@.len() > 0,
    ensures
        final(objects)@.len() == old(objects)@.len() + 1,
        dropped(
            inventory_id as int,
            *old(game),
            views(old(objects)@),
            *final(game),
            views(final(objects)@),
        ),
{
    let mut item = game.inventory.remove(inventory_id);
    assert(views(game.inventory@) =~= views(old(game).inventory@).remove(inventory_id as int));
    if item.equipment.is_some() {
        item.dequip(&mut game.messages);
    } else {
        assert(game.messages@ + Seq::<(Seq<char>, Color)>::empty() =~= game.messages@);
    }
    item.set_pos(objects[PLAYER].x, objects[PLAYER].y);
    let mut line = String::from_str("Yout dropped ");
    line.append(item.name.as_str());
    game.messages.add(line, light_grey());
    let ghost dropped = item@;
    objects.push(item);
    assert(views(objects@) =~= views(old(objects)@).push(dropped));
}

/// What using an item does to the world: the entities and the inventory
/// afterwards, the lines added to the log, and the outcome for the item.
pub struct Cast {
    pub objects: Seq<ObjectView>,
    pub inventory: Seq<ObjectView>,
    pub lines: Seq<LogLine>,
    pub result: UseResult,
}

/// Whether the world went from `before` to `after` as `cast` says; the tiles
/// and the dungeon level stay as they are.
pub open spec fn casts(
    before: Game,
    after: Game,
    after_objects: Seq<ObjectView>,
    cast: Cast,
) -> bool {
    &&& after.map == before.map
    &&& after.dungeon_level == before.dungeon_level
    &&& after_objects == cast.objects
    &&& views(after.inventory@) == cast.inventory
    &&& after.messages@ == before.messages@ + cast.lines
}

/// A healing potion. It does nothing for a player who cannot fight, and says
/// so to one whose hit points are full; otherwise it restores `HEAL_AMOUNT`
/// hit points, up to the most the player can have, and is used up.
pub open spec fn heal_cast(inventory: Seq<ObjectView>, objects: Seq<ObjectView>) -> Cast {
    let player = objects[0];
    match player.fighter {
        None => Cast { objects, inventory, lines: Seq::empty(), result: UseResult::Cancelled },
        Some(fighter) => if fighter.hp == player.max_hp(inventory) {
            Cast {
                objects,
                inventory,
                lines: seq![("HP is already full"@, white())],
                result: UseResult::Cancelled,
            }
        } else {
            Cast {
                objects: objects.update(
                    0,
                    player.healed(HEAL_AMOUNT as int, player.max_hp(inventory)),
                ),
                inventory,
                lines: seq![("Your wounds heal"@, light_violet())],
                result: UseResult::UsedUp,
            }
        },
    }
}

/// Drinks a healing potion; see `heal_cast`.
pub fn cast_heal(game: &mut Game, objects: &mut [Object]) -> (result: UseResult)
    requires
        old(objects)@.len() > 0,
        old(objects)@[0].fighter is Some ==> fits_i32(
            views(old(objects)@)[0].max_hp(views(old(game).inventory@)),
        ),
    ensures
        final(objects)@.len() == old(objects)@.len(),
        casts(
            *old(game),
            *final(game),
            views(final(objects)@),
            heal_cast(views(old(game).inventory@), views(old(objects)@)),
        ),
        result == heal_cast(views(old(game).inventory@), views(old(objects)@)).result,
{
    if let Some(fighter) = objects[PLAYER].fighter {
        if fighter.hp == objects[PLAYER].max_hp(game) {
            game.messages.add_str("HP is already full", white());
            assert(game.messages@ =~= old(game).messages@ + seq![("HP is already full"@, white())]);
            return UseResult::Cancelled;
        } else {
            game.messages.add_str("Your wounds heal", light_violet());
            objects[PLAYER].heal(HEAL_AMOUNT, game);
            assert(game.messages@ =~= old(game).messages@ + seq![
                ("Your wounds heal"@, light_violet()),
            ]);
            assert(views(objects@) =~= heal_cast(
                views(old(game).inventory@),
                views(old(objects)@),
            ).objects);
            return UseResult::UsedUp;
        }
    }
    assert(game.messages@ + Seq::<LogLine>::empty() =~= game.messages@);
    UseResult::Cancelled
}

/// The log line on lightning striking something called `name`.
pub open spec fn lightning_line(name: Seq<char>) -> LogLine {
    (
        "A lightning bolt strikes "@ + name + " for "@ + int_text(LIGHTNING_DAMAGE as int)
            + " damage"@,
        light_blue(),
    )
}

/// A lightning scroll. It strikes the closest monster that the player sees
/// within `SPELL_RANGE` for `LIGHTNING_DAMAGE`, earns the player the
/// experience of a monster that dies of it, and is used up; with no such
/// monster it is cancelled.
pub open spec fn lightning_cast(
    fov: FovMap,
    inventory: Seq<ObjectView>,
    objects: Seq<ObjectView>,
) -> Cast {
    match spec_closest_monster(fov, objects, SPELL_RANGE as int) {
        Some(id) => {
            let struck = objects[id].hurt(LIGHTNING_DAMAGE as int);
            if struck.slain() {
                Cast {
                    objects: objects.update(id, struck.dead()).update(
                        0,
                        objects[0].with_xp(struck.fighter->0.xp as int),
                    ),
                    inventory,
                    lines: seq![lightning_line(objects[id].name), struck.death_line()],
                    result: UseResult::UsedUp,
                }
            } else {
                Cast {
                    objects: objects.update(id, struck),
                    inventory,
                    lines: seq![lightning_line(objects[id].name)],
                    result: UseResult::UsedUp,
                }
            }
        },
        None => Cast {
            objects,
            inventory,
            lines: seq![("There is no one to strike"@, white())],
            result: UseResult::Cancelled,
        },
    }
}

/// Whether a lightning bolt stays within the numbers of `i32`: the hit points
/// of the monster it strikes, and the experience of the player, who must be
/// able to fight to gain any, after a kill.
pub open spec fn lightning_safe(fov: FovMap, objects: Seq<ObjectView>) -> bool {
    match spec_closest_monster(fov, objects, SPELL_RANGE as int) {
        Some(id) => {
            let struck = objects[id].hurt(LIGHTNING_DAMAGE as int);
            &&& fits_i32(objects[id].fighter->0.hp - LIGHTNING_DAMAGE)
            &&& struck.slain() ==> objects[0].fighter is Some && fits_i32(
                objects[0].fighter->0.xp + struck.fighter->0.xp,
            )
        },
        None => true,
    }
}

/// Reads a lightning scroll; see `lightning_cast`.
pub fn cast_lightning(fov: &FovMap, game: &mut Game, objects: &mut [Object]) -> (result: UseResult)
    requires
        old(objects)@.len() > 0,
        lightning_safe(*fov, views(old(objects)@)),
    ensures
        final(objects)@.len() == old(objects)@.len(),
        casts(
            *old(game),
            *final(game),
            views(final(objects)@),
            lightning_cast(*fov, views(old(game).inventory@), views(old(objects)@)),
        ),
        result == lightning_cast(*fov, views(old(game).inventory@), views(old(objects)@)).result,
{
    let monster_id = closest_monster(fov, objects, SPELL_RANGE);
    if let Some(monster_id) = monster_id {
        let mut line = String::from_str("A lightning bolt strikes ");
        line.append(objects[monster_id].name.as_str());
        line.append(" for ");
        push_int(&mut line, LIGHTNING_DAMAGE as i64);
        line.append(" damage");
        game.messages.add(line, light_blue());
        let ghost struck = views(old(objects)@)[monster_id as int].hurt(LIGHTNING_DAMAGE as int);
        let reward = objects[monster_id].take_damage(LIGHTNING_DAMAGE, game);
        if let Some(xp) = reward {
            if let Some(fighter) = objects[PLAYER].fighter.as_mut() {
                fighter.xp += xp;
            }
            proof {
                assert(game.messages@ =~= old(game).messages@ + seq![
                    lightning_line(views(old(objects)@)[monster_id as int].name),
                    struck.death_line(),
                ]);
                assert(views(objects@) =~= views(old(objects)@).update(
                    monster_id as int,
                    struck.dead(),
                ).update(0, views(old(objects)@)[0].with_xp(struck.fighter->0.xp as int)));
            }
        } else {
            proof {
                assert(game.messages@ =~= old(game).messages@ + seq![
                    lightning_line(views(old(objects)@)[monster_id as int].name),
                ]);
                assert(views(objects@) =~= views(old(objects)@).update(monster_id as int, struck));
            }
        }
        UseResult::UsedUp
    } else {
        game.messages.add_str("There is no one to strike", white());
        assert(game.messages@ =~= old(game).messages@ + seq![
            ("There is no one to strike"@, white()),
        ]);
        UseResult::Cancelled
    }
}

/// A confusion scroll read at the `target`-th entity, or at nothing. The
/// target stumbles about for `CONFUSION_DURATION` turns and then behaves as
/// before, and the scroll is used up; with no target it is cancelled.
pub open spec fn confusion_cast(
    target: Option<int>,
    inventory: Seq<ObjectView>,
    objects: Seq<ObjectView>,
) -> Cast {
    match target {
        Some(id) => Cast {
            objects: objects.update(
                id,
                ObjectView {
                    ai: Some(
                        Ai::Confused {
                            previous_ai: Box::new(objects[id].ai->0),
                            num_turns: CONFUSION_DURATION,
                        },
                    ),
                    ..objects[id]
                },
            ),
            inventory,
            lines: seq![(objects[id].name + " gets confused"@, light_blue())],
            result: UseResult::UsedUp,
        },
        None => Cast {
            objects,
            inventory,
            lines: seq![("There is no one to confused"@, white())],
            result: UseResult::Cancelled,
        },
    }
}

/// Reads a confusion scroll at the chosen target; see `confusion_cast`. The
/// target must be an entity that acts on its own.
pub fn cast_confusion(target: Option<usize>, game: &mut Game, objects: &mut [Object]) -> (result:
    UseResult)
    requires
        target is Some ==> target->0 < old(objects)@.len() && old(objects)@[target->0 as int].ai
            is Some,
    ensures
        final(objects)@.len() == old(objects)@.len(),
        casts(
            *old(game),
            *final(game),
            views(final(objects)@),
            confusion_cast(
                match target {
                    Some(id) => Some(id as int),
                    None => None,
                },
                views(old(game).inventory@),
                views(old(objects)@),
            ),
        ),
        result == if target is Some {
            UseResult::UsedUp
        } else {
            UseResult::Cancelled
        },
{
    if let Some(monster_id) = target {
        let mut line = objects[monster_id].name.clone();
        line.append(" gets confused");
        game.messages.add(line, light_blue());
        if let Some(old_ai) = objects[monster_id].ai.take() {
            objects[monster_id].ai = Some(
                Ai::Confused { previous_ai: Box::new(old_ai), num_turns: CONFUSION_DURATION },
            );
        }
        proof {
            let cast = confusion_cast(
                Some(monster_id as int),
                views(old(game).inventory@),
                views(old(objects)@),
            );
            assert(game.messages@ =~= old(game).messages@ + cast.lines);
            assert(views(objects@) =~= cast.objects);
        }
        UseResult::UsedUp
    } else {
        game.messages.add_str("There is no one to confused", white());
        assert(game.messages@ =~= old(game).messages@ + seq![
            ("There is no one to confused"@, white()),
        ]);
        UseResult::Cancelled
    }
}

/// Whether a fireball at (`x`, `y`) burns `object`: it can fight and is no
/// more than half of `SPELL_RANGE` tiles away.
pub open spec fn in_blast(object: ObjectView, x: int, y: int) -> bool {
    object.fighter is Some && dist_sq(object.x as int, object.y as int, x, y) <= (SPELL_RANGE / 2)
        * (SPELL_RANGE / 2)
}

/// Whether a fireball at (`x`, `y`) kills `object`.
pub open spec fn blast_kills(object: ObjectView, x: int, y: int) -> bool {
    in_blast(object, x, y) && object.hurt(FIRE_DAMAGE as int).slain()
}

/// What a fireball at (`x`, `y`) leaves of `object`, experience aside.
pub open spec fn burnt(object: ObjectView, x: int, y: int) -> ObjectView {
    if blast_kills(object, x, y) {
        object.hurt(FIRE_DAMAGE as int).dead()
    } else if in_blast(object, x, y) {
        object.hurt(FIRE_DAMAGE as int)
    } else {
        object
    }
}

/// The log line on something called `name` being burnt.
pub open spec fn burn_line(name: Seq<char>) -> LogLine {
    (name + " is burnt by the infernal spell!"@, orange())
}

/// The log lines on what a fireball at (`x`, `y`) does to `object`.
pub open spec fn burn_lines(object: ObjectView, x: int, y: int) -> Seq<LogLine> {
    if blast_kills(object, x, y) {
        seq![burn_line(object.name), object.hurt(FIRE_DAMAGE as int).death_line()]
    } else if in_blast(object, x, y) {
        seq![burn_line(object.name)]
    } else {
        Seq::empty()
    }
}

/// The log lines on what a fireball at (`x`, `y`) does to `objects`, in their order.
pub open spec fn blast_lines(objects: Seq<ObjectView>, x: int, y: int) -> Seq<LogLine>
    decreases objects.len(),
{
    if objects.len() == 0 {
        Seq::empty()
    } else {
        blast_lines(objects.drop_last(), x, y) + burn_lines(objects.last(), x, y)
    }
}

/// The experience that a fireball at (`x`, `y`) earns the player: that of
/// every entity but the player that it kills.
pub open spec fn blast_xp(objects: Seq<ObjectView>, x: int, y: int) -> int
    decreases objects.len(),
{
    if objects.len() == 0 {
        0
    } else {
        blast_xp(objects.drop_last(), x, y) + if objects.len() - 1 != 0 && blast_kills(
            objects.last(),
            x,
            y,
        ) {
            objects.last().fighter->0.xp as int
        } else {
            0
        }
    }
}

/// The log line on a fireball going off.
pub open spec fn explosion_line() -> LogLine {
    ("The fireball explodes and burnes everything it can touch"@, orange())
}

/// A fireball scroll read at the tile `target`, or at nothing. Everything
/// that can fight within half of `SPELL_RANGE` of the tile takes
/// `FIRE_DAMAGE`, the player included; the player gains the experience of
/// whatever else dies; and the scroll is used up. With no tile it is cancelled.
pub open spec fn fireball_cast(
    target: Option<(int, int)>,
    inventory: Seq<ObjectView>,
    objects: Seq<ObjectView>,
) -> Cast {
    match target {
        Some((x, y)) => Cast {
            objects: Seq::new(
                objects.len(),
                |k: int|
                    if k == 0 {
                        burnt(objects[0], x, y).with_xp(blast_xp(objects, x, y))
                    } else {
                        burnt(objects[k], x, y)
                    },
            ),
            inventory,
            lines: seq![explosion_line()] + blast_lines(objects, x, y),
            result: UseResult::UsedUp,
        },
        None => Cast { objects, inventory, lines: Seq::empty(), result: UseResult::Cancelled },
    }
}

/// A fireball within the numbers of `i32` burns everything that can fight
/// within its blast, seen or not, friend or foe, the player included: each
/// loses `FIRE_DAMAGE` hit points, and what is alive and left without any
/// dies. Nothing else changes but the player's experience, and the scroll is
/// used up.
pub proof fn lemma_fireball_burns_the_blast(
    objects: Seq<ObjectView>,
    inventory: Seq<ObjectView>,
    x: int,
    y: int,
    i: int,
)
    requires
        fireball_safe(objects, x, y),
        0 <= i < objects.len(),
    ensures
        ({
            let cast = fireball_cast(Some((x, y)), inventory, objects);
            let left = objects[i].fighter->0.hp - FIRE_DAMAGE;
            &&& cast.result == UseResult::UsedUp
            &&& cast.inventory == inventory
            &&& cast.objects.len() == objects.len()
            &&& !in_blast(objects[i], x, y) && i != 0 ==> cast.objects[i] == objects[i]
            &&& !in_blast(objects[0], x, y) ==> cast.objects[0] == objects[0].with_xp(
                blast_xp(objects, x, y),
            )
            &&& in_blast(objects[i], x, y) && !(objects[i].alive && left <= 0) && i != 0
                ==> cast.objects[i] == (ObjectView {
                fighter: Some(Fighter { hp: left as i32, ..objects[i].fighter->0 }),
                ..objects[i]
            })
            &&& in_blast(objects[i], x, y) && objects[i].alive && left <= 0 && i != 0
                ==> cast.objects[i] == objects[i].hurt(FIRE_DAMAGE as int).dead()
                && !cast.objects[i].alive
            &&& in_blast(objects[0], x, y) ==> cast.objects[0].fighter->0.hp == objects[0].fighter->0.hp
                - FIRE_DAMAGE
        }),
{
}

/// A fireball within the numbers of `i32` earns the player the experience of
/// every other entity that it kills and of no other: the player's own death
/// earns nothing, and no other entity's experience changes.
pub proof fn lemma_fireball_credits_the_player(
    objects: Seq<ObjectView>,
    inventory: Seq<ObjectView>,
    x: int,
    y: int,
)
    requires
        fireball_safe(objects, x, y),
    ensures
        ({
            let cast = fireball_cast(Some((x, y)), inventory, objects);
            &&& cast.objects[0].fighter is Some
            &&& objects[0].fighter is Some
            &&& cast.objects[0].fighter->0.xp == objects[0].fighter->0.xp + blast_xp(objects, x, y)
            &&& forall|i: int|
                0 < i < objects.len() && (#[trigger] cast.objects[i]).fighter is Some
                    ==> objects[i].fighter is Some && cast.objects[i].fighter->0.xp
                    == objects[i].fighter->0.xp
            &&& blast_xp(objects.take(1), x, y) == 0
        }),
{
    assert(objects.take(1).drop_last() =~= Seq::<ObjectView>::empty());
    reveal_with_fuel(blast_xp, 2);
}

/// Whether a fireball at (`x`, `y`) stays within the numbers of `i32`: the
/// hit points of everything it burns, and the experience of the player, who
/// must be able to fight once the fire has passed.
pub open spec fn fireball_safe(objects: Seq<ObjectView>, x: int, y: int) -> bool {
    &&& objects.len() > 0
    &&& forall|k: int|
        0 <= k < objects.len() && in_blast(#[trigger] objects[k], x, y) ==> fits_i32(
            objects[k].fighter->0.hp - FIRE_DAMAGE,
        )
    &&& burnt(objects[0], x, y).fighter is Some
    &&& fits_i32(burnt(objects[0], x, y).fighter->0.xp + blast_xp(objects, x, y))
}

/// Reads a fireball scroll at the chosen tile; see `fireball_cast`.
pub fn cast_fireball(target: Option<(i32, i32)>, game: &mut Game, objects: &mut [Object]) -> (result:
    UseResult)
    requires
        target is Some ==> fireball_safe(
            views(old(objects)@),
            (target->0).0 as int,
            (target->0).1 as int,
        ),
    ensures
        final(objects)@.len() == old(objects)@.len(),
        casts(
            *old(game),
            *final(game),
            views(final(objects)@),
            fireball_cast(
                match target {
                    Some(tile) => Some((tile.0 as int, tile.1 as int)),
                    None => None,
                },
                views(old(game).inventory@),
                views(old(objects)@),
            ),
        ),
        result == if target is Some {
            UseResult::UsedUp
        } else {
            UseResult::Cancelled
        },
{
    let (x, y) = match target {
        Some(tile_pos) => tile_pos,
        None => {
            assert(game.messages@ + Seq::<LogLine>::empty() =~= game.messages@);
            return UseResult::Cancelled;
        },
    };
    game.messages.add_str("The fireball explodes and burnes everything it can touch", orange());
    let ghost before = views(objects@);
    let mut gained_xp: i128 = 0;
    let mut id: usize = 0;
    proof {
        assert(before.take(0) =~= Seq::<ObjectView>::empty());
        assert(game.messages@ =~= old(game).messages@ + seq![explosion_line()] + blast_lines(
            before.take(0),
            x as int,
            y as int,
        ));
    }
    while id < objects.len()
        invariant
            id <= objects@.len(),
            objects@.len() == before.len(),
            before == views(old(objects)@),
            fireball_safe(before, x as int, y as int),
            game.map == old(game).map,
            game.dungeon_level == old(game).dungeon_level,
            game.inventory == old(game).inventory,
            game.messages@ == old(game).messages@ + seq![explosion_line()] + blast_lines(
                before.take(id as int),
                x as int,
                y as int,
            ),
            gained_xp == blast_xp(before.take(id as int), x as int, y as int),
            -0x8000_0000 * id <= gained_xp <= 0x8000_0000 * id,
            forall|k: int|
                0 <= k < before.len() ==> (#[trigger] views(objects@)[k]) == if k < id {
                    burnt(before[k], x as int, y as int)
                } else {
                    before[k]
                },
        decreases objects@.len() - id,
    {
        let ghost log = game.messages@;
        let ghost so_far = views(objects@);
        proof {
            assert(before.take(id + 1).drop_last() =~= before.take(id as int));
            assert(before.take(id + 1).last() == before[id as int]);
            assert(so_far[id as int] == before[id as int]);
        }
        let near = objects[id].distance_sq(x, y) <= ((SPELL_RANGE / 2) * (SPELL_RANGE / 2)) as i128;
        if near && objects[id].fighter.is_some() {
            assert(in_blast(before[id as int], x as int, y as int));
            let mut line = objects[id].name.clone();
            line.append(" is burnt by the infernal spell!");
            game.messages.add(line, orange());
            let reward = objects[id].take_damage(FIRE_DAMAGE, game);
            if let Some(xp) = reward {
                if id != PLAYER {
                    gained_xp += xp as i128;
                }
            }
            proof {
                assert(game.messages@ =~= log + burn_lines(before[id as int], x as int, y as int));
            }
        } else {
            proof {
                assert(game.messages@ =~= log + burn_lines(before[id as int], x as int, y as int));
            }
        }
        proof {
            assert(game.messages@ =~= old(game).messages@ + seq![explosion_line()] + blast_lines(
                before.take(id + 1),
                x as int,
                y as int,
            ));
            assert forall|k: int| 0 <= k < before.len() implies (#[trigger] views(objects@)[k])
                == if k < id + 1 {
                burnt(before[k], x as int, y as int)
            } else {
                before[k]
            } by {
                if k != id {
                    assert(views(objects@)[k] == so_far[k]);
                }
            }
        }
        id += 1;
    }
    proof {
        assert(before.take(id as int) =~= before);
    }
    let ghost burnt_all = views(objects@);
    if let Some(fighter) = objects[PLAYER].fighter.as_mut() {
        fighter.xp = (fighter.xp as i128 + gained_xp) as i32;
    }
    proof {
        let cast = fireball_cast(
            Some((x as int, y as int)),
            views(old(game).inventory@),
            before,
        );
        assert(views(objects@) =~= burnt_all.update(
            0,
            burnt_all[0].with_xp(blast_xp(before, x as int, y as int)),
        ));
        assert(views(objects@) =~= cast.objects);
        assert(game.messages@ =~= old(game).messages@ + cast.lines);
    }
    UseResult::UsedUp
}

/// What is to be done once an item has been used: a used-up item leaves the
/// inventory, and a cancelled use is noted in the log.
pub open spec fn settled(cast: Cast, inventory_id: int) -> Cast {
    match cast.result {
        UseResult::UsedUp => Cast { inventory: cast.inventory.remove(inventory_id), ..cast },
        UseResult::Cancelled => Cast { lines: cast.lines.push(("Cancelled"@, white())), ..cast },
        UseResult::UsedAndKept => cast,
    }
}

/// Settles the use of the `inventory_id`-th item; see `settled`.
fn settle(result: UseResult, inventory_id: usize, game: &mut Game)
    requires
        inventory_id < old(game).inventory@.len(),
    ensures
        final(game).map == old(game).map,
        final(game).dungeon_level == old(game).dungeon_level,
        views(final(game).inventory@) == match result {
            UseResult::UsedUp => views(old(game).inventory@).remove(inventory_id as int),
            _ => views(old(game).inventory@),
        },
        final(game).messages@ == match result {
            UseResult::Cancelled => old(game).messages@.push(("Cancelled"@, white())),
            _ => old(game).messages@,
        },
{
    match result {
        UseResult::UsedUp => {
            game.inventory.remove(inventory_id);
            assert(views(game.inventory@) =~= views(old(game).inventory@).remove(
                inventory_id as int,
            ));
        },
        UseResult::Cancelled => {
            game.messages.add_str("Cancelled", white());
        },
        UseResult::UsedAndKept => {},
    }
}

/// What remains to be done when an item has been taken in hand.
#[derive(Clone, Copy, Debug, PartialEq, Eq, Structural)]
pub enum UseStep {
    /// Nothing: the item has been used, or refused.
    Done,
    /// A monster is to be chosen, within `SPELL_RANGE` of the player, and
    /// handed to `use_item_on_monster`.
    ChooseMonster,
    /// A tile is to be chosen, at any distance, and handed to `use_item_on_tile`.
    ChooseTile,
}

/// What taking the `id`-th item of the inventory in hand does. What is no
/// item is refused. Potions, lightning and equipment take effect at once and
/// are settled. Scrolls of confusion and of fire ask for a target in the log
/// and wait for it.
pub open spec fn use_outcome(
    id: int,
    fov: FovMap,
    inventory: Seq<ObjectView>,
    objects: Seq<ObjectView>,
) -> (Cast, UseStep) {
    let idle = Cast { objects, inventory, lines: Seq::empty(), result: UseResult::UsedAndKept };
    match inventory[id].item {
        None => (
            Cast { lines: seq![(inventory[id].name + " cannot be used"@, white())], ..idle },
            UseStep::Done,
        ),
        Some(Item::Heal) => (settled(heal_cast(inventory, objects), id), UseStep::Done),
        Some(Item::Lightning) => (
            settled(lightning_cast(fov, inventory, objects), id),
            UseStep::Done,
        ),
        Some(Item::Confusion) => (
            Cast { lines: seq![("Choose an enemy to confuse"@, light_grey())], ..idle },
            UseStep::ChooseMonster,
        ),
        Some(Item::Fireball) => (
            Cast { lines: seq![("Choose a tile to cast infernal flames to"@, light_grey())], ..idle },
            UseStep::ChooseTile,
        ),
        Some(Item::Sword) | Some(Item::Shield) => {
            let toggled = toggle_outcome(inventory, id);
            (
                settled(
                    Cast { objects, inventory: toggled.0, lines: toggled.1, result: toggled.2 },
                    id,
                ),
                UseStep::Done,
            )
        },
    }
}

/// Whether taking the `id`-th item of the inventory in hand stays within the
/// numbers of `i32`: a potion needs the player's full hit points to be such a
/// number, lightning what `lightning_safe` says.
pub open spec fn use_safe(
    id: int,
    fov: FovMap,
    inventory: Seq<ObjectView>,
    objects: Seq<ObjectView>,
) -> bool {
    match inventory[id].item {
        Some(Item::Heal) => objects[0].fighter is Some ==> fits_i32(objects[0].max_hp(inventory)),
        Some(Item::Lightning) => lightning_safe(fov, objects),
        _ => true,
    }
}

/// Takes the `inventory_id`-th item of the inventory in hand; see
/// `use_outcome`. Where the item needs a target, the caller has it chosen and
/// goes on with `use_item_on_monster` or `use_item_on_tile`.
pub fn use_item(inventory_id: usize, fov: &FovMap, game: &mut Game, objects: &mut [Object]) -> (step:
    UseStep)
    requires
        inventory_id < old(game).inventory@.len(),
        old(objects)@.len() > 0,
        use_safe(inventory_id as int, *fov, views(old(game).inventory@), views(old(objects)@)),
    ensures
        final(objects)@.len() == old(objects)@.len(),
        casts(
            *old(game),
            *final(game),
            views(final(objects)@),
            use_outcome(
                inventory_id as int,
                *fov,
                views(old(game).inventory@),
                views(old(objects)@),
            ).0,
        ),
        step == use_outcome(
            inventory_id as int,
            *fov,
            views(old(game).inventory@),
            views(old(objects)@),
        ).1,
{
    let ghost inventory = views(game.inventory@);
    let ghost log = game.messages@;
    let kind = game.inventory[inventory_id].item;
    match kind {
        None => {
            let mut line = game.inventory[inventory_id].name.clone();
            line.append(" cannot be used");
            game.messages.add(line, white());
            assert(game.messages@ =~= log + seq![
                (inventory[inventory_id as int].name + " cannot be used"@, white()),
            ]);
            UseStep::Done
        },
        Some(Item::Heal) => {
            let result = cast_heal(game, objects);
            let ghost cast_log = game.messages@;
            settle(result, inventory_id, game);
            assert(game.messages@ =~= log + settled(
                heal_cast(inventory, views(old(objects)@)),
                inventory_id as int,
            ).lines);
            UseStep::Done
        },
        Some(Item::Lightning) => {
            let result = cast_lightning(fov, game, objects);
            settle(result, inventory_id, game);
            assert(game.messages@ =~= log + settled(
                lightning_cast(*fov, inventory, views(old(objects)@)),
                inventory_id as int,
            ).lines);
            UseStep::Done
        },
        Some(Item::Confusion) => {
            game.messages.add_str("Choose an enemy to confuse", light_grey());
            assert(game.messages@ =~= log + seq![("Choose an enemy to confuse"@, light_grey())]);
            UseStep::ChooseMonster
        },
        Some(Item::Fireball) => {
            game.messages.add_str("Choose a tile to cast infernal flames to", light_grey());
            assert(game.messages@ =~= log + seq![
                ("Choose a tile to cast infernal flames to"@, light_grey()),
            ]);
            UseStep::ChooseTile
        },
        Some(Item::Sword) | Some(Item::Shield) => {
            let result = toggle_equipment(inventory_id, game);
            settle(result, inventory_id, game);
            proof {
                let toggled = toggle_outcome(inventory, inventory_id as int);
                assert(game.messages@ =~= log + settled(
                    Cast {
                        objects: views(old(objects)@),
                        inventory: toggled.0,
                        lines: toggled.1,
                        result: toggled.2,
                    },
                    inventory_id as int,
                ).lines);
            }
            UseStep::Done
        },
    }
}

/// Goes on with a scroll of confusion, the `inventory_id`-th item of the
/// inventory, once a target has been chosen or the choice declined: the
/// scroll is read at the target and settled.
pub fn use_item_on_monster(
    inventory_id: usize,
    target: Option<usize>,
    game: &mut Game,
    objects: &mut [Object],
)
    requires
        inventory_id < old(game).inventory@.len(),
        target is Some ==> target->0 < old(objects)@.len() && old(objects)@[target->0 as int].ai
            is Some,
    ensures
        final(objects)@.len() == old(objects)@.len(),
        casts(
            *old(game),
            *final(game),
            views(final(objects)@),
            settled(
                confusion_cast(
                    match target {
                        Some(id) => Some(id as int),
                        None => None,
                    },
                    views(old(game).inventory@),
                    views(old(objects)@),
                ),
                inventory_id as int,
            ),
        ),
{
    let ghost log = game.messages@;
    let result = cast_confusion(target, game, objects);
    settle(result, inventory_id, game);
    assert(game.messages@ =~= log + settled(
        confusion_cast(
            match target {
                Some(id) => Some(id as int),
                None => None,
            },
            views(old(game).inventory@),
            views(old(objects)@),
        ),
        inventory_id as int,
    ).lines);
}

/// Goes on with a scroll of fire, the `inventory_id`-th item of the
/// inventory, once a tile has been chosen or the choice declined: the scroll
/// is read at the tile and settled.
pub fn use_item_on_tile(
    inventory_id: usize,
    target: Option<(i32, i32)>,
    game: &mut Game,
    objects: &mut [Object],
)
    requires
        inventory_id < old(game).inventory@.len(),
        target is Some ==> fireball_safe(
            views(old(objects)@),
            (target->0).0 as int,
            (target->0).1 as int,
        ),
    ensures
        final(objects)@.len() == old(objects)@.len(),
        casts(
            *old(game),
            *final(game),
            views(final(objects)@),
            settled(
                fireball_cast(
                    match target {
                        Some(tile) => Some((tile.0 as int, tile.1 as int)),
                        None => None,
                    },
                    views(old(game).inventory@),
                    views(old(objects)@),
                ),
                inventory_id as int,
            ),
        ),
{
    let ghost log = game.messages@;
    let result = cast_fireball(target, game, objects);
    settle(result, inventory_id, game);
    assert(game.messages@ =~= log + settled(
        fireball_cast(
            match target {
                Some(tile) => Some((tile.0 as int, tile.1 as int)),
                None => None,
            },
            views(old(game).inventory@),
            views(old(objects)@),
        ),
        inventory_id as int,
    ).lines);
}

} // verus!
