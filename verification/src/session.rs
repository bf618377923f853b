//! When a game is fit to be played on: a state from which every rule can be
//! applied without leaving the level or the numbers of `i32`. The rules ask
//! for less, each for what it needs; this is one test that is enough for all.
use vstd::prelude::*;
use crate::ai::has_room_to_stumble;
use crate::equipment::{total_bonus, Equipment, Stat};
use crate::fighter::{DeathCallback, Fighter};
use crate::fov::FovMap;
use crate::game::{
    grid_wf, handle_keys, in_bounds, intent_done, intent_safe, level_up,
    level_up_due, level_up_safe, leveled_up, level_up_line, monsters_safe, only_logged,
    spec_decode_key, threat_safe, tile_at, turns_done, world_turn, Game, Grid, Intent,
    PlayerAction, Request, MAP_HEIGHT, MAP_WIDTH, PLAYER,
};
use crate::input::Key;
use crate::item::{
    blast_xp, casts, confusion_cast, drop_item, dropped, fireball_cast, fireball_safe, in_blast, settled,
    use_item, use_item_on_monster, use_item_on_tile, use_outcome, use_safe, Item, UseStep,
    FIRE_DAMAGE, INVENTORY_SIZE, SPELL_RANGE,
};
use crate::object::{
    first_fighter_at, fits_i32, is_closest_monster, move_attack_safe, spec_closest_monster, views,
    worn, Object, ObjectView,
};
use crate::room::{
    generated, in_room, is_spawned_monster, item_chance, lemma_center_inside, lemma_edge_is_rock,
    room_fits, spawned_in, spec_item, spec_monster, MonsterKind, Rect,
};
use crate::input::Mouse;
use crate::render::{draw_safe, framed, looked_from, render_all, Frame};

verus! {

/// The largest magnitude of a stat, of hit points, of experience, of a bonus
/// and of a level in a game fit to be played on.
pub const STAT_LIMIT: i32 = 1_000_000;

/// The largest number of entities on a level in a game fit to be played on.
pub const ENTITY_LIMIT: usize = 1_000;

/// Whether `value` is within `STAT_LIMIT` of zero.
pub open spec fn small(value: int) -> bool {
    -STAT_LIMIT <= value <= STAT_LIMIT
}

/// Whether every number of `fighter` is small.
pub open spec fn fighter_small(fighter: Fighter) -> bool {
    &&& small(fighter.base_max_hp as int)
    &&& small(fighter.hp as int)
    &&& small(fighter.base_defense as int)
    &&& small(fighter.base_power as int)
    &&& small(fighter.xp as int)
}

/// Whether every bonus of `equipment` is small.
pub open spec fn gear_small(equipment: Equipment) -> bool {
    &&& small(equipment.max_hp_bonus as int)
    &&& small(equipment.power_bonus as int)
    &&& small(equipment.defense_bonus as int)
}

/// Whether the outermost columns and rows of `map` are rock.
pub open spec fn walled_in(map: Grid) -> bool {
    forall|x: int, y: int|
        in_bounds(x, y) && (x == 0 || x == MAP_WIDTH - 1 || y == 0 || y == MAP_HEIGHT - 1)
            ==> (#[trigger] tile_at(map, x, y)).blocked
}

/// Whether (`x`, `y`) keeps clear of the edge of the level.
pub open spec fn inside_level(x: int, y: int) -> bool {
    1 <= x < MAP_WIDTH - 1 && 1 <= y < MAP_HEIGHT - 1
}

/// Whether the entity `o` is fit for play: what it has of numbers is small,
/// what acts can fight and keeps clear of the level's edge, and what stays in
/// view stands on a tile of the level.
pub open spec fn entity_fit(o: ObjectView) -> bool {
    &&& small(o.level as int)
    &&& o.fighter is Some ==> fighter_small(o.fighter->0)
    &&& o.ai is Some ==> o.fighter is Some && inside_level(o.x as int, o.y as int)
    &&& o.always_visible ==> in_bounds(o.x as int, o.y as int)
}

/// Whether the item `o` of the inventory is fit for play: its bonuses are small.
pub open spec fn item_fit(o: ObjectView) -> bool {
    o.equipment is Some ==> gear_small(o.equipment->0)
}

/// Whether the game is fit to be played on. The level has its size and rock
/// all around, and the field of view has the size of the level. The
/// inventory holds no more than it may, and the dungeon has a level below.
/// There are entities, no more than `ENTITY_LIMIT`, each fit for play; the
/// first is the player, who can fight, dies as a player does, does not act
/// on its own, is no item, and keeps clear of the level's edge.
pub open spec fn playable(fov: FovMap, game: Game, objects: Seq<ObjectView>) -> bool {
    &&& grid_wf(game.map)
    &&& walled_in(game.map)
    &&& fov.has_size(MAP_WIDTH as int, MAP_HEIGHT as int)
    &&& game.inventory@.len() <= INVENTORY_SIZE
    &&& game.dungeon_level < u32::MAX
    &&& forall|i: int| 0 <= i < game.inventory@.len() ==> item_fit(#[trigger] views(game.inventory@)[i])
    &&& 0 < objects.len() <= ENTITY_LIMIT
    &&& forall|k: int| 0 <= k < objects.len() ==> entity_fit(#[trigger] objects[k])
    &&& objects[0].fighter is Some
    &&& objects[0].fighter->0.on_death == DeathCallback::Player
    &&& objects[0].ai is None
    &&& objects[0].item is None
    &&& inside_level(objects[0].x as int, objects[0].y as int)
}

/// Whether `value` is within `STAT_LIMIT` of zero.
fn is_small(value: i32) -> (b: bool)
    ensures
        b == small(value as int),
{
    -STAT_LIMIT <= value && value <= STAT_LIMIT
}

/// Whether the entity `o` is fit for play; see `entity_fit`.
fn is_entity_fit(o: &Object) -> (b: bool)
    ensures
        b == entity_fit(o@),
{
    let numbers = match o.fighter {
        Some(f) => is_small(f.base_max_hp) && is_small(f.hp) && is_small(f.base_defense)
            && is_small(f.base_power) && is_small(f.xp),
        None => true,
    };
    let acting = if o.ai.is_some() {
        o.fighter.is_some() && 1 <= o.x && o.x < MAP_WIDTH - 1 && 1 <= o.y && o.y < MAP_HEIGHT - 1
    } else {
        true
    };
    let in_view = if o.always_visible {
        0 <= o.x && o.x < MAP_WIDTH && 0 <= o.y && o.y < MAP_HEIGHT
    } else {
        true
    };
    is_small(o.level) && numbers && acting && in_view
}

/// Whether both ends of column `x` of `map` are rock.
pub open spec fn column_capped(map: Grid, x: int) -> bool {
    tile_at(map, x, 0).blocked && tile_at(map, x, MAP_HEIGHT - 1).blocked
}

/// Whether both ends of row `y` of `map` are rock.
pub open spec fn row_capped(map: Grid, y: int) -> bool {
    tile_at(map, 0, y).blocked && tile_at(map, MAP_WIDTH - 1, y).blocked
}

/// Whether `map` has the size of a level and rock all around.
fn is_walled_level(map: &Grid) -> (b: bool)
    ensures
        b == (grid_wf(*map) && walled_in(*map)),
{
    if map.len() != MAP_WIDTH as usize {
        return false;
    }
    let mut x: usize = 0;
    while x < MAP_WIDTH as usize
        invariant
            x <= MAP_WIDTH,
            map@.len() == MAP_WIDTH,
            forall|i: int| 0 <= i < x ==> (#[trigger] map@[i])@.len() == MAP_HEIGHT,
        decreases MAP_WIDTH - x,
    {
        if map[x].len() != MAP_HEIGHT as usize {
            return false;
        }
        x += 1;
    }
    let mut x: usize = 0;
    while x < MAP_WIDTH as usize
        invariant
            x <= MAP_WIDTH,
            grid_wf(*map),
            forall|i: int| 0 <= i < x ==> #[trigger] column_capped(*map, i),
        decreases MAP_WIDTH - x,
    {
        if !map[x][0].blocked || !map[x][MAP_HEIGHT as usize - 1].blocked {
            assert(in_bounds(x as int, 0) && in_bounds(x as int, MAP_HEIGHT - 1));
            assert(!tile_at(*map, x as int, 0).blocked || !tile_at(
                *map,
                x as int,
                MAP_HEIGHT - 1,
            ).blocked);
            return false;
        }
        assert(column_capped(*map, x as int));
        x += 1;
    }
    let mut y: usize = 0;
    while y < MAP_HEIGHT as usize
        invariant
            y <= MAP_HEIGHT,
            grid_wf(*map),
            forall|i: int| 0 <= i < MAP_WIDTH ==> #[trigger] column_capped(*map, i),
            forall|j: int| 0 <= j < y ==> #[trigger] row_capped(*map, j),
        decreases MAP_HEIGHT - y,
    {
        if !map[0][y].blocked || !map[MAP_WIDTH as usize - 1][y].blocked {
            assert(in_bounds(0, y as int) && in_bounds(MAP_WIDTH - 1, y as int));
            assert(!tile_at(*map, 0, y as int).blocked || !tile_at(
                *map,
                MAP_WIDTH - 1,
                y as int,
            ).blocked);
            return false;
        }
        assert(row_capped(*map, y as int));
        y += 1;
    }
    assert forall|x: int, y: int|
        in_bounds(x, y) && (x == 0 || x == MAP_WIDTH - 1 || y == 0 || y == MAP_HEIGHT
            - 1) implies (#[trigger] tile_at(*map, x, y)).blocked by {
        assert(column_capped(*map, x));
        assert(row_capped(*map, y));
    }
    true
}

/// Whether the game is fit to be played on; see `playable`.
pub fn is_playable(fov: &FovMap, game: &Game, objects: &[Object]) -> (fit: bool)
    ensures
        fit == playable(*fov, *game, views(objects@)),
{
    if !is_walled_level(&game.map) {
        return false;
    }
    if fov.cells.len() != MAP_WIDTH as usize {
        return false;
    }
    let mut x: usize = 0;
    while x < MAP_WIDTH as usize
        invariant
            x <= MAP_WIDTH,
            fov.cells@.len() == MAP_WIDTH,
            forall|i: int| 0 <= i < x ==> (#[trigger] fov.cells@[i])@.len() == MAP_HEIGHT,
        decreases MAP_WIDTH - x,
    {
        if fov.cells[x].len() != MAP_HEIGHT as usize {
            return false;
        }
        x += 1;
    }
    if game.inventory.len() > INVENTORY_SIZE as usize || game.dungeon_level == u32::MAX {
        return false;
    }
    let mut i: usize = 0;
    while i < game.inventory.len()
        invariant
            i <= game.inventory@.len(),
            forall|j: int| 0 <= j < i ==> item_fit(#[trigger] views(game.inventory@)[j]),
        decreases game.inventory@.len() - i,
    {
        let fit = match game.inventory[i].equipment {
            Some(e) => is_small(e.max_hp_bonus) && is_small(e.power_bonus) && is_small(
                e.defense_bonus,
            ),
            None => true,
        };
        if !fit {
            assert(!item_fit(views(game.inventory@)[i as int]));
            return false;
        }
        i += 1;
    }
    if objects.len() == 0 || objects.len() > ENTITY_LIMIT {
        return false;
    }
    let mut k: usize = 0;
    while k < objects.len()
        invariant
            k <= objects@.len(),
            forall|j: int| 0 <= j < k ==> entity_fit(#[trigger] views(objects@)[j]),
        decreases objects@.len() - k,
    {
        if !is_entity_fit(&objects[k]) {
            assert(!entity_fit(views(objects@)[k as int]));
            return false;
        }
        k += 1;
    }
    let player = &objects[PLAYER];
    let fights_as_player = match player.fighter {
        Some(f) => match f.on_death {
            DeathCallback::Player => true,
            DeathCallback::Monster => false,
        },
        None => false,
    };
    fights_as_player && player.ai.is_none() && player.item.is_none() && 1 <= player.x && player.x < MAP_WIDTH - 1 && 1
        <= player.y && player.y < MAP_HEIGHT - 1
}

/// The bonuses of worn gear add up to no more than the limit for each piece
/// of the inventory.
pub proof fn lemma_bonus_small(inventory: Seq<ObjectView>, stat: Stat)
    requires
        forall|i: int| 0 <= i < inventory.len() ==> item_fit(#[trigger] inventory[i]),
    ensures
        -STAT_LIMIT * inventory.len() <= total_bonus(worn(inventory), stat) <= STAT_LIMIT
            * inventory.len(),
    decreases inventory.len(),
{
    if inventory.len() > 0 {
        let front = inventory.drop_last();
        assert forall|i: int| 0 <= i < front.len() implies item_fit(#[trigger] front[i]) by {
            assert(front[i] == inventory[i]);
        }
        lemma_bonus_small(front, stat);
        assert(item_fit(inventory[inventory.len() - 1]));
        match inventory.last().equipment {
            Some(equipment) => {
                if equipment.equipped {
                    assert(worn(inventory).drop_last() =~= worn(front));
                }
            },
            None => {},
        }
    }
}

/// In a game fit to be played on, the stats of every entity that is fit for
/// play are numbers of `i32`, gear counted in, and so is the difference of
/// any two of them.
pub proof fn lemma_stats_fit(game: Game, o: ObjectView, stat: Stat)
    requires
        game.inventory@.len() <= INVENTORY_SIZE,
        forall|i: int| 0 <= i < game.inventory@.len() ==> item_fit(#[trigger] views(game.inventory@)[i]),
        entity_fit(o),
    ensures
        -27 * STAT_LIMIT <= o.stat(stat, views(game.inventory@)) <= 27 * STAT_LIMIT,
{
    lemma_bonus_small(views(game.inventory@), stat);
}

/// The experience that a fireball earns is no more than the limit for each entity.
pub proof fn lemma_blast_xp_small(objects: Seq<ObjectView>, x: int, y: int)
    requires
        forall|k: int| 0 <= k < objects.len() ==> entity_fit(#[trigger] objects[k]),
    ensures
        -STAT_LIMIT * objects.len() <= blast_xp(objects, x, y) <= STAT_LIMIT * objects.len(),
    decreases objects.len(),
{
    if objects.len() > 0 {
        let front = objects.drop_last();
        assert forall|k: int| 0 <= k < front.len() implies entity_fit(#[trigger] front[k]) by {
            assert(front[k] == objects[k]);
        }
        lemma_blast_xp_small(front, x, y);
        assert(entity_fit(objects[objects.len() - 1]));
    }
}

/// A game fit to be played on admits every step of the player to a tile next
/// to its own.
pub proof fn lemma_playable_moves(fov: FovMap, game: Game, objects: Seq<ObjectView>, dx: int, dy: int)
    requires
        playable(fov, game, objects),
        -1 <= dx <= 1,
        -1 <= dy <= 1,
        dx != 0 || dy != 0,
    ensures
        move_attack_safe(dx, dy, views(game.inventory@), objects),
{
    let inventory = views(game.inventory@);
    let x = objects[0].x + dx;
    let y = objects[0].y + dy;
    assert(entity_fit(objects[0]));
    lemma_stats_fit(game, objects[0], Stat::Power);
    assert forall|id: int| first_fighter_at(objects, x, y, id) implies id != 0
        && objects[0].can_attack(#[trigger] objects[id], inventory) by {
        assert(entity_fit(objects[id]));
        lemma_stats_fit(game, objects[id], Stat::Defense);
    }
}

/// A game fit to be played on admits the turn of every entity.
pub proof fn lemma_playable_monsters(fov: FovMap, game: Game, objects: Seq<ObjectView>)
    requires
        playable(fov, game, objects),
    ensures
        monsters_safe(views(game.inventory@), objects),
{
    let inventory = views(game.inventory@);
    assert(entity_fit(objects[0]));
    lemma_stats_fit(game, objects[0], Stat::Defense);
    assert forall|k: int| 0 < k < objects.len() && (#[trigger] objects[k]).ai is Some implies has_room_to_stumble(
        objects,
        k,
    ) && threat_safe(objects[k], objects[0], inventory) by {
        assert(entity_fit(objects[k]));
        lemma_stats_fit(game, objects[k], Stat::Power);
    }
}

/// A game fit to be played on admits whatever a key may ask for.
pub proof fn lemma_playable_keys(fov: FovMap, game: Game, objects: Seq<ObjectView>, key: Key)
    requires
        playable(fov, game, objects),
    ensures
        intent_safe(spec_decode_key(key, objects[0].alive), fov, game, objects),
{
    assert(entity_fit(objects[0]));
    lemma_stats_fit(game, objects[0], Stat::MaxHp);
    match spec_decode_key(key, objects[0].alive) {
        Intent::Move(dx, dy) => {
            lemma_playable_moves(fov, game, objects, dx as int, dy as int);
        },
        _ => {},
    }
}

/// A game fit to be played on admits the use of every item of the inventory.
pub proof fn lemma_playable_use(fov: FovMap, game: Game, objects: Seq<ObjectView>, id: int)
    requires
        playable(fov, game, objects),
        0 <= id < game.inventory@.len(),
    ensures
        use_safe(id, fov, views(game.inventory@), objects),
{
    assert(entity_fit(objects[0]));
    lemma_stats_fit(game, objects[0], Stat::MaxHp);
    match spec_closest_monster(fov, objects, SPELL_RANGE as int) {
        Some(target) => {
            assert(is_closest_monster(fov, objects, SPELL_RANGE as int, target));
            assert(entity_fit(objects[target]));
        },
        None => {},
    }
}

/// A game fit to be played on admits a fireball at any tile.
pub proof fn lemma_playable_fireball(fov: FovMap, game: Game, objects: Seq<ObjectView>, x: int, y: int)
    requires
        playable(fov, game, objects),
    ensures
        fireball_safe(objects, x, y),
{
    assert(entity_fit(objects[0]));
    lemma_blast_xp_small(objects, x, y);
    assert forall|k: int| 0 <= k < objects.len() && in_blast(#[trigger] objects[k], x, y) implies fits_i32(
        objects[k].fighter->0.hp - FIRE_DAMAGE,
    ) by {
        assert(entity_fit(objects[k]));
    }
}

/// A game fit to be played on admits a level-up with any of the three choices.
pub proof fn lemma_playable_level_up(fov: FovMap, game: Game, objects: Seq<ObjectView>, choice: int)
    requires
        playable(fov, game, objects),
        0 <= choice < 3,
    ensures
        level_up_safe(objects[0], choice),
{
    assert(entity_fit(objects[0]));
}

/// A game fit to be played on admits the composing of a frame.
pub proof fn lemma_playable_frame(fov: FovMap, game: Game, objects: Seq<ObjectView>)
    requires
        playable(fov, game, objects),
    ensures
        draw_safe(fov, objects),
        fits_i32(objects[0].max_hp(views(game.inventory@))),
{
    assert(entity_fit(objects[0]));
    lemma_stats_fit(game, objects[0], Stat::MaxHp);
    assert forall|k: int|
        0 <= k < objects.len() && (#[trigger] objects[k]).always_visible && !fov.spec_is_in_fov(
            objects[k].x as int,
            objects[k].y as int,
        ) implies in_bounds(objects[k].x as int, objects[k].y as int) by {
        assert(entity_fit(objects[k]));
    }
}

/// A freshly generated level is fit to be played on, if the player it was
/// built around is fit for play, can fight, dies as a player does and does
/// not act on its own, and if the inventory, the dungeon level and the field
/// of view are as a game fit to be played on has them.
pub proof fn lemma_generated_playable(
    fov: FovMap,
    game: Game,
    rooms: Seq<Rect>,
    turns: Seq<bool>,
    level: u32,
    player: ObjectView,
    objects: Seq<ObjectView>,
)
    requires
        generated(game.map, rooms, turns, level, player, objects),
        fov.has_size(MAP_WIDTH as int, MAP_HEIGHT as int),
        game.inventory@.len() <= INVENTORY_SIZE,
        game.dungeon_level < u32::MAX,
        forall|i: int| 0 <= i < game.inventory@.len() ==> item_fit(#[trigger] views(game.inventory@)[i]),
        small(player.level as int),
        player.fighter is Some,
        fighter_small(player.fighter->0),
        player.fighter->0.on_death == DeathCallback::Player,
        player.ai is None,
        player.item is None,
    ensures
        playable(fov, game, objects),
{
    assert forall|x: int, y: int|
        in_bounds(x, y) && (x == 0 || x == MAP_WIDTH - 1 || y == 0 || y == MAP_HEIGHT
            - 1) implies (#[trigger] tile_at(game.map, x, y)).blocked by {
        if !tile_at(game.map, x, y).blocked {
            lemma_edge_is_rock(game.map, rooms, turns, x, y);
        }
    }
    lemma_center_inside(rooms[0]);
    lemma_center_inside(rooms.last());
    assert forall|k: int| 0 <= k < objects.len() implies entity_fit(#[trigger] objects[k]) by {
        if 1 <= k < objects.len() - 1 {
            assert(spawned_in(rooms, level, objects, k));
            let o = objects[k];
            let i = choose|i: int|
                0 <= i < rooms.len() && #[trigger] in_room(rooms, i, o.x as int, o.y as int);
            assert(room_fits(rooms[i]));
            if is_spawned_monster(o) {
                let kind = choose|kind: MonsterKind| o == spec_monster(kind, o.x, o.y);
                assert(o == spec_monster(kind, o.x, o.y));
            } else {
                let item = choose|item: Item|
                    item_chance(item, level) > 0 && o == spec_item(item, o.x, o.y);
                assert(o == spec_item(item, o.x, o.y));
            }
        }
    }
}

/// Acts on a key press as `handle_keys` does, if the game is fit to be
/// played on; else nothing is done and nothing returned.
pub fn try_handle_keys(
    key: &Key,
    fov: &mut FovMap,
    game: &mut Game,
    objects: &mut Vec<Object>,
) -> (done: Option<(PlayerAction, Request)>)
    ensures
        done is Some == playable(*old(fov), *old(game), views(old(objects)@)),
        match done {
            Some(done) => {
                &&& done.0 == spec_decode_key(*key, old(objects)@[0].alive).action()
                &&& done.1 == spec_decode_key(*key, old(objects)@[0].alive).request()
                &&& intent_done(
                    spec_decode_key(*key, old(objects)@[0].alive),
                    *old(fov),
                    *old(game),
                    views(old(objects)@),
                    *final(fov),
                    *final(game),
                    views(final(objects)@),
                )
            },
            None => *final(fov) == *old(fov) && *final(game) == *old(game) && *final(objects)
                == *old(objects),
        },
{
    if !is_playable(fov, game, objects.as_slice()) {
        return None;
    }
    proof {
        lemma_playable_keys(*fov, *game, views(objects@), *key);
    }
    Some(handle_keys(key, fov, game, objects))
}

/// Lets the world have its turn as `world_turn` does, if the game is fit to
/// be played on; else nothing is done. Returns whether it was.
pub fn try_world_turn(
    action: PlayerAction,
    fov: &FovMap,
    game: &mut Game,
    objects: &mut [Object],
) -> (fit: bool)
    ensures
        fit == playable(*fov, *old(game), views(old(objects)@)),
        final(objects)@.len() == old(objects)@.len(),
        if fit && action == PlayerAction::TookTurn && old(objects)@[0].alive {
            exists|draws: Seq<(int, int)>| #[trigger]
                turns_done(
                    draws,
                    *fov,
                    *old(game),
                    views(old(objects)@),
                    *final(game),
                    views(final(objects)@),
                )
        } else {
            *final(game) == *old(game) && views(final(objects)@) == views(old(objects)@)
        },
{
    if !is_playable(fov, game, objects) {
        return false;
    }
    proof {
        lemma_playable_monsters(*fov, *game, views(objects@));
    }
    world_turn(action, fov, game, objects);
    true
}

/// Takes the `inventory_id`-th item in hand as `use_item` does, if there is
/// such an item and the game is fit to be played on; else nothing is done and
/// nothing returned.
pub fn try_use_item(
    inventory_id: usize,
    fov: &FovMap,
    game: &mut Game,
    objects: &mut [Object],
) -> (step: Option<UseStep>)
    ensures
        step is Some == (playable(*fov, *old(game), views(old(objects)@)) && inventory_id < old(
            game,
        ).inventory@.len()),
        final(objects)@.len() == old(objects)@.len(),
        match step {
            Some(step) => {
                &&& casts(
                    *old(game),
                    *final(game),
                    views(final(objects)@),
                    use_outcome(
                        inventory_id as int,
                        *fov,
                        views(old(game).inventory@),
                        views(old(objects)@),
                    ).0,
                )
                &&& step == use_outcome(
                    inventory_id as int,
                    *fov,
                    views(old(game).inventory@),
                    views(old(objects)@),
                ).1
            },
            None => *final(game) == *old(game) && views(final(objects)@) == views(old(objects)@),
        },
{
    if !is_playable(fov, game, objects) || inventory_id >= game.inventory.len() {
        return None;
    }
    proof {
        lemma_playable_use(*fov, *game, views(objects@), inventory_id as int);
    }
    Some(use_item(inventory_id, fov, game, objects))
}

/// Goes on with a scroll of confusion as `use_item_on_monster` does, if
/// there is such an item, the target, if any, is an entity that acts on its
/// own, and the game is fit to be played on; else nothing is done. Returns
/// whether it was.
pub fn try_use_item_on_monster(
    inventory_id: usize,
    target: Option<usize>,
    fov: &FovMap,
    game: &mut Game,
    objects: &mut [Object],
) -> (fit: bool)
    ensures
        fit == (playable(*fov, *old(game), views(old(objects)@)) && inventory_id < old(
            game,
        ).inventory@.len() && (target is Some ==> target->0 < old(objects)@.len() && old(
            objects,
        )@[target->0 as int].ai is Some)),
        final(objects)@.len() == old(objects)@.len(),
        if fit {
            casts(
                *old(game),
                *final(game),
                views(final(objects)@),
                settled(
                    confusion_cast(
                        match target {
                            Some(id) => Some(id as int),
                            None => None,
                        },
                        views(old(game).inventory@),
                        views(old(objects)@),
                    ),
                    inventory_id as int,
                ),
            )
        } else {
            *final(game) == *old(game) && views(final(objects)@) == views(old(objects)@)
        },
{
    if !is_playable(fov, game, objects) || inventory_id >= game.inventory.len() {
        return false;
    }
    let acts = match target {
        Some(id) => id < objects.len() && objects[id].ai.is_some(),
        None => true,
    };
    if !acts {
        return false;
    }
    use_item_on_monster(inventory_id, target, game, objects);
    true
}

/// Goes on with a scroll of fire as `use_item_on_tile` does, if there is
/// such an item and the game is fit to be played on; else nothing is done.
/// Returns whether it was.
pub fn try_use_item_on_tile(
    inventory_id: usize,
    target: Option<(i32, i32)>,
    fov: &FovMap,
    game: &mut Game,
    objects: &mut [Object],
) -> (fit: bool)
    ensures
        fit == (playable(*fov, *old(game), views(old(objects)@)) && inventory_id < old(
            game,
        ).inventory@.len()),
        final(objects)@.len() == old(objects)@.len(),
        if fit {
            casts(
                *old(game),
                *final(game),
                views(final(objects)@),
                settled(
                    fireball_cast(
                        match target {
                            Some(tile) => Some((tile.0 as int, tile.1 as int)),
                            None => None,
                        },
                        views(old(game).inventory@),
                        views(old(objects)@),
                    ),
                    inventory_id as int,
                ),
            )
        } else {
            *final(game) == *old(game) && views(final(objects)@) == views(old(objects)@)
        },
{
    if !is_playable(fov, game, objects) || inventory_id >= game.inventory.len() {
        return false;
    }
    proof {
        if let Some(tile) = target {
            lemma_playable_fireball(*fov, *game, views(objects@), tile.0 as int, tile.1 as int);
        }
    }
    use_item_on_tile(inventory_id, target, game, objects);
    true
}

/// Lets the player gain a level as `level_up` does, if the choice is one of
/// the three and the game is fit to be played on; else nothing is done.
/// Returns whether it was.
pub fn try_level_up(choice: usize, fov: &FovMap, game: &mut Game, objects: &mut [Object]) -> (fit:
    bool)
    ensures
        fit == (playable(*fov, *old(game), views(old(objects)@)) && choice < 3),
        final(objects)@.len() == old(objects)@.len(),
        fit && level_up_due(views(old(objects)@)[0]) ==> {
            &&& views(final(objects)@) == views(old(objects)@).update(
                0,
                leveled_up(views(old(objects)@)[0], choice as int),
            )
            &&& only_logged(*old(game), *final(game), seq![level_up_line()])
        },
        !(fit && level_up_due(views(old(objects)@)[0])) ==> {
            &&& views(final(objects)@) == views(old(objects)@)
            &&& *final(game) == *old(game)
        },
{
    if !is_playable(fov, game, objects) || choice >= 3 {
        return false;
    }
    proof {
        lemma_playable_level_up(*fov, *game, views(objects@), choice as int);
    }
    level_up(choice, game, objects);
    true
}

/// Looks around and composes the frame as `render_all` does, if the game is
/// fit to be played on, and leaves it so; else nothing is done and nothing
/// returned.
pub fn try_render_all(
    fov: &mut FovMap,
    game: &mut Game,
    objects: &[Object],
    mouse: &Mouse,
    fov_recompute: bool,
) -> (frame: Option<Frame>)
    ensures
        frame is Some == playable(*old(fov), *old(game), views(objects@)),
        frame is None ==> *final(game) == *old(game) && *final(fov) == *old(fov),
        frame is Some ==> {
            &&& looked_from(*old(fov), views(objects@), fov_recompute, *final(fov))
            &&& framed(*final(fov), *old(game), views(objects@), *mouse, *final(game), frame->0)
            &&& playable(*final(fov), *final(game), views(objects@))
        },
{
    if !is_playable(fov, game, objects) {
        return None;
    }
    proof {
        lemma_playable_frame(*fov, *game, views(objects@));
        assert forall|k: int|
            0 <= k < objects@.len() && (#[trigger] objects@[k]).always_visible implies in_bounds(
            objects@[k].x as int,
            objects@[k].y as int,
        ) by {
            assert(entity_fit(views(objects@)[k]));
        }
    }
    let frame = render_all(fov, game, objects, mouse, fov_recompute);
    proof {
        assert forall|x: int, y: int|
            in_bounds(x, y) && (x == 0 || x == MAP_WIDTH - 1 || y == 0 || y == MAP_HEIGHT
                - 1) implies (#[trigger] tile_at(game.map, x, y)).blocked by {
            assert(tile_at(old(game).map, x, y).blocked);
        }
    }
    Some(frame)
}

/// Drops the `inventory_id`-th item as `drop_item` does, if there is such an
/// item and the level has entities; else nothing is done. Returns whether it was.
pub fn try_drop_item(inventory_id: usize, game: &mut Game, objects: &mut Vec<Object>) -> (fit: bool)
    ensures
        fit == (inventory_id < old(game).inventory@.len() && old(objects)@.len() > 0),
        !fit ==> *final(game) == *old(game) && *final(objects) == *old(objects),
        fit ==> dropped(
            inventory_id as int,
            *old(game),
            views(old(objects)@),
            *final(game),
            views(final(objects)@),
        ),
{
    if inventory_id >= game.inventory.len() || objects.len() == 0 {
        return false;
    }
    drop_item(inventory_id, game, objects);
    true
}

} // verus!
