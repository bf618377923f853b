//! The state of a game in progress and the rules of a turn.
use vstd::prelude::*;
use crate::colors::{red, sky, violet, white, yellow, Color};
use crate::equipment::{Equipment, Slot, Stat};
use crate::fighter::{DeathCallback, Fighter};
use crate::fov::{FovCell, FovMap};
use crate::input::{Key, KeyCode, Mouse};
use crate::item::{pick_item, picked, Item};
use crate::object::{
    dist_sq, fits_i32, move_attack_done, move_attack_safe, player_move_attack, views, Object,
    ObjectView,
};
use crate::ai::{
    ai_take_turn, has_room_to_stumble, is_stumble, took_turn, turn_outcome, turn_safe, with_ai,
};
use crate::text::{int_text, push_int, text_is};
use crate::room::{generated, half, made_by_draws, make_map, Rect};
use crate::session::{lemma_generated_playable, playable};

verus! {

/// Width of every level, in tiles.
pub const MAP_WIDTH: i32 = 80;

/// Height of every level, in tiles.
pub const MAP_HEIGHT: i32 = 43;

/// Index of the player among the entities of a level.
pub const PLAYER: usize = 0;

/// Experience needed for the first level-up.
pub const LEVEL_UP_BASE: i32 = 100;

/// Further experience needed per level already gained.
pub const LEVEL_UP_FACTOR: i32 = 150;

/// One cell of a level.
#[derive(Clone, Copy, Debug, PartialEq, Eq, Structural)]
pub struct Tile {
    pub blocked: bool,
    pub explored: bool,
    pub block_sight: bool,
}

impl Tile {
    /// Open floor, not yet seen.
    pub open spec fn spec_empty() -> Tile {
        Tile { blocked: false, explored: false, block_sight: false }
    }

    /// Open floor, not yet seen.
    #[verifier::when_used_as_spec(spec_empty)]
    pub fn empty() -> (t: Tile)
        ensures
            t == Tile::spec_empty(),
    {
        Tile { blocked: false, explored: false, block_sight: false }
    }

    /// Solid rock, not yet seen.
    pub open spec fn spec_wall() -> Tile {
        Tile { blocked: true, explored: false, block_sight: true }
    }

    /// Solid rock, not yet seen.
    #[verifier::when_used_as_spec(spec_wall)]
    pub fn wall() -> (t: Tile)
        ensures
            t == Tile::spec_wall(),
    {
        Tile { blocked: true, explored: false, block_sight: true }
    }
}

/// The tiles of a level, addressed as `grid[x][y]`.
pub type Grid = Vec<Vec<Tile>>;

/// Whether (`x`, `y`) addresses a tile of a level.
pub open spec fn in_bounds(x: int, y: int) -> bool {
    0 <= x < MAP_WIDTH && 0 <= y < MAP_HEIGHT
}

/// Whether `map` has the dimensions of a level.
pub open spec fn grid_wf(map: Grid) -> bool {
    &&& map@.len() == MAP_WIDTH
    &&& forall|x: int| 0 <= x < MAP_WIDTH ==> (#[trigger] map@[x])@.len() == MAP_HEIGHT
}

/// The tile of `map` at (`x`, `y`).
pub open spec fn tile_at(map: Grid, x: int, y: int) -> Tile {
    map@[x]@[y]
}

/// A line of the log as a mathematical value: its text and its colour.
pub type LogLine = (Seq<char>, Color);

/// The log of what happened, oldest line first.
#[derive(Debug)]
pub struct Messages {
    pub messages: Vec<(String, Color)>,
}

impl View for Messages {
    type V = Seq<(Seq<char>, Color)>;

    open spec fn view(&self) -> Seq<(Seq<char>, Color)> {
        self.messages@.map_values(|m: (String, Color)| (m.0@, m.1))
    }
}

impl Messages {
    /// An empty log.
    pub fn new() -> (log: Messages)
        ensures
            log@ == Seq::<(Seq<char>, Color)>::empty(),
    {
        let log = Messages { messages: Vec::new() };
        assert(log@ =~= Seq::<(Seq<char>, Color)>::empty());
        log
    }

    /// Appends a line to the log.
    pub fn add(&mut self, message: String, color: Color)
        ensures
            final(self)@ == old(self)@.push((message@, color)),
    {
        self.messages.push((message, color));
        assert(final(self)@ =~= old(self)@.push((message@, color)));
    }

    /// Appends a line given as a string slice to the log.
    pub fn add_str(&mut self, message: &str, color: Color)
        ensures
            final(self)@ == old(self)@.push((message@, color)),
    {
        self.add(String::from_str(message), color);
    }

    /// The number of lines in the log.
    pub fn len(&self) -> (n: usize)
        ensures
            n == self@.len(),
    {
        self.messages.len()
    }

    /// The `i`-th line of the log, counted from the oldest.
    pub fn get(&self, i: usize) -> (line: &(String, Color))
        requires
            i < self@.len(),
        ensures
            (line.0@, line.1) == self@[i as int],
    {
        &self.messages[i]
    }
}

/// A game in progress, but for the entities on the current level.
#[derive(Debug)]
pub struct Game {
    pub map: Grid,
    pub messages: Messages,
    pub inventory: Vec<Object>,
    pub dungeon_level: u32,
}

/// Whether `after` is `before` with `lines` appended to the log and nothing
/// else changed.
pub open spec fn only_logged(before: Game, after: Game, lines: Seq<(Seq<char>, Color)>) -> bool {
    &&& after.map == before.map
    &&& after.inventory == before.inventory
    &&& after.dungeon_level == before.dungeon_level
    &&& after.messages@ == before.messages@ + lines
}

/// From dungeon level `level` on, a quantity has the value `value`.
#[derive(Clone, Copy, Debug, PartialEq, Eq, Structural)]
pub struct Transition {
    pub level: u32,
    pub value: u32,
}

/// The value that `table` gives at `level`: that of its last entry whose level
/// is not above `level`, and 0 where there is none.
pub open spec fn spec_from_dungeon_level(table: Seq<Transition>, level: u32) -> u32
    decreases table.len(),
{
    if table.len() == 0 {
        0
    } else if table.last().level <= level {
        table.last().value
    } else {
        spec_from_dungeon_level(table.drop_last(), level)
    }
}

/// The value that `table` gives at `level`: that of its last entry whose level
/// is not above `level`, and 0 where there is none.
pub fn from_dungeon_level(table: &[Transition], level: u32) -> (value: u32)
    ensures
        value == spec_from_dungeon_level(table@, level),
{
    let mut i: usize = table.len();
    assert(table@.subrange(0, i as int) =~= table@);
    while i > 0
        invariant
            i <= table@.len(),
            spec_from_dungeon_level(table@, level) == spec_from_dungeon_level(
                table@.subrange(0, i as int),
                level,
            ),
        decreases i,
    {
        let entry = table[i - 1];
        assert(table@.subrange(0, i as int).last() == entry);
        if entry.level <= level {
            return entry.value;
        }
        assert(table@.subrange(0, i as int).drop_last() =~= table@.subrange(0, i - 1));
        i -= 1;
    }
    assert(table@.subrange(0, 0).len() == 0);
    0
}

/// Whether an entity that blocks movement stands on tile (`x`, `y`).
pub open spec fn occupied(objects: Seq<ObjectView>, x: int, y: int) -> bool {
    exists|i: int|
        0 <= i < objects.len() && (#[trigger] objects[i]).blocks && objects[i].is_at(x, y)
}

/// Whether something stands in the way on tile (`x`, `y`): rock, or an entity
/// that blocks movement.
pub open spec fn spec_is_blocked(x: int, y: int, map: Grid, objects: Seq<ObjectView>) -> bool {
    tile_at(map, x, y).blocked || occupied(objects, x, y)
}

/// Whether something stands in the way on tile (`x`, `y`): rock, or an entity
/// that blocks movement.
pub fn is_blocked(x: i32, y: i32, map: &Grid, objects: &[Object]) -> (blocked: bool)
    requires
        grid_wf(*map),
        in_bounds(x as int, y as int),
    ensures
        blocked == spec_is_blocked(x as int, y as int, *map, views(objects@)),
{
    if map[x as usize][y as usize].blocked {
        return true;
    }
    let mut i: usize = 0;
    while i < objects.len()
        invariant
            i <= objects@.len(),
            forall|j: int| 0 <= j < i ==> !((#[trigger] views(objects@)[j]).blocks && views(objects@)[j].is_at(x as int, y as int)),
        decreases objects@.len() - i,
    {
        if objects[i].blocks && objects[i].x == x && objects[i].y == y {
            assert(views(objects@)[i as int].blocks);
            return true;
        }
        i += 1;
    }
    false
}

/// Two distinct elements of `items`, both mutable at once.
pub fn mut_two<T>(first: usize, second: usize, items: &mut [T]) -> (pair: (&mut T, &mut T))
    requires
        first != second,
        first < old(items)@.len(),
        second < old(items)@.len(),
    ensures
        *pair.0 == old(items)@[first as int],
        *pair.1 == old(items)@[second as int],
        final(items)@ == old(items)@.update(first as int, *final(pair.0)).update(
            second as int,
            *final(pair.1),
        ),
{
    let split_at_index = if first > second {
        first
    } else {
        second
    };
    let (first_slice, second_slice) = items.split_at_mut(split_at_index);
    if first < second {
        (&mut first_slice[first], &mut second_slice[0])
    } else {
        (&mut second_slice[0], &mut first_slice[second])
    }
}

/// Hands the tiles of `map` to a field of view of the size of a level:
/// light passes a tile unless it blocks sight, and one can walk on it unless
/// it is rock. What is seen stays as it is.
pub fn initialize_fov(fov: &mut FovMap, map: &Grid)
    requires
        grid_wf(*map),
        old(fov).has_size(MAP_WIDTH as int, MAP_HEIGHT as int),
    ensures
        final(fov).has_size(MAP_WIDTH as int, MAP_HEIGHT as int),
        forall|x: int, y: int|
            in_bounds(x, y) ==> #[trigger] final(fov).cell(x, y) == (FovCell {
                transparent: !tile_at(*map, x, y).block_sight,
                walkable: !tile_at(*map, x, y).blocked,
                in_fov: old(fov).cell(x, y).in_fov,
            }),
{
    let mut y: i32 = 0;
    while y < MAP_HEIGHT
        invariant
            0 <= y <= MAP_HEIGHT,
            grid_wf(*map),
            fov.has_size(MAP_WIDTH as int, MAP_HEIGHT as int),
            forall|i: int, j: int|
                in_bounds(i, j) ==> #[trigger] fov.cell(i, j) == if j < y {
                    FovCell {
                        transparent: !tile_at(*map, i, j).block_sight,
                        walkable: !tile_at(*map, i, j).blocked,
                        in_fov: old(fov).cell(i, j).in_fov,
                    }
                } else {
                    old(fov).cell(i, j)
                },
        decreases MAP_HEIGHT - y,
    {
        let mut x: i32 = 0;
        while x < MAP_WIDTH
            invariant
                0 <= y < MAP_HEIGHT,
                0 <= x <= MAP_WIDTH,
                grid_wf(*map),
                fov.has_size(MAP_WIDTH as int, MAP_HEIGHT as int),
                forall|i: int, j: int|
                    in_bounds(i, j) ==> #[trigger] fov.cell(i, j) == if j < y || (j == y && i < x) {
                        FovCell {
                            transparent: !tile_at(*map, i, j).block_sight,
                            walkable: !tile_at(*map, i, j).blocked,
                            in_fov: old(fov).cell(i, j).in_fov,
                        }
                    } else {
                        old(fov).cell(i, j)
                    },
            decreases MAP_WIDTH - x,
        {
            let ghost before = *fov;
            assert(before.has(x as int, y as int));
            fov.set(
                x,
                y,
                !map[x as usize][y as usize].block_sight,
                !map[x as usize][y as usize].blocked,
            );
            assert forall|i: int, j: int| in_bounds(i, j) implies #[trigger] fov.cell(i, j) == if j
                < y || (j == y && i < x + 1) {
                FovCell {
                    transparent: !tile_at(*map, i, j).block_sight,
                    walkable: !tile_at(*map, i, j).blocked,
                    in_fov: old(fov).cell(i, j).in_fov,
                }
            } else {
                old(fov).cell(i, j)
            } by {
                assert(before.has(i, j));
                assert(before.cell(i, j) == if j < y || (j == y && i < x) {
                    FovCell {
                        transparent: !tile_at(*map, i, j).block_sight,
                        walkable: !tile_at(*map, i, j).blocked,
                        in_fov: old(fov).cell(i, j).in_fov,
                    }
                } else {
                    old(fov).cell(i, j)
                });
            }
            x += 1;
        }
        y += 1;
    }
}

/// The dungeon level that a new game starts on.
pub const INITIAL_LEVEL: u32 = 1;

/// The player as a new game begins, before being placed.
pub open spec fn fresh_player() -> ObjectView {
    ObjectView {
        alive: true,
        fighter: Some(
            Fighter {
                base_max_hp: 100,
                hp: 100,
                base_defense: 0,
                base_power: 5,
                xp: 0,
                on_death: DeathCallback::Player,
            },
        ),
        ..ObjectView::new(0, 0, '@', "player"@, white(), true)
    }
}

/// The dagger that the player starts out with, worn in the left hand.
pub open spec fn starting_dagger() -> ObjectView {
    ObjectView {
        item: Some(Item::Sword),
        equipment: Some(
            Equipment {
                equipped: true,
                slot: Slot::LeftHand,
                max_hp_bonus: 0,
                power_bonus: 5,
                defense_bonus: 1,
            },
        ),
        ..ObjectView::new(0, 0, '-', "dagger"@, sky(), false)
    }
}

/// The first line of the log of a new game.
pub open spec fn welcome_line() -> LogLine {
    ("Prepare yourself to the world of rust and steel"@, red())
}

/// Starts a game: a fresh player in a freshly generated first level, a worn
/// dagger in the inventory, a welcome in the log, and the field of view
/// handed the tiles of the level.
pub fn new_game(fov: &mut FovMap) -> (started: (Game, Vec<Object>))
    requires
        old(fov).has_size(MAP_WIDTH as int, MAP_HEIGHT as int),
    ensures
        exists|rooms: Seq<Rect>, turns: Seq<bool>| #[trigger]
            generated(
                started.0.map,
                rooms,
                turns,
                INITIAL_LEVEL,
                fresh_player(),
                views(started.1@),
            ),
        made_by_draws(started.0.map, INITIAL_LEVEL, fresh_player(), views(started.1@)),
        started.0.messages@ == seq![welcome_line()],
        views(started.0.inventory@) == seq![starting_dagger()],
        started.0.dungeon_level == INITIAL_LEVEL,
        playable(*final(fov), started.0, views(started.1@)),
        final(fov).has_size(MAP_WIDTH as int, MAP_HEIGHT as int),
        forall|x: int, y: int|
            in_bounds(x, y) ==> #[trigger] final(fov).cell(x, y) == (FovCell {
                transparent: !tile_at(started.0.map, x, y).block_sight,
                walkable: !tile_at(started.0.map, x, y).blocked,
                in_fov: old(fov).cell(x, y).in_fov,
            }),
{
    let mut player = Object::new(0, 0, '@', "player", white(), true);
    player.alive = true;
    player.fighter = Some(
        Fighter {
            base_max_hp: 100,
            hp: 100,
            base_defense: 0,
            base_power: 5,
            xp: 0,
            on_death: DeathCallback::Player,
        },
    );
    let mut objects = vec![player];
    assert(views(objects@)[0] == fresh_player());
    let map = make_map(&mut objects, INITIAL_LEVEL);
    let ghost mut layout: (Seq<Rect>, Seq<bool>) = (Seq::empty(), Seq::empty());
    proof {
        let (rooms, turns) = choose|rooms: Seq<Rect>, turns: Seq<bool>| #[trigger]
            generated(map, rooms, turns, INITIAL_LEVEL, fresh_player(), views(objects@));
        layout = (rooms, turns);
    }
    let mut game = Game {
        map: map,
        messages: Messages::new(),
        inventory: Vec::new(),
        dungeon_level: INITIAL_LEVEL,
    };
    let mut dagger = Object::new(0, 0, '-', "dagger", sky(), false);
    dagger.item = Some(Item::Sword);
    dagger.equipment = Some(
        Equipment {
            equipped: true,
            slot: Slot::LeftHand,
            max_hp_bonus: 0,
            power_bonus: 5,
            defense_bonus: 1,
        },
    );
    game.inventory.push(dagger);
    initialize_fov(fov, &game.map);
    game.messages.add_str("Prepare yourself to the world of rust and steel", red());
    proof {
        assert(game.messages@ =~= seq![welcome_line()]);
        assert(views(game.inventory@) =~= seq![starting_dagger()]);
        assert(generated(
            game.map,
            layout.0,
            layout.1,
            INITIAL_LEVEL,
            fresh_player(),
            views(objects@),
        ));
    }
    let started = (game, objects);
    proof {
        assert(generated(
            started.0.map,
            layout.0,
            layout.1,
            INITIAL_LEVEL,
            fresh_player(),
            views(started.1@),
        ));
        lemma_generated_playable(
            *fov,
            started.0,
            layout.0,
            layout.1,
            INITIAL_LEVEL,
            fresh_player(),
            views(started.1@),
        );
    }
    started
}

/// Half of `value`, rounded towards zero.
fn halved(value: i32) -> (h: i32)
    ensures
        h == half(value as int),
{
    if value >= 0 {
        value / 2
    } else {
        let positive: i64 = -(value as i64);
        (-(positive / 2)) as i32
    }
}

/// The log line on going down the stairs.
pub open spec fn descent_line() -> LogLine {
    ("You go deeper..."@, violet())
}

/// The player as it arrives on the next level, before being placed: rested
/// by half of its own full hit points, up to the most it can have.
pub open spec fn rested_player(player: ObjectView, inventory: Seq<ObjectView>) -> ObjectView {
    player.healed(half(player.base(Stat::MaxHp)), player.max_hp(inventory))
}

/// Whether going down the stairs stays within the numbers: the player's full
/// hit points and the next dungeon level.
pub open spec fn descent_safe(game: Game, objects: Seq<ObjectView>) -> bool {
    &&& objects.len() > 0
    &&& fits_i32(objects[0].max_hp(views(game.inventory@)))
    &&& objects[0].fighter is Some ==> fits_i32(
        objects[0].fighter->0.hp + half(objects[0].fighter->0.base_max_hp as int),
    )
    &&& game.dungeon_level < u32::MAX
}

/// Whether the world went from `before` to `after` by going down the
/// stairs: the log says so, the dungeon level is one higher, and the tiles
/// and the entities are a level generated for it around the rested player,
/// as some draws of the generator give it.
pub open spec fn descended(
    before: Game,
    objects: Seq<ObjectView>,
    after: Game,
    after_objects: Seq<ObjectView>,
) -> bool {
    &&& exists|rooms: Seq<Rect>, turns: Seq<bool>| #[trigger]
        generated(
            after.map,
            rooms,
            turns,
            after.dungeon_level,
            rested_player(objects[0], views(before.inventory@)),
            after_objects,
        )
    &&& made_by_draws(
        after.map,
        after.dungeon_level,
        rested_player(objects[0], views(before.inventory@)),
        after_objects,
    )
    &&& after.dungeon_level == before.dungeon_level + 1
    &&& after.messages@ == before.messages@.push(descent_line())
    &&& after.inventory == before.inventory
}

/// Whether `fov` knows the tiles of `map` and sees what `seen` saw.
pub open spec fn fov_knows(fov: FovMap, map: Grid, seen: FovMap) -> bool {
    &&& fov.has_size(MAP_WIDTH as int, MAP_HEIGHT as int)
    &&& forall|x: int, y: int|
        in_bounds(x, y) ==> #[trigger] fov.cell(x, y) == (FovCell {
            transparent: !tile_at(map, x, y).block_sight,
            walkable: !tile_at(map, x, y).blocked,
            in_fov: seen.cell(x, y).in_fov,
        })
}

/// Goes down the stairs: the log says so, the player rests, the dungeon
/// level goes up by one, a level is generated for it around the player, and
/// the field of view is handed its tiles.
pub fn next_level(fov: &mut FovMap, game: &mut Game, objects: &mut Vec<Object>)
    requires
        old(fov).has_size(MAP_WIDTH as int, MAP_HEIGHT as int),
        descent_safe(*old(game), views(old(objects)@)),
    ensures
        descended(*old(game), views(old(objects)@), *final(game), views(final(objects)@)),
        fov_knows(*final(fov), final(game).map, *old(fov)),
{
    game.messages.add_str("You go deeper...", violet());
    let heal_hp = match objects[PLAYER].fighter {
        Some(fighter) => halved(fighter.base_max_hp),
        None => 0,
    };
    objects[PLAYER].heal(heal_hp, game);
    let ghost rested = views(objects@)[0];
    game.dungeon_level += 1;
    let map = make_map(objects, game.dungeon_level);
    let ghost mut layout: (Seq<Rect>, Seq<bool>) = (Seq::empty(), Seq::empty());
    proof {
        let (rooms, turns) = choose|rooms: Seq<Rect>, turns: Seq<bool>| #[trigger]
            generated(map, rooms, turns, game.dungeon_level, rested, views(objects@));
        layout = (rooms, turns);
    }
    game.map = map;
    initialize_fov(fov, &game.map);
    proof {
        assert(generated(
            game.map,
            layout.0,
            layout.1,
            game.dungeon_level,
            rested_player(views(old(objects)@)[0], views(old(game).inventory@)),
            views(objects@),
        ));
    }
}

/// The experience that an entity of level `level` needs to gain a level.
pub open spec fn level_up_xp(level: int) -> int {
    LEVEL_UP_BASE + level * LEVEL_UP_FACTOR
}

/// Whether `player` has the experience to gain a level; what cannot fight
/// counts as having none.
pub open spec fn level_up_due(player: ObjectView) -> bool {
    (match player.fighter {
        Some(fighter) => fighter.xp as int,
        None => 0,
    }) >= level_up_xp(player.level as int)
}

/// The player a level up: the experience needed is spent, and the chosen stat
/// is raised, by 20 hit points both full and current for choice 0, by 1 power
/// for choice 1, by 1 defense for choice 2.
pub open spec fn leveled_up(player: ObjectView, choice: int) -> ObjectView {
    let fighter = player.fighter->0;
    let spent = Fighter { xp: (fighter.xp - level_up_xp(player.level as int)) as i32, ..fighter };
    let raised = if choice == 0 {
        Fighter {
            base_max_hp: (fighter.base_max_hp + 20) as i32,
            hp: (fighter.hp + 20) as i32,
            ..spent
        }
    } else if choice == 1 {
        Fighter { base_power: (fighter.base_power + 1) as i32, ..spent }
    } else {
        Fighter { base_defense: (fighter.base_defense + 1) as i32, ..spent }
    };
    ObjectView { level: (player.level + 1) as i32, fighter: Some(raised), ..player }
}

/// Whether gaining a level stays within the numbers of `i32` and the three
/// choices: the experience needed, and for a player who has it, who must be
/// able to fight, the level, the experience left and the stat raised.
pub open spec fn level_up_safe(player: ObjectView, choice: int) -> bool {
    &&& fits_i32(player.level * LEVEL_UP_FACTOR)
    &&& fits_i32(level_up_xp(player.level as int))
    &&& level_up_due(player) ==> {
        &&& 0 <= choice < 3
        &&& player.fighter is Some
        &&& fits_i32(player.level + 1)
        &&& fits_i32(player.fighter->0.xp - level_up_xp(player.level as int))
        &&& choice == 0 ==> fits_i32(player.fighter->0.base_max_hp + 20) && fits_i32(
            player.fighter->0.hp + 20,
        )
        &&& choice == 1 ==> fits_i32(player.fighter->0.base_power + 1)
        &&& choice == 2 ==> fits_i32(player.fighter->0.base_defense + 1)
    }
}

/// Whether the player has the experience to gain a level.
pub fn is_level_up_due(objects: &[Object]) -> (due: bool)
    requires
        objects@.len() > 0,
        fits_i32(objects@[0].level * LEVEL_UP_FACTOR),
        fits_i32(level_up_xp(objects@[0].level as int)),
    ensures
        due == level_up_due(views(objects@)[0]),
{
    let level_up_xp = LEVEL_UP_BASE + objects[PLAYER].level * LEVEL_UP_FACTOR;
    let xp = match objects[PLAYER].fighter {
        Some(fighter) => fighter.xp,
        None => 0,
    };
    xp >= level_up_xp
}

/// The log line on gaining a level.
pub open spec fn level_up_line() -> LogLine {
    ("Your powers grow stronger"@, yellow())
}

/// Lets the player gain a level, if it has the experience, and raise the
/// stat of its choice; see `leveled_up`. Without the experience nothing happens.
pub fn level_up(choice: usize, game: &mut Game, objects: &mut [Object])
    requires
        old(objects)@.len() > 0,
        level_up_safe(views(old(objects)@)[0], choice as int),
    ensures
        final(objects)@.len() == old(objects)@.len(),
        level_up_due(views(old(objects)@)[0]) ==> {
            &&& views(final(objects)@) == views(old(objects)@).update(
                0,
                leveled_up(views(old(objects)@)[0], choice as int),
            )
            &&& only_logged(*old(game), *final(game), seq![level_up_line()])
        },
        !level_up_due(views(old(objects)@)[0]) ==> {
            &&& views(final(objects)@) == views(old(objects)@)
            &&& *final(game) == *old(game)
        },
{
    let level_up_xp = LEVEL_UP_BASE + objects[PLAYER].level * LEVEL_UP_FACTOR;
    let xp = match objects[PLAYER].fighter {
        Some(fighter) => fighter.xp,
        None => 0,
    };
    if xp >= level_up_xp {
        objects[PLAYER].level += 1;
        game.messages.add_str("Your powers grow stronger", yellow());
        if let Some(fighter) = objects[PLAYER].fighter.as_mut() {
            fighter.xp -= level_up_xp;
            if choice == 0 {
                fighter.base_max_hp += 20;
                fighter.hp += 20;
            } else if choice == 1 {
                fighter.base_power += 1;
            } else {
                fighter.base_defense += 1;
            }
        }
        proof {
            assert(game.messages@ =~= old(game).messages@ + seq![level_up_line()]);
            assert(views(objects@) =~= views(old(objects)@).update(
                0,
                leveled_up(views(old(objects)@)[0], choice as int),
            ));
        }
    } else {
        assert(views(objects@) =~= views(old(objects)@));
    }
}

/// The text of a stat on offer at a level-up: what it is called, what it
/// gains, and its value now and then.
pub open spec fn stat_offer(name: Seq<char>, gain: Seq<char>, value: int, raise: int) -> Seq<char> {
    name + " (+"@ + gain + " "@ + int_text(value) + " -> "@ + int_text(value + raise) + ")"@
}

/// The three stats on offer at a level-up, in the order of their choices.
pub open spec fn spec_level_up_options(fighter: Fighter) -> Seq<Seq<char>> {
    seq![
        stat_offer("Constitution"@, "20hp"@, fighter.base_max_hp as int, 20),
        stat_offer("Strength"@, "1 damage"@, fighter.base_power as int, 1),
        stat_offer("Agility"@, "1 defense"@, fighter.base_defense as int, 1),
    ]
}

/// The text of one stat on offer; see `stat_offer`.
fn offer(name: &str, gain: &str, value: i32, raise: i32) -> (text: String)
    ensures
        text@ == stat_offer(name@, gain@, value as int, raise as int),
{
    let mut text = String::from_str(name);
    text.append(" (+");
    text.append(gain);
    text.append(" ");
    push_int(&mut text, value as i64);
    text.append(" -> ");
    push_int(&mut text, value as i64 + raise as i64);
    text.append(")");
    text
}

/// The three stats on offer at a level-up, in the order of their choices.
pub fn level_up_options(fighter: &Fighter) -> (options: Vec<String>)
    ensures
        options@.len() == 3,
        forall|i: int| 0 <= i < 3 ==> (#[trigger] options@[i])@ == spec_level_up_options(*fighter)[i],
{
    let mut options: Vec<String> = Vec::new();
    options.push(offer("Constitution", "20hp", fighter.base_max_hp, 20));
    options.push(offer("Strength", "1 damage", fighter.base_power, 1));
    options.push(offer("Agility", "1 defense", fighter.base_defense, 1));
    options
}

/// Whether a turn was spent.
#[derive(Clone, Copy, Debug, PartialEq, Eq, Structural)]
pub enum PlayerAction {
    TookTurn,
    DidntTakeTurn,
    Exit,
}

/// What a key press asks for.
#[derive(Clone, Copy, Debug, PartialEq, Eq, Structural)]
pub enum Intent {
    ToggleFullscreen,
    Exit,
    Move(i32, i32),
    Rest,
    PickUp,
    UseItem,
    DropItem,
    CharacterInfo,
    Descend,
    Nothing,
}

/// What `key` asks for. Alt-Enter and Escape are heard at any time, all else
/// only while the player is alive: the arrows and the number pad move, 5
/// rests, and the letters g, i, d, c and > pick up, use, drop, show the
/// character and descend.
pub open spec fn spec_decode_key(key: Key, player_alive: bool) -> Intent {
    if key.code == KeyCode::Enter && key.alt {
        Intent::ToggleFullscreen
    } else if key.code == KeyCode::Escape {
        Intent::Exit
    } else if !player_alive {
        Intent::Nothing
    } else {
        match key.code {
            KeyCode::Up | KeyCode::NumPad8 => Intent::Move(0, -1i32),
            KeyCode::Down | KeyCode::NumPad2 => Intent::Move(0, 1),
            KeyCode::Left | KeyCode::NumPad4 => Intent::Move(-1i32, 0),
            KeyCode::Right | KeyCode::NumPad6 => Intent::Move(1, 0),
            KeyCode::NumPad9 => Intent::Move(1, -1i32),
            KeyCode::NumPad7 => Intent::Move(-1i32, -1i32),
            KeyCode::NumPad1 => Intent::Move(-1i32, 1),
            KeyCode::NumPad3 => Intent::Move(1, 1),
            KeyCode::NumPad5 => Intent::Rest,
            KeyCode::Text => if key.text@ == "g"@ {
                Intent::PickUp
            } else if key.text@ == "i"@ {
                Intent::UseItem
            } else if key.text@ == "d"@ {
                Intent::DropItem
            } else if key.text@ == "c"@ {
                Intent::CharacterInfo
            } else if key.text@ == ">"@ {
                Intent::Descend
            } else {
                Intent::Nothing
            },
            _ => Intent::Nothing,
        }
    }
}

/// What `key` asks for; see `spec_decode_key`.
pub fn decode_key(key: &Key, player_alive: bool) -> (intent: Intent)
    ensures
        intent == spec_decode_key(*key, player_alive),
{
    if key.code == KeyCode::Enter && key.alt {
        return Intent::ToggleFullscreen;
    }
    if key.code == KeyCode::Escape {
        return Intent::Exit;
    }
    if !player_alive {
        return Intent::Nothing;
    }
    match key.code {
        KeyCode::Up | KeyCode::NumPad8 => Intent::Move(0, -1),
        KeyCode::Down | KeyCode::NumPad2 => Intent::Move(0, 1),
        KeyCode::Left | KeyCode::NumPad4 => Intent::Move(-1, 0),
        KeyCode::Right | KeyCode::NumPad6 => Intent::Move(1, 0),
        KeyCode::NumPad9 => Intent::Move(1, -1),
        KeyCode::NumPad7 => Intent::Move(-1, -1),
        KeyCode::NumPad1 => Intent::Move(-1, 1),
        KeyCode::NumPad3 => Intent::Move(1, 1),
        KeyCode::NumPad5 => Intent::Rest,
        KeyCode::Text => {
            if text_is(&key.text, "g") {
                Intent::PickUp
            } else if text_is(&key.text, "i") {
                Intent::UseItem
            } else if text_is(&key.text, "d") {
                Intent::DropItem
            } else if text_is(&key.text, "c") {
                Intent::CharacterInfo
            } else if text_is(&key.text, ">") {
                Intent::Descend
            } else {
                Intent::Nothing
            }
        },
        _ => Intent::Nothing,
    }
}

/// Whether the `id`-th entity is the first item on tile (`x`, `y`).
pub open spec fn first_item_at(objects: Seq<ObjectView>, x: int, y: int, id: int) -> bool {
    &&& 0 <= id < objects.len()
    &&& objects[id].item is Some
    &&& objects[id].is_at(x, y)
    &&& forall|j: int| 0 <= j < id ==> !((#[trigger] objects[j]).item is Some && objects[j].is_at(x, y))
}

/// Whether no item lies on tile (`x`, `y`).
pub open spec fn no_item_at(objects: Seq<ObjectView>, x: int, y: int) -> bool {
    forall|j: int|
        0 <= j < objects.len() ==> !((#[trigger] objects[j]).item is Some && objects[j].is_at(x, y))
}

/// The first item on tile (`x`, `y`).
pub fn item_at(x: i32, y: i32, objects: &[Object]) -> (found: Option<usize>)
    ensures
        match found {
            Some(id) => first_item_at(views(objects@), x as int, y as int, id as int),
            None => no_item_at(views(objects@), x as int, y as int),
        },
{
    let mut i: usize = 0;
    while i < objects.len()
        invariant
            i <= objects@.len(),
            forall|j: int|
                0 <= j < i ==> !((#[trigger] views(objects@)[j]).item is Some && views(
                    objects@,
                )[j].is_at(x as int, y as int)),
        decreases objects@.len() - i,
    {
        if objects[i].x == x && objects[i].y == y && objects[i].item.is_some() {
            assert(views(objects@)[i as int].item is Some);
            return Some(i);
        }
        i += 1;
    }
    None
}

/// Whether stairs are where the player stands.
pub open spec fn spec_on_stairs(objects: Seq<ObjectView>) -> bool {
    exists|i: int|
        0 <= i < objects.len() && (#[trigger] objects[i]).is_at(
            objects[0].x as int,
            objects[0].y as int,
        ) && objects[i].name == "stairs"@
}

/// Whether stairs are where the player stands.
pub fn on_stairs(objects: &[Object]) -> (found: bool)
    requires
        objects@.len() > 0,
    ensures
        found == spec_on_stairs(views(objects@)),
{
    let (x, y) = objects[PLAYER].pos();
    let mut i: usize = 0;
    while i < objects.len()
        invariant
            i <= objects@.len(),
            objects@.len() > 0,
            x == objects@[0].x,
            y == objects@[0].y,
            forall|j: int|
                0 <= j < i ==> !((#[trigger] views(objects@)[j]).is_at(x as int, y as int) && views(
                    objects@,
                )[j].name == "stairs"@),
        decreases objects@.len() - i,
    {
        if objects[i].x == x && objects[i].y == y && text_is(&objects[i].name, "stairs") {
            assert(views(objects@)[i as int].is_at(x as int, y as int));
            return true;
        }
        i += 1;
    }
    false
}

/// What the caller is to do about a key once the rules have had their say.
#[derive(Clone, Copy, Debug, PartialEq, Eq, Structural)]
pub enum Request {
    /// Nothing.
    Nothing,
    /// Switch between window and full screen.
    ToggleFullscreen,
    /// Have an item of the inventory chosen and hand it to `use_item`.
    ChooseItemToUse,
    /// Have an item of the inventory chosen and hand it to `drop_item`.
    ChooseItemToDrop,
    /// Show the player's statistics.
    ShowCharacterInfo,
}

impl Intent {
    /// Whether acting on this intent spends a turn.
    pub open spec fn action(self) -> PlayerAction {
        match self {
            Intent::ToggleFullscreen | Intent::CharacterInfo | Intent::Nothing => {
                PlayerAction::DidntTakeTurn
            },
            Intent::Exit => PlayerAction::Exit,
            _ => PlayerAction::TookTurn,
        }
    }

    /// What acting on this intent leaves to the caller.
    pub open spec fn request(self) -> Request {
        match self {
            Intent::ToggleFullscreen => Request::ToggleFullscreen,
            Intent::UseItem => Request::ChooseItemToUse,
            Intent::DropItem => Request::ChooseItemToDrop,
            Intent::CharacterInfo => Request::ShowCharacterInfo,
            _ => Request::Nothing,
        }
    }
}

/// The log line on resting.
pub open spec fn rest_line() -> LogLine {
    ("You rest..."@, violet())
}

/// Whether acting on `intent` stays within the level and within the numbers,
/// and keeps the player the first entity: a move what `move_attack_safe`
/// says, a rest that the player's full hit points are a number of `i32`,
/// picking up that the player is no item itself, a descent from stairs what
/// `descent_safe` says and a field of view of the size of a level.
pub open spec fn intent_safe(intent: Intent, fov: FovMap, game: Game, objects: Seq<ObjectView>) -> bool {
    match intent {
        Intent::Move(dx, dy) => grid_wf(game.map) && move_attack_safe(
            dx as int,
            dy as int,
            views(game.inventory@),
            objects,
        ),
        Intent::Rest => fits_i32(objects[0].max_hp(views(game.inventory@))),
        Intent::PickUp => objects[0].item is None,
        Intent::Descend => spec_on_stairs(objects) ==> descent_safe(game, objects) && fov.has_size(
            MAP_WIDTH as int,
            MAP_HEIGHT as int,
        ),
        _ => true,
    }
}

/// Whether the world went from `before` to `after` by acting on `intent`. A
/// move is a step or an attack. A rest restores one hit point. Picking up
/// takes the first item where the player stands, if there is one. A descent
/// needs stairs where the player stands. All else leaves the world to the caller.
pub open spec fn intent_done(
    intent: Intent,
    before_fov: FovMap,
    before: Game,
    objects: Seq<ObjectView>,
    after_fov: FovMap,
    after: Game,
    after_objects: Seq<ObjectView>,
) -> bool {
    let same = after == before && after_objects == objects && after_fov == before_fov;
    match intent {
        Intent::Move(dx, dy) => after_fov == before_fov && move_attack_done(
            dx as int,
            dy as int,
            before,
            objects,
            after,
            after_objects,
        ),
        Intent::Rest => {
            &&& after_fov == before_fov
            &&& only_logged(before, after, seq![rest_line()])
            &&& after_objects == objects.update(
                0,
                objects[0].healed(1, objects[0].max_hp(views(before.inventory@))),
            )
        },
        Intent::PickUp => {
            &&& after_fov == before_fov
            &&& no_item_at(objects, objects[0].x as int, objects[0].y as int) ==> after == before
                && after_objects == objects
            &&& forall|id: int| #[trigger]
                first_item_at(objects, objects[0].x as int, objects[0].y as int, id) ==> picked(
                    id,
                    before,
                    objects,
                    after,
                    after_objects,
                )
        },
        Intent::Descend => if spec_on_stairs(objects) {
            descended(before, objects, after, after_objects) && fov_knows(
                after_fov,
                after.map,
                before_fov,
            )
        } else {
            same
        },
        _ => same,
    }
}

/// Acts on a key press as far as the rules go: moves, rests, picks up and
/// descends. Returns whether a turn was spent and what is left to the caller.
pub fn handle_keys(key: &Key, fov: &mut FovMap, game: &mut Game, objects: &mut Vec<Object>) -> (done:
    (PlayerAction, Request))
    requires
        old(objects)@.len() > 0,
        intent_safe(
            spec_decode_key(*key, old(objects)@[0].alive),
            *old(fov),
            *old(game),
            views(old(objects)@),
        ),
    ensures
        done.0 == spec_decode_key(*key, old(objects)@[0].alive).action(),
        done.1 == spec_decode_key(*key, old(objects)@[0].alive).request(),
        intent_done(
            spec_decode_key(*key, old(objects)@[0].alive),
            *old(fov),
            *old(game),
            views(old(objects)@),
            *final(fov),
            *final(game),
            views(final(objects)@),
        ),
{
    let player_alive = objects[PLAYER].alive;
    let intent = decode_key(key, player_alive);
    match intent {
        Intent::ToggleFullscreen => (PlayerAction::DidntTakeTurn, Request::ToggleFullscreen),
        Intent::Exit => (PlayerAction::Exit, Request::Nothing),
        Intent::Move(dx, dy) => {
            player_move_attack(dx, dy, game, objects.as_mut_slice());
            (PlayerAction::TookTurn, Request::Nothing)
        },
        Intent::Rest => {
            game.messages.add_str("You rest...", violet());
            objects[PLAYER].heal(1, game);
            proof {
                assert(game.messages@ =~= old(game).messages@ + seq![rest_line()]);
                assert(views(objects@) =~= views(old(objects)@).update(
                    0,
                    views(old(objects)@)[0].healed(
                        1,
                        views(old(objects)@)[0].max_hp(views(old(game).inventory@)),
                    ),
                ));
            }
            (PlayerAction::TookTurn, Request::Nothing)
        },
        Intent::PickUp => {
            let (x, y) = objects[PLAYER].pos();
            let item = item_at(x, y, objects.as_slice());
            if let Some(id) = item {
                pick_item(id, game, objects);
                proof {
                    let before = views(old(objects)@);
                    assert forall|other: int| #[trigger]
                        first_item_at(before, x as int, y as int, other) implies other == id by {
                        if other < id {
                            assert(before[other].item is Some);
                        } else if id < other {
                            assert(before[id as int].item is Some);
                        }
                    }
                    assert(before[id as int].item is Some);
                }
            } else {
                proof {
                    let before = views(old(objects)@);
                    assert(views(objects@) =~= before);
                    assert forall|other: int| #[trigger]
                        first_item_at(before, x as int, y as int, other) implies false by {
                        assert(before[other].item is Some);
                    }
                }
            }
            (PlayerAction::TookTurn, Request::Nothing)
        },
        Intent::UseItem => (PlayerAction::TookTurn, Request::ChooseItemToUse),
        Intent::DropItem => (PlayerAction::TookTurn, Request::ChooseItemToDrop),
        Intent::CharacterInfo => (PlayerAction::DidntTakeTurn, Request::ShowCharacterInfo),
        Intent::Descend => {
            let stairs = on_stairs(objects.as_slice());
            if stairs {
                next_level(fov, game, objects);
            }
            (PlayerAction::TookTurn, Request::Nothing)
        },
        Intent::Nothing => (PlayerAction::DidntTakeTurn, Request::Nothing),
    }
}

/// How the choice of a target stands.
#[derive(Clone, Copy, Debug, PartialEq, Eq, Structural)]
pub enum Targeting {
    /// The tile under the cursor has been chosen.
    Chosen(i32, i32),
    /// The choice has been declined.
    Declined,
    /// Nothing has been decided yet.
    Undecided,
}

/// Whether tile (`x`, `y`) is within `max_range` tiles of the player; with
/// no range given every tile is.
pub open spec fn within_range(objects: Seq<ObjectView>, x: int, y: int, max_range: Option<i32>) -> bool {
    match max_range {
        None => true,
        Some(range) => range >= 0 && dist_sq(objects[0].x as int, objects[0].y as int, x, y)
            <= range * range,
    }
}

/// How the choice of a target tile stands, given the mouse and the key: a
/// left click chooses the tile under the cursor if that is a tile of the
/// level's width and height that the player sees and that is within range;
/// failing that, a right click or Escape declines.
pub open spec fn spec_target_tile(
    mouse: Mouse,
    key: Key,
    fov: FovMap,
    objects: Seq<ObjectView>,
    max_range: Option<i32>,
) -> Targeting {
    let in_fov = mouse.cx < MAP_WIDTH && mouse.cy < MAP_HEIGHT && fov.spec_is_in_fov(
        mouse.cx as int,
        mouse.cy as int,
    );
    if mouse.lbutton_pressed && in_fov && within_range(
        objects,
        mouse.cx as int,
        mouse.cy as int,
        max_range,
    ) {
        Targeting::Chosen(mouse.cx, mouse.cy)
    } else if mouse.rbutton_pressed || key.code == KeyCode::Escape {
        Targeting::Declined
    } else {
        Targeting::Undecided
    }
}

/// How the choice of a target tile stands; see `spec_target_tile`.
pub fn target_tile(
    mouse: &Mouse,
    key: &Key,
    fov: &FovMap,
    objects: &[Object],
    max_range: Option<i32>,
) -> (state: Targeting)
    requires
        objects@.len() > 0,
    ensures
        state == spec_target_tile(*mouse, *key, *fov, views(objects@), max_range),
{
    let (x, y) = (mouse.cx, mouse.cy);
    let in_fov = (x < MAP_WIDTH) && (y < MAP_HEIGHT) && fov.is_in_fov(x, y);
    let in_range = match max_range {
        None => true,
        Some(range) => {
            let reach: i128 = range as i128;
            assert(0 <= reach * reach <= 0x8000_0000 * 0x8000_0000) by (nonlinear_arith)
                requires
                    -0x8000_0000 <= reach <= 0x8000_0000,
            ;
            range >= 0 && objects[PLAYER].distance_sq(x, y) <= reach * reach
        },
    };
    if mouse.lbutton_pressed && in_fov && in_range {
        return Targeting::Chosen(x, y);
    }
    if mouse.rbutton_pressed || key.code == KeyCode::Escape {
        return Targeting::Declined;
    }
    Targeting::Undecided
}

/// Whether the `id`-th entity is the first other than the player that can
/// fight and stands on (`x`, `y`).
pub open spec fn first_monster_at(objects: Seq<ObjectView>, x: int, y: int, id: int) -> bool {
    &&& 0 < id < objects.len()
    &&& objects[id].fighter is Some
    &&& objects[id].is_at(x, y)
    &&& forall|j: int|
        0 < j < id ==> !((#[trigger] objects[j]).fighter is Some && objects[j].is_at(x, y))
}

/// Whether nothing but the player that can fight stands on (`x`, `y`).
pub open spec fn no_monster_at(objects: Seq<ObjectView>, x: int, y: int) -> bool {
    forall|j: int|
        0 < j < objects.len() ==> !((#[trigger] objects[j]).fighter is Some && objects[j].is_at(x, y))
}

/// The monster on the chosen tile (`x`, `y`): the first entity other than
/// the player that can fight and stands there.
pub fn target_monster(x: i32, y: i32, objects: &[Object]) -> (found: Option<usize>)
    ensures
        match found {
            Some(id) => first_monster_at(views(objects@), x as int, y as int, id as int),
            None => no_monster_at(views(objects@), x as int, y as int),
        },
{
    let mut id: usize = 0;
    while id < objects.len()
        invariant
            id <= objects@.len(),
            forall|j: int|
                0 < j < id ==> !((#[trigger] views(objects@)[j]).fighter is Some && views(
                    objects@,
                )[j].is_at(x as int, y as int)),
        decreases objects@.len() - id,
    {
        if objects[id].x == x && objects[id].y == y && objects[id].fighter.is_some() && id
            != PLAYER {
            assert(views(objects@)[id as int].fighter is Some);
            return Some(id);
        }
        id += 1;
    }
    None
}

/// Whether the field of view is to be computed anew: whether the player has
/// moved off the tile `previous`.
pub fn fov_recompute(previous: (i32, i32), objects: &[Object]) -> (moved: bool)
    requires
        objects@.len() > 0,
    ensures
        moved == (previous != (objects@[0].x, objects@[0].y)),
{
    previous.0 != objects[PLAYER].x || previous.1 != objects[PLAYER].y
}

/// The world after the first entities have had their turn, one for each of
/// `draws`, in their order: the entities and the lines added to the log. The
/// `i`-th of `draws` is the way the `i`-th entity stumbles should it be confused.
pub open spec fn turns_outcome(
    draws: Seq<(int, int)>,
    fov: FovMap,
    map: Grid,
    inventory: Seq<ObjectView>,
    objects: Seq<ObjectView>,
) -> (Seq<ObjectView>, Seq<LogLine>)
    decreases draws.len(),
{
    if draws.len() == 0 {
        (objects, Seq::empty())
    } else {
        let earlier = turns_outcome(draws.drop_last(), fov, map, inventory, objects);
        let turn = turn_outcome(
            draws.len() - 1,
            draws.last().0,
            draws.last().1,
            fov,
            map,
            inventory,
            earlier.0,
        );
        (turn.0, earlier.1 + turn.1)
    }
}

/// Whether the world went from `before` to `after` by every entity having
/// its turn, in the order of the entities, stumbling as `draws` say.
pub open spec fn turns_done(
    draws: Seq<(int, int)>,
    fov: FovMap,
    before: Game,
    objects: Seq<ObjectView>,
    after: Game,
    after_objects: Seq<ObjectView>,
) -> bool {
    let outcome = turns_outcome(draws, fov, before.map, views(before.inventory@), objects);
    &&& draws.len() == objects.len()
    &&& forall|i: int| 0 <= i < draws.len() ==> is_stumble((#[trigger] draws[i]).0, draws[i].1)
    &&& after_objects == outcome.0
    &&& only_logged(before, after, outcome.1)
}

/// Whether an attack of `monster` on `player` stays within the numbers of
/// `i32` however many hit points the player has left: both stats and the
/// blow, and the experience of the monster, which must be able to fight,
/// should it kill a player who can.
pub open spec fn threat_safe(
    monster: ObjectView,
    player: ObjectView,
    inventory: Seq<ObjectView>,
) -> bool {
    &&& fits_i32(monster.power(inventory))
    &&& fits_i32(player.defense(inventory))
    &&& fits_i32(monster.blow(player, inventory))
    &&& player.fighter is Some ==> monster.fighter is Some && fits_i32(
        monster.fighter->0.xp + player.fighter->0.xp,
    )
}

/// Whether the turn of every entity stays within the level and within the
/// numbers of `i32`: the player does not act on its own and stands on a tile
/// of the level, and every entity that acts keeps clear of the level's edge
/// and is no threat to the numbers.
pub open spec fn monsters_safe(inventory: Seq<ObjectView>, objects: Seq<ObjectView>) -> bool {
    &&& objects.len() > 0
    &&& objects[0].ai is None
    &&& in_bounds(objects[0].x as int, objects[0].y as int)
    &&& forall|k: int|
        0 < k < objects.len() && (#[trigger] objects[k]).ai is Some ==> has_room_to_stumble(
            objects,
            k,
        ) && threat_safe(objects[k], objects[0], inventory)
}

/// Whether `now` is the player `start` with as many hit points or fewer and
/// otherwise unchanged, or is a player who no longer stands; either way it
/// stands where `start` stood and does not act on its own.
pub open spec fn worn_down(start: ObjectView, now: ObjectView) -> bool {
    &&& now.x == start.x
    &&& now.y == start.y
    &&& now.ai is None
    &&& now.fighter is Some && now.fighter->0.hp > 0 ==> start.fighter is Some && now == (ObjectView {
        fighter: Some(Fighter { hp: now.fighter->0.hp, ..start.fighter->0 }),
        ..start
    }) && now.fighter->0.hp <= start.fighter->0.hp
}

/// A turn of an entity other than the player leaves every third entity as it
/// is, and the player where it stood, worn down at most.
proof fn lemma_turn_frame(
    id: int,
    dx: int,
    dy: int,
    fov: FovMap,
    map: Grid,
    inventory: Seq<ObjectView>,
    objects: Seq<ObjectView>,
    start: ObjectView,
)
    requires
        0 < id < objects.len(),
        worn_down(start, objects[0]),
        objects[id].ai is Some ==> threat_safe(objects[id], start, inventory),
    ensures
        turn_outcome(id, dx, dy, fov, map, inventory, objects).0.len() == objects.len(),
        forall|k: int|
            0 < k < objects.len() && k != id ==> turn_outcome(
                id,
                dx,
                dy,
                fov,
                map,
                inventory,
                objects,
            ).0[k] == objects[k],
        worn_down(start, turn_outcome(id, dx, dy, fov, map, inventory, objects).0[0]),
{
}

/// Every entity that acts on its own has its turn, in the order of the
/// entities; see `turn_outcome`. Confused entities stumble in directions
/// drawn at random.
pub fn monsters_turn(fov: &FovMap, game: &mut Game, objects: &mut [Object])
    requires
        grid_wf(old(game).map),
        monsters_safe(views(old(game).inventory@), views(old(objects)@)),
    ensures
        final(objects)@.len() == old(objects)@.len(),
        exists|draws: Seq<(int, int)>| #[trigger]
            turns_done(
                draws,
                *fov,
                *old(game),
                views(old(objects)@),
                *final(game),
                views(final(objects)@),
            ),
{
    let ghost start = views(objects@);
    let ghost inventory = views(game.inventory@);
    let ghost mut draws: Seq<(int, int)> = Seq::empty();
    let ghost mut lines: Seq<LogLine> = Seq::empty();
    let n = objects.len();
    let mut id: usize = 0;
    proof {
        assert(game.messages@ + lines =~= game.messages@);
    }
    while id < n
        invariant
            id <= n,
            n == objects@.len(),
            n == start.len(),
            start == views(old(objects)@),
            inventory == views(old(game).inventory@),
            grid_wf(old(game).map),
            monsters_safe(inventory, start),
            game.map == old(game).map,
            game.inventory == old(game).inventory,
            game.dungeon_level == old(game).dungeon_level,
            game.messages@ == old(game).messages@ + lines,
            draws.len() == id,
            forall|i: int| 0 <= i < draws.len() ==> is_stumble((#[trigger] draws[i]).0, draws[i].1),
            turns_outcome(draws, *fov, old(game).map, inventory, start) == (views(objects@), lines),
            forall|k: int| id <= k < n && k != 0 ==> views(objects@)[k] == start[k],
            worn_down(start[0], views(objects@)[0]),
        decreases n - id,
    {
        let ghost now = views(objects@);
        let ghost log = game.messages@;
        let ghost game_now = *game;
        proof {
            if id > 0 {
                assert(now[id as int] == start[id as int]);
                if now[id as int].ai is Some {
                    assert(threat_safe(start[id as int], start[0], inventory));
                    assert(has_room_to_stumble(start, id as int));
                    let acting = with_ai(now, id as int, None);
                    assert(acting[0] == now[0]);
                }
            }
            assert(turn_safe(id as int, *fov, inventory, now));
        }
        let ghost mut step: (int, int) = (0, 0);
        if objects[id].ai.is_some() {
            ai_take_turn(id, fov, game, objects);
            proof {
                let (dx, dy) = choose|dx: int, dy: int| #[trigger]
                    took_turn(id as int, dx, dy, *fov, game_now, now, *game, views(objects@));
                step = (dx, dy);
            }
        } else {
            proof {
                assert(game.messages@ + Seq::<LogLine>::empty() =~= game.messages@);
            }
        }
        proof {
            let turn = turn_outcome(
                id as int,
                step.0,
                step.1,
                *fov,
                old(game).map,
                inventory,
                now,
            );
            assert(views(objects@) == turn.0);
            assert(game.messages@ == log + turn.1);
            if id > 0 {
                lemma_turn_frame(
                    id as int,
                    step.0,
                    step.1,
                    *fov,
                    old(game).map,
                    inventory,
                    now,
                    start[0],
                );
            }
            let earlier = draws;
            draws = draws.push(step);
            assert(draws.drop_last() =~= earlier);
            assert(game.messages@ =~= old(game).messages@ + (lines + turn.1));
            lines = lines + turn.1;
        }
        id += 1;
    }
    proof {
        assert(turns_done(draws, *fov, *old(game), start, *game, views(objects@)));
    }
}

/// The world has its turn once the player has acted: if the player has spent
/// a turn and is alive, every entity that acts on its own has its turn.
pub fn world_turn(action: PlayerAction, fov: &FovMap, game: &mut Game, objects: &mut [Object])
    requires
        old(objects)@.len() > 0,
        action == PlayerAction::TookTurn && old(objects)@[0].alive ==> grid_wf(old(game).map)
            && monsters_safe(views(old(game).inventory@), views(old(objects)@)),
    ensures
        final(objects)@.len() == old(objects)@.len(),
        if action == PlayerAction::TookTurn && old(objects)@[0].alive {
            exists|draws: Seq<(int, int)>| #[trigger]
                turns_done(
                    draws,
                    *fov,
                    *old(game),
                    views(old(objects)@),
                    *final(game),
                    views(final(objects)@),
                )
        } else {
            *final(game) == *old(game) && views(final(objects)@) == views(old(objects)@)
        },
{
    if objects[PLAYER].alive && action == PlayerAction::TookTurn {
        monsters_turn(fov, game, objects);
    }
}

} // verus!
