//! Building a level: rooms, the corridors between them, and who lives there.
use vstd::prelude::*;
use crate::ai::Ai;
use crate::colors::{darker_green, desaturated_green, light_yellow, orange, sky, violet, white};
use crate::equipment::{Equipment, Slot};
use crate::fighter::{DeathCallback, Fighter};
use crate::game::{
    from_dungeon_level, grid_wf, in_bounds, is_blocked, occupied, spec_from_dungeon_level,
    spec_is_blocked, tile_at, Grid, Tile, Transition, MAP_HEIGHT, MAP_WIDTH, PLAYER,
};
use crate::item::Item;
use crate::object::{views, Object, ObjectView};
use crate::rng::{random_bool, random_range, weighted_index, weights_total};

verus! {

/// The largest width or height of a room, walls included.
pub const ROOM_MAX_SIZE: i32 = 10;

/// The smallest width or height of a room, walls included.
pub const ROOM_MIN_SIZE: i32 = 6;

/// How many rooms the generator tries to place.
pub const MAX_ROOMS: i32 = 30;

/// An axis-aligned rectangle of tiles; as a room, its outermost tiles are walls.
#[derive(Clone, Copy, Debug, PartialEq, Eq, Structural)]
pub struct Rect {
    pub x1: i32,
    pub y1: i32,
    pub x2: i32,
    pub y2: i32,
}

/// Half of `sum`, rounded towards zero.
pub open spec fn half(sum: int) -> int {
    if sum >= 0 {
        sum / 2
    } else {
        -((-sum) / 2)
    }
}

/// Whether `v` lies between `a` and `b`, both included, whichever is larger.
pub open spec fn between(a: int, b: int, v: int) -> bool {
    (a <= v <= b) || (b <= v <= a)
}

impl Rect {
    /// The rectangle with corner (`x`, `y`) and the given extent.
    pub fn new(x: i32, y: i32, width: i32, height: i32) -> (r: Rect)
        requires
            i32::MIN <= x + width <= i32::MAX,
            i32::MIN <= y + height <= i32::MAX,
        ensures
            r == (Rect { x1: x, y1: y, x2: (x + width) as i32, y2: (y + height) as i32 }),
    {
        Rect { x1: x, y1: y, x2: x + width, y2: y + height }
    }

    /// The tile in the middle of the rectangle.
    pub open spec fn spec_center(self) -> (int, int) {
        (half(self.x1 + self.x2), half(self.y1 + self.y2))
    }

    /// The tile in the middle of the rectangle.
    pub fn center(&self) -> (c: (i32, i32))
        ensures
            (c.0 as int, c.1 as int) == self.spec_center(),
    {
        let sum_x: i64 = self.x1 as i64 + self.x2 as i64;
        let sum_y: i64 = self.y1 as i64 + self.y2 as i64;
        let center_x: i64 = if sum_x >= 0 {
            sum_x / 2
        } else {
            -((-sum_x) / 2)
        };
        let center_y: i64 = if sum_y >= 0 {
            sum_y / 2
        } else {
            -((-sum_y) / 2)
        };
        (center_x as i32, center_y as i32)
    }

    /// Whether the two rectangles share a tile, borders included.
    pub open spec fn spec_intersect(self, other: Rect) -> bool {
        (self.x1 <= other.x2) && (self.x2 >= other.x1) && (self.y1 <= other.y2) && (self.y2
            >= other.y1)
    }

    /// Whether the two rectangles share a tile, borders included.
    pub fn intersect(&self, other: &Rect) -> (b: bool)
        ensures
            b == self.spec_intersect(*other),
    {
        (self.x1 <= other.x2) && (self.x2 >= other.x1) && (self.y1 <= other.y2) && (self.y2
            >= other.y1)
    }

    /// Whether (`x`, `y`) lies strictly inside the rectangle: on a room's floor.
    pub open spec fn inside(self, x: int, y: int) -> bool {
        self.x1 < x < self.x2 && self.y1 < y < self.y2
    }

    /// Whether every tile strictly inside the rectangle is a tile of the level.
    pub open spec fn interior_in_bounds(self) -> bool {
        (self.x1 + 1 < self.x2 && self.y1 + 1 < self.y2) ==> (-1 <= self.x1 && self.x2 <= MAP_WIDTH
            && -1 <= self.y1 && self.y2 <= MAP_HEIGHT)
    }
}

/// Whether `after` is `before` with exactly the tiles that satisfy `dug`
/// turned into open floor.
pub open spec fn carved(before: Grid, after: Grid, dug: spec_fn(int, int) -> bool) -> bool {
    &&& grid_wf(after)
    &&& forall|x: int, y: int|
        in_bounds(x, y) ==> #[trigger] tile_at(after, x, y) == if dug(x, y) {
            Tile::empty()
        } else {
            tile_at(before, x, y)
        }
}

/// Digs a horizontal corridor in row `y` from column `x1` to column `x2`.
pub fn create_h_tunnel(x1: i32, x2: i32, y: i32, map: &mut Grid)
    requires
        grid_wf(*old(map)),
        in_bounds(x1 as int, y as int),
        in_bounds(x2 as int, y as int),
    ensures
        carved(*old(map), *final(map), |x: int, yy: int| yy == y && between(x1 as int, x2 as int, x)),
{
    let low = if x1 < x2 {
        x1
    } else {
        x2
    };
    let high = if x1 < x2 {
        x2
    } else {
        x1
    };
    let mut x: i32 = low;
    while x < high + 1
        invariant
            low <= x <= high + 1,
            0 <= low,
            high < MAP_WIDTH,
            0 <= y < MAP_HEIGHT,
            carved(*old(map), *map, |xx: int, yy: int| yy == y && low <= xx < x),
        decreases high + 1 - x,
    {
        let ghost before = *map;
        map[x as usize][y as usize] = Tile::empty();
        assert(carved(*old(map), *map, |xx: int, yy: int| yy == y && low <= xx < x + 1)) by {
            assert forall|xx: int, yy: int| in_bounds(xx, yy) implies #[trigger] tile_at(
                *map,
                xx,
                yy,
            ) == if yy == y && low <= xx < x + 1 {
                Tile::empty()
            } else {
                tile_at(*old(map), xx, yy)
            } by {
                assert(tile_at(before, xx, yy) == if yy == y && low <= xx < x {
                    Tile::empty()
                } else {
                    tile_at(*old(map), xx, yy)
                });
            }
        }
        x += 1;
    }
    assert forall|xx: int, yy: int| in_bounds(xx, yy) implies #[trigger] tile_at(*map, xx, yy)
        == if yy == y && between(x1 as int, x2 as int, xx) {
        Tile::empty()
    } else {
        tile_at(*old(map), xx, yy)
    } by {}
}

/// Digs a vertical corridor in column `x` from row `y1` to row `y2`.
pub fn create_v_tunnel(y1: i32, y2: i32, x: i32, map: &mut Grid)
    requires
        grid_wf(*old(map)),
        in_bounds(x as int, y1 as int),
        in_bounds(x as int, y2 as int),
    ensures
        carved(*old(map), *final(map), |xx: int, y: int| xx == x && between(y1 as int, y2 as int, y)),
{
    let low = if y1 < y2 {
        y1
    } else {
        y2
    };
    let high = if y1 < y2 {
        y2
    } else {
        y1
    };
    let mut y: i32 = low;
    while y < high + 1
        invariant
            low <= y <= high + 1,
            0 <= low,
            high < MAP_HEIGHT,
            0 <= x < MAP_WIDTH,
            carved(*old(map), *map, |xx: int, yy: int| xx == x && low <= yy < y),
        decreases high + 1 - y,
    {
        let ghost before = *map;
        map[x as usize][y as usize] = Tile::empty();
        assert(carved(*old(map), *map, |xx: int, yy: int| xx == x && low <= yy < y + 1)) by {
            assert forall|xx: int, yy: int| in_bounds(xx, yy) implies #[trigger] tile_at(
                *map,
                xx,
                yy,
            ) == if xx == x && low <= yy < y + 1 {
                Tile::empty()
            } else {
                tile_at(*old(map), xx, yy)
            } by {
                assert(tile_at(before, xx, yy) == if xx == x && low <= yy < y {
                    Tile::empty()
                } else {
                    tile_at(*old(map), xx, yy)
                });
            }
        }
        y += 1;
    }
    assert forall|xx: int, yy: int| in_bounds(xx, yy) implies #[trigger] tile_at(*map, xx, yy)
        == if xx == x && between(y1 as int, y2 as int, yy) {
        Tile::empty()
    } else {
        tile_at(*old(map), xx, yy)
    } by {}
}

/// Digs out the floor of `room`, leaving its outermost tiles as they are.
pub fn create_room(room: Rect, map: &mut Grid)
    requires
        grid_wf(*old(map)),
        room.interior_in_bounds(),
    ensures
        carved(*old(map), *final(map), |x: int, y: int| room.inside(x, y)),
{
    if room.x1 as i64 + 1 >= room.x2 as i64 || room.y1 as i64 + 1 >= room.y2 as i64 {
        assert forall|x: int, y: int| in_bounds(x, y) implies #[trigger] tile_at(*map, x, y)
            == if room.inside(x, y) {
            Tile::empty()
        } else {
            tile_at(*old(map), x, y)
        } by {}
        return ;
    }
    let mut x: i32 = room.x1 + 1;
    while x < room.x2
        invariant
            room.x1 + 1 <= x <= room.x2,
            room.y1 + 1 < room.y2,
            -1 <= room.x1 && room.x2 <= MAP_WIDTH && -1 <= room.y1 && room.y2 <= MAP_HEIGHT,
            carved(*old(map), *map, |xx: int, yy: int| room.inside(xx, yy) && xx < x),
        decreases room.x2 - x,
    {
        let mut y: i32 = room.y1 + 1;
        while y < room.y2
            invariant
                room.x1 + 1 <= x < room.x2,
                room.y1 + 1 <= y <= room.y2,
                -1 <= room.x1 && room.x2 <= MAP_WIDTH && -1 <= room.y1 && room.y2 <= MAP_HEIGHT,
                carved(
                    *old(map),
                    *map,
                    |xx: int, yy: int| room.inside(xx, yy) && (xx < x || (xx == x && yy < y)),
                ),
            decreases room.y2 - y,
        {
            let ghost before = *map;
            map[x as usize][y as usize] = Tile::empty();
            assert(carved(
                *old(map),
                *map,
                |xx: int, yy: int| room.inside(xx, yy) && (xx < x || (xx == x && yy < y + 1)),
            )) by {
                assert forall|xx: int, yy: int| in_bounds(xx, yy) implies #[trigger] tile_at(
                    *map,
                    xx,
                    yy,
                ) == if room.inside(xx, yy) && (xx < x || (xx == x && yy < y + 1)) {
                    Tile::empty()
                } else {
                    tile_at(*old(map), xx, yy)
                } by {
                    assert(tile_at(before, xx, yy) == if room.inside(xx, yy) && (xx < x || (xx == x
                        && yy < y)) {
                        Tile::empty()
                    } else {
                        tile_at(*old(map), xx, yy)
                    });
                }
            }
            y += 1;
        }
        assert(carved(*old(map), *map, |xx: int, yy: int| room.inside(xx, yy) && xx < x + 1)) by {
            assert forall|xx: int, yy: int| in_bounds(xx, yy) implies #[trigger] tile_at(
                *map,
                xx,
                yy,
            ) == if room.inside(xx, yy) && xx < x + 1 {
                Tile::empty()
            } else {
                tile_at(*old(map), xx, yy)
            } by {}
        }
        x += 1;
    }
    assert forall|x: int, y: int| in_bounds(x, y) implies #[trigger] tile_at(*map, x, y)
        == if room.inside(x, y) {
        Tile::empty()
    } else {
        tile_at(*old(map), x, y)
    } by {}
}

/// The kinds of monster that live in the dungeon.
#[derive(Clone, Copy, Debug, PartialEq, Eq, Structural)]
pub enum MonsterKind {
    Goblin,
    Orc,
}

impl MonsterKind {
    /// The combat statistics a monster of this kind starts with.
    pub open spec fn fighter(self) -> Fighter {
        match self {
            MonsterKind::Goblin => Fighter {
                base_max_hp: 10,
                hp: 10,
                base_defense: 0,
                base_power: 3,
                xp: 25,
                on_death: DeathCallback::Monster,
            },
            MonsterKind::Orc => Fighter {
                base_max_hp: 15,
                hp: 15,
                base_defense: 1,
                base_power: 5,
                xp: 80,
                on_death: DeathCallback::Monster,
            },
        }
    }

    /// How likely a monster is of this kind, in parts of a hundred.
    pub open spec fn chance(self) -> u32 {
        match self {
            MonsterKind::Goblin => 80,
            MonsterKind::Orc => 20,
        }
    }
}

/// A freshly spawned monster of the given kind on tile (`x`, `y`).
pub open spec fn spec_monster(kind: MonsterKind, x: i32, y: i32) -> ObjectView {
    let bare = match kind {
        MonsterKind::Goblin => ObjectView::new(x, y, 'g', "goblin"@, desaturated_green(), true),
        MonsterKind::Orc => ObjectView::new(x, y, 'o', "orc"@, darker_green(), true),
    };
    ObjectView { alive: true, fighter: Some(kind.fighter()), ai: Some(Ai::Basic), ..bare }
}

/// A freshly spawned monster of the given kind on tile (`x`, `y`).
pub fn make_monster(kind: MonsterKind, x: i32, y: i32) -> (monster: Object)
    ensures
        monster@ == spec_monster(kind, x, y),
{
    let mut monster = match kind {
        MonsterKind::Goblin => {
            let mut goblin = Object::new(x, y, 'g', "goblin", desaturated_green(), true);
            goblin.fighter = Some(
                Fighter {
                    base_max_hp: 10,
                    hp: 10,
                    base_defense: 0,
                    base_power: 3,
                    xp: 25,
                    on_death: DeathCallback::Monster,
                },
            );
            goblin.ai = Some(Ai::Basic);
            goblin
        },
        MonsterKind::Orc => {
            let mut orc = Object::new(x, y, 'o', "orc", darker_green(), true);
            orc.fighter = Some(
                Fighter {
                    base_max_hp: 15,
                    hp: 15,
                    base_defense: 1,
                    base_power: 5,
                    xp: 80,
                    on_death: DeathCallback::Monster,
                },
            );
            orc.ai = Some(Ai::Basic);
            orc
        },
    };
    monster.alive = true;
    monster
}

/// How likely a spawned item is of the given kind at dungeon level `level`,
/// relative to the other kinds. Swords turn up from level 4, shields from level 8.
pub open spec fn item_chance(item: Item, level: u32) -> u32 {
    match item {
        Item::Heal => 70,
        Item::Fireball => 10,
        Item::Lightning => 10,
        Item::Confusion => 10,
        Item::Sword => if level >= 4 {
            5
        } else {
            0
        },
        Item::Shield => if level >= 8 {
            15
        } else {
            0
        },
    }
}

/// A freshly spawned item of the given kind on tile (`x`, `y`).
pub open spec fn spec_item(item: Item, x: i32, y: i32) -> ObjectView {
    match item {
        Item::Heal => ObjectView {
            item: Some(Item::Heal),
            ..ObjectView::new(x, y, '!', "healing potion"@, violet(), false)
        },
        Item::Fireball => ObjectView {
            item: Some(Item::Fireball),
            ..ObjectView::new(x, y, '#', "fireball scroll"@, orange(), false)
        },
        Item::Lightning => ObjectView {
            item: Some(Item::Lightning),
            ..ObjectView::new(x, y, '#', "lightning scroll"@, light_yellow(), false)
        },
        Item::Confusion => ObjectView {
            item: Some(Item::Confusion),
            ..ObjectView::new(x, y, '#', "confusion scroll"@, light_yellow(), false)
        },
        Item::Sword => ObjectView {
            item: Some(Item::Sword),
            equipment: Some(
                Equipment {
                    equipped: false,
                    slot: Slot::RightHand,
                    power_bonus: 5,
                    defense_bonus: 0,
                    max_hp_bonus: 0,
                },
            ),
            ..ObjectView::new(x, y, '/', "sword"@, sky(), false)
        },
        Item::Shield => ObjectView {
            item: Some(Item::Shield),
            equipment: Some(
                Equipment {
                    equipped: false,
                    slot: Slot::LeftHand,
                    power_bonus: 0,
                    defense_bonus: 5,
                    max_hp_bonus: 4,
                },
            ),
            ..ObjectView::new(x, y, '0', "shield"@, sky(), false)
        },
    }
}

/// A freshly spawned item of the given kind on tile (`x`, `y`).
pub fn make_item(item: Item, x: i32, y: i32) -> (object: Object)
    ensures
        object@ == spec_item(item, x, y),
{
    match item {
        Item::Heal => {
            let mut potion = Object::new(x, y, '!', "healing potion", violet(), false);
            potion.item = Some(Item::Heal);
            potion
        },
        Item::Fireball => {
            let mut scroll = Object::new(x, y, '#', "fireball scroll", orange(), false);
            scroll.item = Some(Item::Fireball);
            scroll
        },
        Item::Lightning => {
            let mut scroll = Object::new(x, y, '#', "lightning scroll", light_yellow(), false);
            scroll.item = Some(Item::Lightning);
            scroll
        },
        Item::Confusion => {
            let mut scroll = Object::new(x, y, '#', "confusion scroll", light_yellow(), false);
            scroll.item = Some(Item::Confusion);
            scroll
        },
        Item::Sword => {
            let mut sword = Object::new(x, y, '/', "sword", sky(), false);
            sword.item = Some(Item::Sword);
            sword.equipment = Some(
                Equipment {
                    equipped: false,
                    slot: Slot::RightHand,
                    power_bonus: 5,
                    defense_bonus: 0,
                    max_hp_bonus: 0,
                },
            );
            sword
        },
        Item::Shield => {
            let mut shield = Object::new(x, y, '0', "shield", sky(), false);
            shield.item = Some(Item::Shield);
            shield.equipment = Some(
                Equipment {
                    equipped: false,
                    slot: Slot::LeftHand,
                    power_bonus: 0,
                    defense_bonus: 5,
                    max_hp_bonus: 4,
                },
            );
            shield
        },
    }
}

/// The most monsters a room holds at dungeon level `level`.
pub open spec fn spec_max_monsters(level: u32) -> u32 {
    if level >= 6 {
        5
    } else if level >= 4 {
        3
    } else if level >= 1 {
        2
    } else {
        0
    }
}

/// The most items a room holds at dungeon level `level`.
pub open spec fn spec_max_items(level: u32) -> u32 {
    if level >= 4 {
        2
    } else if level >= 1 {
        1
    } else {
        0
    }
}

/// What a table of up to three steps gives at `level`.
proof fn lemma_short_tables(a: Transition, b: Transition, c: Transition, level: u32)
    ensures
        spec_from_dungeon_level(seq![a], level) == if a.level <= level {
            a.value
        } else {
            0
        },
        spec_from_dungeon_level(seq![a, b], level) == if b.level <= level {
            b.value
        } else {
            spec_from_dungeon_level(seq![a], level)
        },
        spec_from_dungeon_level(seq![a, b, c], level) == if c.level <= level {
            c.value
        } else {
            spec_from_dungeon_level(seq![a, b], level)
        },
{
    reveal_with_fuel(spec_from_dungeon_level, 3);
    assert(seq![a].drop_last() =~= Seq::<Transition>::empty());
    assert(seq![a, b].drop_last() =~= seq![a]);
    assert(seq![a, b, c].drop_last() =~= seq![a, b]);
}

/// The most monsters a room holds at dungeon level `level`.
pub fn max_monsters(level: u32) -> (n: u32)
    ensures
        n == spec_max_monsters(level),
{
    let table = vec![
        Transition { level: 1, value: 2 },
        Transition { level: 4, value: 3 },
        Transition { level: 6, value: 5 },
    ];
    proof {
        lemma_short_tables(table@[0], table@[1], table@[2], level);
        assert(table@ =~= seq![table@[0], table@[1], table@[2]]);
    }
    from_dungeon_level(table.as_slice(), level)
}

/// The most items a room holds at dungeon level `level`.
pub fn max_items(level: u32) -> (n: u32)
    ensures
        n == spec_max_items(level),
{
    let table = vec![Transition { level: 1, value: 1 }, Transition { level: 4, value: 2 }];
    proof {
        lemma_short_tables(table@[0], table@[1], table@[1], level);
        assert(table@ =~= seq![table@[0], table@[1]]);
    }
    from_dungeon_level(table.as_slice(), level)
}

/// The kinds of monster in the order of their table of chances.
pub open spec fn monster_kinds() -> Seq<MonsterKind> {
    seq![MonsterKind::Goblin, MonsterKind::Orc]
}

/// The kinds of item in the order of their table of chances.
pub open spec fn item_kinds() -> Seq<Item> {
    seq![Item::Heal, Item::Fireball, Item::Lightning, Item::Confusion, Item::Sword, Item::Shield]
}

/// The chances of the kinds of monster, in the order of `monster_kinds`.
pub fn monster_table() -> (table: Vec<u32>)
    ensures
        table@ == monster_kinds().map_values(|kind: MonsterKind| kind.chance()),
        weights_total(table@) == 100,
{
    let table = vec![80u32, 20u32];
    proof {
        assert(table@ =~= monster_kinds().map_values(|kind: MonsterKind| kind.chance()));
        reveal_with_fuel(weights_total, 3);
        assert(table@.drop_last() =~= seq![80u32]);
        assert(seq![80u32].drop_last() =~= Seq::<u32>::empty());
    }
    table
}

/// The chances of the kinds of item at `level`, in the order of `item_kinds`.
pub fn item_table(level: u32) -> (table: Vec<u32>)
    ensures
        table@ == item_kinds().map_values(|item: Item| item_chance(item, level)),
        100 <= weights_total(table@) <= 120,
{
    let sword_table = vec![Transition { level: 4, value: 5 }];
    let shield_table = vec![Transition { level: 8, value: 15 }];
    proof {
        lemma_short_tables(sword_table@[0], sword_table@[0], sword_table@[0], level);
        lemma_short_tables(shield_table@[0], shield_table@[0], shield_table@[0], level);
        assert(sword_table@ =~= seq![sword_table@[0]]);
        assert(shield_table@ =~= seq![shield_table@[0]]);
    }
    let sword = from_dungeon_level(sword_table.as_slice(), level);
    let shield = from_dungeon_level(shield_table.as_slice(), level);
    let table = vec![70u32, 10u32, 10u32, 10u32, sword, shield];
    proof {
        assert(table@ =~= item_kinds().map_values(|item: Item| item_chance(item, level)));
        reveal_with_fuel(weights_total, 7);
        let t5 = seq![70u32, 10u32, 10u32, 10u32, sword];
        let t4 = seq![70u32, 10u32, 10u32, 10u32];
        let t3 = seq![70u32, 10u32, 10u32];
        let t2 = seq![70u32, 10u32];
        let t1 = seq![70u32];
        assert(table@.drop_last() =~= t5);
        assert(t5.drop_last() =~= t4);
        assert(t4.drop_last() =~= t3);
        assert(t3.drop_last() =~= t2);
        assert(t2.drop_last() =~= t1);
        assert(t1.drop_last() =~= Seq::<u32>::empty());
    }
    table
}

/// The kind of monster at position `index` of the table of chances.
fn monster_kind_at(index: usize) -> (kind: MonsterKind)
    requires
        index < 2,
    ensures
        kind == monster_kinds()[index as int],
{
    if index == 0 {
        MonsterKind::Goblin
    } else {
        MonsterKind::Orc
    }
}

/// The kind of item at position `index` of the table of chances.
fn item_kind_at(index: usize) -> (item: Item)
    requires
        index < 6,
    ensures
        item == item_kinds()[index as int],
{
    if index == 0 {
        Item::Heal
    } else if index == 1 {
        Item::Fireball
    } else if index == 2 {
        Item::Lightning
    } else if index == 3 {
        Item::Confusion
    } else if index == 4 {
        Item::Sword
    } else {
        Item::Shield
    }
}

/// Whether `o` is as some kind of monster is when it has just been spawned.
pub open spec fn is_spawned_monster(o: ObjectView) -> bool {
    exists|kind: MonsterKind| o == spec_monster(kind, o.x, o.y)
}

/// Whether `o` is as an item is when it has just been spawned, of a kind that
/// turns up at dungeon level `level`.
pub open spec fn is_spawned_item(o: ObjectView, level: u32) -> bool {
    exists|item: Item| item_chance(item, level) > 0 && o == spec_item(item, o.x, o.y)
}

/// Whether the `k`-th entity stands on the floor of `room`, on a tile that
/// neither rock nor any entity before it in `objects` blocks.
pub open spec fn placed_free(room: Rect, map: Grid, objects: Seq<ObjectView>, k: int) -> bool {
    &&& room.inside(objects[k].x as int, objects[k].y as int)
    &&& !spec_is_blocked(objects[k].x as int, objects[k].y as int, map, objects.take(k))
}

/// Whether `after` is `before` followed by freshly spawned monsters up to
/// position `monsters_end` and by freshly spawned items from there on, within
/// the limits of dungeon level `level`, each on a free tile of the floor of `room`.
pub open spec fn populated_with(
    room: Rect,
    map: Grid,
    level: u32,
    before: Seq<ObjectView>,
    after: Seq<ObjectView>,
    monsters_end: int,
) -> bool {
    &&& before.len() <= monsters_end <= after.len()
    &&& monsters_end - before.len() <= spec_max_monsters(level)
    &&& after.len() - monsters_end <= spec_max_items(level)
    &&& after.take(before.len() as int) == before
    &&& forall|k: int|
        before.len() <= k < monsters_end ==> #[trigger] placed_free(room, map, after, k)
            && is_spawned_monster(after[k])
    &&& forall|k: int|
        monsters_end <= k < after.len() ==> #[trigger] placed_free(room, map, after, k)
            && is_spawned_item(after[k], level)
}

/// What populating `room` may do to the entities of a level: those there
/// `before` stay as they are, and behind them come first at most
/// `spec_max_monsters` freshly spawned monsters, then at most `spec_max_items`
/// freshly spawned items, each on a free tile of the room's floor.
pub open spec fn populated(
    room: Rect,
    map: Grid,
    level: u32,
    before: Seq<ObjectView>,
    after: Seq<ObjectView>,
) -> bool {
    exists|monsters_end: int| #[trigger] populated_with(room, map, level, before, after, monsters_end)
}

/// An entity that was placed on a free tile stays so when another joins behind it.
proof fn lemma_placed_free_stable(
    room: Rect,
    map: Grid,
    objects: Seq<ObjectView>,
    newcomer: ObjectView,
    k: int,
)
    requires
        0 <= k < objects.len(),
        placed_free(room, map, objects, k),
    ensures
        placed_free(room, map, objects.push(newcomer), k),
{
    assert(objects.push(newcomer).take(k) =~= objects.take(k));
}

/// One draw for a spawn: the tile, the place of the kind in its table of
/// chances, and whether the tile is rock.
pub struct Spawn {
    pub x: int,
    pub y: int,
    pub kind: int,
    pub rock: bool,
}

/// The entities once a monster has been drawn: it joins them as the last,
/// freshly spawned, unless its tile is rock or held by an entity that blocks.
pub open spec fn spawned_monster(objects: Seq<ObjectView>, spawn: Spawn) -> Seq<ObjectView> {
    if spawn.rock || occupied(objects, spawn.x, spawn.y) {
        objects
    } else {
        objects.push(spec_monster(monster_kinds()[spawn.kind], spawn.x as i32, spawn.y as i32))
    }
}

/// The entities once an item has been drawn: it joins them as the last,
/// freshly spawned, unless its tile is rock or held by an entity that blocks.
pub open spec fn spawned_item(objects: Seq<ObjectView>, spawn: Spawn) -> Seq<ObjectView> {
    if spawn.rock || occupied(objects, spawn.x, spawn.y) {
        objects
    } else {
        objects.push(spec_item(item_kinds()[spawn.kind], spawn.x as i32, spawn.y as i32))
    }
}

/// The entities once the monsters of `spawns` have been drawn, one after the other.
pub open spec fn spawned_monsters(objects: Seq<ObjectView>, spawns: Seq<Spawn>) -> Seq<ObjectView>
    decreases spawns.len(),
{
    if spawns.len() == 0 {
        objects
    } else {
        spawned_monster(spawned_monsters(objects, spawns.drop_last()), spawns.last())
    }
}

/// The entities once the items of `spawns` have been drawn, one after the other.
pub open spec fn spawned_items(objects: Seq<ObjectView>, spawns: Seq<Spawn>) -> Seq<ObjectView>
    decreases spawns.len(),
{
    if spawns.len() == 0 {
        objects
    } else {
        spawned_item(spawned_items(objects, spawns.drop_last()), spawns.last())
    }
}

/// Whether `spawn` is a draw that populating `room` may make for a monster:
/// a tile of the room's floor, rock or not as `map` has it, and a kind of
/// monster.
pub open spec fn monster_draw_fits(room: Rect, map: Grid, spawn: Spawn) -> bool {
    &&& room.inside(spawn.x, spawn.y)
    &&& spawn.rock == tile_at(map, spawn.x, spawn.y).blocked
    &&& 0 <= spawn.kind < monster_kinds().len()
}

/// Whether `spawn` is a draw that populating `room` may make for an item at
/// dungeon level `level`: a tile of the room's floor, rock or not as `map`
/// has it, and a kind of item that turns up at that level.
pub open spec fn item_draw_fits(room: Rect, map: Grid, level: u32, spawn: Spawn) -> bool {
    &&& room.inside(spawn.x, spawn.y)
    &&& spawn.rock == tile_at(map, spawn.x, spawn.y).blocked
    &&& 0 <= spawn.kind < item_kinds().len()
    &&& item_chance(item_kinds()[spawn.kind], level) > 0
}

/// Whether `after` is what populating `room` makes of the entities `before`
/// for the draws `monsters` and `items`: no more draws than dungeon level
/// `level` allows, each one that populating may make, and the entities those
/// that the draws give, monsters first.
pub open spec fn populated_by(
    room: Rect,
    map: Grid,
    level: u32,
    before: Seq<ObjectView>,
    monsters: Seq<Spawn>,
    items: Seq<Spawn>,
    after: Seq<ObjectView>,
) -> bool {
    &&& monsters.len() <= spec_max_monsters(level)
    &&& items.len() <= spec_max_items(level)
    &&& forall|i: int| 0 <= i < monsters.len() ==> monster_draw_fits(room, map, #[trigger] monsters[i])
    &&& forall|i: int| 0 <= i < items.len() ==> item_draw_fits(room, map, level, #[trigger] items[i])
    &&& after == spawned_items(spawned_monsters(before, monsters), items)
}

/// Spawns a monster of the kind at place `kind_index` of the table of chances
/// on tile (`x`, `y`), unless the tile is blocked.
pub fn place_monster(x: i32, y: i32, kind_index: usize, map: &Grid, objects: &mut Vec<Object>)
    requires
        grid_wf(*map),
        in_bounds(x as int, y as int),
        kind_index < monster_kinds().len(),
    ensures
        views(final(objects)@) == if spec_is_blocked(
            x as int,
            y as int,
            *map,
            views(old(objects)@),
        ) {
            views(old(objects)@)
        } else {
            views(old(objects)@).push(spec_monster(monster_kinds()[kind_index as int], x, y))
        },
        views(final(objects)@) == spawned_monster(
            views(old(objects)@),
            Spawn {
                x: x as int,
                y: y as int,
                kind: kind_index as int,
                rock: tile_at(*map, x as int, y as int).blocked,
            },
        ),
{
    let taken = is_blocked(x, y, map, objects.as_slice());
    if !taken {
        let monster = make_monster(monster_kind_at(kind_index), x, y);
        objects.push(monster);
        assert(views(objects@) =~= views(old(objects)@).push(
            spec_monster(monster_kinds()[kind_index as int], x, y),
        ));
    } else {
        assert(views(objects@) =~= views(old(objects)@));
    }
}

/// Spawns an item of the kind at place `kind_index` of the table of chances
/// on tile (`x`, `y`), unless the tile is blocked.
pub fn place_item(x: i32, y: i32, kind_index: usize, map: &Grid, objects: &mut Vec<Object>)
    requires
        grid_wf(*map),
        in_bounds(x as int, y as int),
        kind_index < item_kinds().len(),
    ensures
        views(final(objects)@) == if spec_is_blocked(
            x as int,
            y as int,
            *map,
            views(old(objects)@),
        ) {
            views(old(objects)@)
        } else {
            views(old(objects)@).push(spec_item(item_kinds()[kind_index as int], x, y))
        },
        views(final(objects)@) == spawned_item(
            views(old(objects)@),
            Spawn {
                x: x as int,
                y: y as int,
                kind: kind_index as int,
                rock: tile_at(*map, x as int, y as int).blocked,
            },
        ),
{
    let taken = is_blocked(x, y, map, objects.as_slice());
    if !taken {
        let item = make_item(item_kind_at(kind_index), x, y);
        objects.push(item);
        assert(views(objects@) =~= views(old(objects)@).push(
            spec_item(item_kinds()[kind_index as int], x, y),
        ));
    } else {
        assert(views(objects@) =~= views(old(objects)@));
    }
}

/// Populates `room` with monsters and items: up to `max_monsters(level)`
/// monsters, then up to `max_items(level)` items, each on a tile of the room's
/// floor drawn at random, and left out where that tile is taken.
pub fn place_objects(room: Rect, map: &Grid, objects: &mut Vec<Object>, level: u32)
    requires
        grid_wf(*map),
        room.interior_in_bounds(),
        level >= 1 ==> room.x1 + 1 < room.x2 && room.y1 + 1 < room.y2,
    ensures
        populated(room, *map, level, views(old(objects)@), views(final(objects)@)),
        exists|monsters: Seq<Spawn>, items: Seq<Spawn>| #[trigger]
            populated_by(
                room,
                *map,
                level,
                views(old(objects)@),
                monsters,
                items,
                views(final(objects)@),
            ),
{
    let ghost before = views(objects@);
    let ghost mut monsters: Seq<Spawn> = Seq::empty();
    let ghost mut items: Seq<Spawn> = Seq::empty();
    let max_monsters = max_monsters(level);
    let num_monsters = random_range(0, max_monsters as i32 + 1);
    let monster_chances = monster_table();
    let mut placed: i32 = 0;
    proof {
        assert(views(objects@).take(before.len() as int) =~= before);
    }
    while placed < num_monsters
        invariant
            grid_wf(*map),
            room.interior_in_bounds(),
            level >= 1 ==> room.x1 + 1 < room.x2 && room.y1 + 1 < room.y2,
            0 <= placed <= num_monsters <= max_monsters == spec_max_monsters(level),
            monster_chances@ == monster_kinds().map_values(|kind: MonsterKind| kind.chance()),
            weights_total(monster_chances@) == 100,
            monsters.len() == placed,
            forall|i: int|
                0 <= i < monsters.len() ==> monster_draw_fits(room, *map, #[trigger] monsters[i]),
            views(objects@) == spawned_monsters(before, monsters),
            before.len() <= views(objects@).len() <= before.len() + placed,
            views(objects@).take(before.len() as int) == before,
            forall|k: int|
                before.len() <= k < views(objects@).len() ==> #[trigger] placed_free(
                    room,
                    *map,
                    views(objects@),
                    k,
                ) && is_spawned_monster(views(objects@)[k]),
        decreases num_monsters - placed,
    {
        let x = random_range(room.x1 + 1, room.x2);
        let y = random_range(room.y1 + 1, room.y2);
        let taken = is_blocked(x, y, map, objects.as_slice());
        // looking at the entities has not changed them
        assert(forall|k: int|
            before.len() <= k < views(objects@).len() ==> #[trigger] placed_free(
                room,
                *map,
                views(objects@),
                k,
            ) && is_spawned_monster(views(objects@)[k]));
        let ghost earlier = views(objects@);
        let ghost mut spawn = Spawn {
            x: x as int,
            y: y as int,
            kind: 0,
            rock: tile_at(*map, x as int, y as int).blocked,
        };
        if !taken {
            let index = weighted_index(&monster_chances);
            place_monster(x, y, index, map, objects);
            proof {
                spawn = Spawn { kind: index as int, ..spawn };
                let newcomer = spec_monster(monster_kinds()[index as int], x, y);
                let now = views(objects@);
                assert(now =~= earlier.push(newcomer));
                assert(now[earlier.len() as int] == newcomer);
                assert(now.take(before.len() as int) =~= earlier.take(before.len() as int));
                assert(now.take(earlier.len() as int) =~= earlier);
                assert forall|k: int| before.len() <= k < now.len() implies #[trigger] placed_free(
                    room,
                    *map,
                    now,
                    k,
                ) && is_spawned_monster(now[k]) by {
                    if k < earlier.len() {
                        assert(placed_free(room, *map, earlier, k));
                        lemma_placed_free_stable(room, *map, earlier, newcomer, k);
                    }
                }
            }
        }
        proof {
            let drawn = monsters;
            monsters = monsters.push(spawn);
            assert(monsters.drop_last() =~= drawn);
            assert(views(objects@) == spawned_monster(earlier, spawn));
            if taken {
                assert(views(objects@) == earlier);
            }
        }
        assert(forall|k: int|
            before.len() <= k < views(objects@).len() ==> #[trigger] placed_free(
                room,
                *map,
                views(objects@),
                k,
            ) && is_spawned_monster(views(objects@)[k]));
        placed += 1;
    }
    let ghost monsters_end = views(objects@).len() as int;
    let ghost with_monsters = views(objects@);
    let max_items = max_items(level);
    let num_items = random_range(0, max_items as i32 + 1);
    let item_chances = item_table(level);
    let mut placed: i32 = 0;
    while placed < num_items
        invariant
            grid_wf(*map),
            room.interior_in_bounds(),
            level >= 1 ==> room.x1 + 1 < room.x2 && room.y1 + 1 < room.y2,
            0 <= placed <= num_items <= max_items == spec_max_items(level),
            item_chances@ == item_kinds().map_values(|item: Item| item_chance(item, level)),
            100 <= weights_total(item_chances@) <= 120,
            items.len() == placed,
            forall|i: int|
                0 <= i < items.len() ==> item_draw_fits(room, *map, level, #[trigger] items[i]),
            views(objects@) == spawned_items(with_monsters, items),
            before.len() <= monsters_end <= views(objects@).len() <= monsters_end + placed,
            monsters_end - before.len() <= spec_max_monsters(level),
            views(objects@).take(before.len() as int) == before,
            forall|k: int|
                before.len() <= k < monsters_end ==> #[trigger] placed_free(
                    room,
                    *map,
                    views(objects@),
                    k,
                ) && is_spawned_monster(views(objects@)[k]),
            forall|k: int|
                monsters_end <= k < views(objects@).len() ==> #[trigger] placed_free(
                    room,
                    *map,
                    views(objects@),
                    k,
                ) && is_spawned_item(views(objects@)[k], level),
        decreases num_items - placed,
    {
        let x = random_range(room.x1 + 1, room.x2);
        let y = random_range(room.y1 + 1, room.y2);
        let taken = is_blocked(x, y, map, objects.as_slice());
        // looking at the entities has not changed them
        assert(forall|k: int|
            before.len() <= k < monsters_end ==> #[trigger] placed_free(
                room,
                *map,
                views(objects@),
                k,
            ) && is_spawned_monster(views(objects@)[k]));
        assert(forall|k: int|
            monsters_end <= k < views(objects@).len() ==> #[trigger] placed_free(
                room,
                *map,
                views(objects@),
                k,
            ) && is_spawned_item(views(objects@)[k], level));
        let ghost earlier = views(objects@);
        let ghost mut spawn = Spawn {
            x: x as int,
            y: y as int,
            kind: 0,
            rock: tile_at(*map, x as int, y as int).blocked,
        };
        if !taken {
            let index = weighted_index(&item_chances);
            place_item(x, y, index, map, objects);
            proof {
                spawn = Spawn { kind: index as int, ..spawn };
                let kind = item_kinds()[index as int];
                let newcomer = spec_item(kind, x, y);
                let now = views(objects@);
                assert(now =~= earlier.push(newcomer));
                assert(now[earlier.len() as int] == newcomer);
                assert(now.take(before.len() as int) =~= earlier.take(before.len() as int));
                assert(now.take(earlier.len() as int) =~= earlier);
                assert(item_chance(kind, level) > 0);
                assert forall|k: int| before.len() <= k < monsters_end implies #[trigger] placed_free(
                    room,
                    *map,
                    now,
                    k,
                ) && is_spawned_monster(now[k]) by {
                    assert(placed_free(room, *map, earlier, k));
                    lemma_placed_free_stable(room, *map, earlier, newcomer, k);
                }
                assert forall|k: int| monsters_end <= k < now.len() implies #[trigger] placed_free(
                    room,
                    *map,
                    now,
                    k,
                ) && is_spawned_item(now[k], level) by {
                    if k < earlier.len() {
                        assert(placed_free(room, *map, earlier, k));
                        lemma_placed_free_stable(room, *map, earlier, newcomer, k);
                    }
                }
            }
        }
        proof {
            let drawn = items;
            items = items.push(spawn);
            assert(items.drop_last() =~= drawn);
            assert(views(objects@) == spawned_item(earlier, spawn));
        }
        placed += 1;
    }
    assert(populated_with(room, *map, level, before, views(objects@), monsters_end));
    assert(populated_by(room, *map, level, before, monsters, items, views(objects@)));
}

/// Whether `room` is one the generator may draw: 6 to 10 tiles each way, and
/// within the level with at least the last column and row to spare.
pub open spec fn room_fits(room: Rect) -> bool {
    &&& ROOM_MIN_SIZE <= room.x2 - room.x1 <= ROOM_MAX_SIZE
    &&& ROOM_MIN_SIZE <= room.y2 - room.y1 <= ROOM_MAX_SIZE
    &&& 0 <= room.x1 && room.x2 < MAP_WIDTH
    &&& 0 <= room.y1 && room.y2 < MAP_HEIGHT
}

/// Whether (`x`, `y`) lies on the L-shaped corridor `from` one tile `to`
/// another: along the row of `from` and then the column of `to` when it starts
/// out horizontally, along the column of `from` and then the row of `to` otherwise.
pub open spec fn on_corridor(
    from: (int, int),
    to: (int, int),
    horizontal_first: bool,
    x: int,
    y: int,
) -> bool {
    if horizontal_first {
        (y == from.1 && between(from.0, to.0, x)) || (x == to.0 && between(from.1, to.1, y))
    } else {
        (x == from.0 && between(from.1, to.1, y)) || (y == to.1 && between(from.0, to.0, x))
    }
}

/// Whether (`x`, `y`) lies on the floor of the `i`-th room.
pub open spec fn in_room(rooms: Seq<Rect>, i: int, x: int, y: int) -> bool {
    rooms[i].inside(x, y)
}

/// Whether (`x`, `y`) lies on the corridor that joins the `i`-th room to the
/// one before it; `turns[i]` says whether that corridor starts out horizontally.
pub open spec fn on_link(rooms: Seq<Rect>, turns: Seq<bool>, i: int, x: int, y: int) -> bool {
    on_corridor(rooms[i - 1].spec_center(), rooms[i].spec_center(), turns[i], x, y)
}

/// Whether (`x`, `y`) lies on the floor of some room.
pub open spec fn housed(rooms: Seq<Rect>, x: int, y: int) -> bool {
    exists|i: int| 0 <= i < rooms.len() && #[trigger] in_room(rooms, i, x, y)
}

/// Whether (`x`, `y`) is open in the level made of `rooms`, each joined to the
/// one before it: on the floor of a room or on a corridor.
pub open spec fn is_floor(rooms: Seq<Rect>, turns: Seq<bool>, x: int, y: int) -> bool {
    housed(rooms, x, y) || exists|i: int|
        1 <= i < rooms.len() && #[trigger] on_link(rooms, turns, i, x, y)
}

/// Whether `map` is the level made of `rooms`: open floor exactly on the floor
/// of the rooms and on the corridors between consecutive rooms, rock elsewhere,
/// and nothing explored.
pub open spec fn dug_out(map: Grid, rooms: Seq<Rect>, turns: Seq<bool>) -> bool {
    &&& grid_wf(map)
    &&& forall|x: int, y: int|
        in_bounds(x, y) ==> #[trigger] tile_at(map, x, y) == if is_floor(rooms, turns, x, y) {
            Tile::empty()
        } else {
            Tile::wall()
        }
}

/// Whether no two of `rooms` share a tile, borders included.
pub open spec fn rooms_apart(rooms: Seq<Rect>) -> bool {
    forall|i: int, j: int|
        0 <= i < rooms.len() && 0 <= j < rooms.len() && i != j ==> !(#[trigger] rooms[i]).spec_intersect(
            #[trigger] rooms[j],
        )
}

/// Whether `rooms` is a layout the generator may produce: between 1 and
/// `MAX_ROOMS` rooms of admissible size and place, no two sharing a tile.
pub open spec fn layout_ok(rooms: Seq<Rect>, turns: Seq<bool>) -> bool {
    &&& 1 <= rooms.len() <= MAX_ROOMS
    &&& turns.len() == rooms.len()
    &&& forall|i: int| 0 <= i < rooms.len() ==> room_fits(#[trigger] rooms[i])
    &&& rooms_apart(rooms)
}

/// The stairs down, on tile (`x`, `y`).
pub open spec fn spec_stairs(x: i32, y: i32) -> ObjectView {
    ObjectView { always_visible: true, ..ObjectView::new(x, y, '>', "stairs"@, white(), false) }
}

/// Whether the `k`-th entity is a freshly spawned monster or item on the floor
/// of some room.
pub open spec fn spawned_in(rooms: Seq<Rect>, level: u32, objects: Seq<ObjectView>, k: int) -> bool {
    &&& is_spawned_monster(objects[k]) || is_spawned_item(objects[k], level)
    &&& housed(rooms, objects[k].x as int, objects[k].y as int)
}

/// Whether the `j`-th entity, if it blocks movement, stands on another tile
/// than the `k`-th.
pub open spec fn not_under(objects: Seq<ObjectView>, j: int, k: int) -> bool {
    objects[j].blocks ==> !objects[k].is_at(objects[j].x as int, objects[j].y as int)
}

/// Whether `objects` are the entities of a fresh level: the player as it was
/// but at the centre of the first room, then monsters and items spawned in the
/// rooms, none placed onto a monster spawned before it, and last the stairs at
/// the centre of the last room. A room holds seven spawned entities at most.
pub open spec fn level_objects(
    rooms: Seq<Rect>,
    level: u32,
    player: ObjectView,
    objects: Seq<ObjectView>,
) -> bool {
    &&& 2 <= objects.len() <= 2 + 7 * rooms.len()
    &&& objects[0] == (ObjectView {
        x: rooms[0].spec_center().0 as i32,
        y: rooms[0].spec_center().1 as i32,
        ..player
    })
    &&& objects.last() == spec_stairs(
        rooms.last().spec_center().0 as i32,
        rooms.last().spec_center().1 as i32,
    )
    &&& forall|k: int| 1 <= k < objects.len() - 1 ==> #[trigger] spawned_in(rooms, level, objects, k)
    &&& forall|j: int, k: int| 1 <= j < k < objects.len() - 1 ==> #[trigger] not_under(objects, j, k)
}

/// Whether `map`, `rooms` and `objects` are a level as the generator builds it
/// for dungeon level `level` around the entity `player`.
pub open spec fn generated(
    map: Grid,
    rooms: Seq<Rect>,
    turns: Seq<bool>,
    level: u32,
    player: ObjectView,
    objects: Seq<ObjectView>,
) -> bool {
    &&& layout_ok(rooms, turns)
    &&& dug_out(map, rooms, turns)
    &&& level_objects(rooms, level, player, objects)
}

/// What is floor once a room has joined the layout: what was floor before, the
/// floor of the new room, and the corridor to the room before it.
proof fn lemma_floor_grows(
    rooms: Seq<Rect>,
    turns: Seq<bool>,
    room: Rect,
    turn: bool,
    x: int,
    y: int,
)
    requires
        turns.len() == rooms.len(),
    ensures
        is_floor(rooms.push(room), turns.push(turn), x, y) <==> (is_floor(rooms, turns, x, y)
            || room.inside(x, y) || (rooms.len() >= 1 && on_corridor(
            rooms.last().spec_center(),
            room.spec_center(),
            turn,
            x,
            y,
        ))),
{
    let rooms2 = rooms.push(room);
    let turns2 = turns.push(turn);
    let n = rooms.len() as int;
    if housed(rooms, x, y) {
        let i = choose|i: int| 0 <= i < rooms.len() && #[trigger] in_room(rooms, i, x, y);
        assert(in_room(rooms2, i, x, y));
    }
    if exists|i: int| 1 <= i < rooms.len() && #[trigger] on_link(rooms, turns, i, x, y) {
        let i = choose|i: int| 1 <= i < rooms.len() && #[trigger] on_link(rooms, turns, i, x, y);
        assert(on_link(rooms2, turns2, i, x, y));
    }
    if room.inside(x, y) {
        assert(in_room(rooms2, n, x, y));
    }
    if rooms.len() >= 1 && on_corridor(rooms.last().spec_center(), room.spec_center(), turn, x, y) {
        assert(on_link(rooms2, turns2, n, x, y));
    }
    if housed(rooms2, x, y) {
        let i = choose|i: int| 0 <= i < rooms2.len() && #[trigger] in_room(rooms2, i, x, y);
        if i < n {
            assert(in_room(rooms, i, x, y));
        }
    }
    if exists|i: int| 1 <= i < rooms2.len() && #[trigger] on_link(rooms2, turns2, i, x, y) {
        let i = choose|i: int| 1 <= i < rooms2.len() && #[trigger] on_link(rooms2, turns2, i, x, y);
        if i < n {
            assert(on_link(rooms, turns, i, x, y));
        }
    }
}

/// The centre of a room of admissible size lies on its floor.
pub proof fn lemma_center_inside(room: Rect)
    requires
        room_fits(room),
    ensures
        room.inside(room.spec_center().0, room.spec_center().1),
        in_bounds(room.spec_center().0, room.spec_center().1),
{
}

/// Whether `room` shares a tile with any of `rooms`.
pub fn intersects_any(room: &Rect, rooms: &Vec<Rect>) -> (found: bool)
    ensures
        found == exists|i: int| 0 <= i < rooms@.len() && room.spec_intersect(#[trigger] rooms@[i]),
{
    let mut i: usize = 0;
    while i < rooms.len()
        invariant
            i <= rooms@.len(),
            forall|j: int| 0 <= j < i ==> !room.spec_intersect(#[trigger] rooms@[j]),
        decreases rooms@.len() - i,
    {
        if room.intersect(&rooms[i]) {
            return true;
        }
        i += 1;
    }
    false
}

/// Joins two room centres by an L-shaped corridor, starting out horizontally
/// or vertically as `horizontal_first` says.
pub fn connect(from: (i32, i32), to: (i32, i32), horizontal_first: bool, map: &mut Grid)
    requires
        grid_wf(*old(map)),
        in_bounds(from.0 as int, from.1 as int),
        in_bounds(to.0 as int, to.1 as int),
    ensures
        carved(
            *old(map),
            *final(map),
            |x: int, y: int|
                on_corridor(
                    (from.0 as int, from.1 as int),
                    (to.0 as int, to.1 as int),
                    horizontal_first,
                    x,
                    y,
                ),
        ),
{
    let ghost start = *map;
    if horizontal_first {
        create_h_tunnel(from.0, to.0, from.1, map);
        let ghost middle = *map;
        create_v_tunnel(from.1, to.1, to.0, map);
        assert forall|x: int, y: int| in_bounds(x, y) implies #[trigger] tile_at(*map, x, y)
            == if on_corridor(
            (from.0 as int, from.1 as int),
            (to.0 as int, to.1 as int),
            horizontal_first,
            x,
            y,
        ) {
            Tile::empty()
        } else {
            tile_at(start, x, y)
        } by {
            assert(tile_at(middle, x, y) == if y == from.1 && between(
                from.0 as int,
                to.0 as int,
                x,
            ) {
                Tile::empty()
            } else {
                tile_at(start, x, y)
            });
        }
    } else {
        create_v_tunnel(from.1, to.1, from.0, map);
        let ghost middle = *map;
        create_h_tunnel(from.0, to.0, to.1, map);
        assert forall|x: int, y: int| in_bounds(x, y) implies #[trigger] tile_at(*map, x, y)
            == if on_corridor(
            (from.0 as int, from.1 as int),
            (to.0 as int, to.1 as int),
            horizontal_first,
            x,
            y,
        ) {
            Tile::empty()
        } else {
            tile_at(start, x, y)
        } by {
            assert(tile_at(middle, x, y) == if x == from.0 && between(
                from.1 as int,
                to.1 as int,
                y,
            ) {
                Tile::empty()
            } else {
                tile_at(start, x, y)
            });
        }
    }
}

/// A level of solid rock.
pub fn solid_rock() -> (map: Grid)
    ensures
        grid_wf(map),
        forall|x: int, y: int| in_bounds(x, y) ==> #[trigger] tile_at(map, x, y) == Tile::wall(),
{
    let column = vec![Tile::wall(); MAP_HEIGHT as usize];
    let map = vec![column; MAP_WIDTH as usize];
    map
}

/// A room that shares no tile with the rooms of a layout joins it: once its
/// floor is dug out and, unless it is the first, a corridor leads to it from
/// the room before, the tiles are those of the layout with the room added,
/// and still no two rooms share a tile.
pub proof fn lemma_layout_grows(
    map_before: Grid,
    map_with_room: Grid,
    map: Grid,
    rooms: Seq<Rect>,
    turns: Seq<bool>,
    room: Rect,
    turn: bool,
)
    requires
        turns.len() == rooms.len(),
        dug_out(map_before, rooms, turns),
        rooms_apart(rooms),
        forall|i: int| 0 <= i < rooms.len() ==> !room.spec_intersect(#[trigger] rooms[i]),
        carved(map_before, map_with_room, |x: int, y: int| room.inside(x, y)),
        rooms.len() == 0 ==> map == map_with_room,
        rooms.len() > 0 ==> carved(
            map_with_room,
            map,
            |x: int, y: int|
                on_corridor(rooms.last().spec_center(), room.spec_center(), turn, x, y),
        ),
    ensures
        dug_out(map, rooms.push(room), turns.push(turn)),
        rooms_apart(rooms.push(room)),
{
    let rooms2 = rooms.push(room);
    let turns2 = turns.push(turn);
    assert forall|x: int, y: int| in_bounds(x, y) implies #[trigger] tile_at(map, x, y)
        == if is_floor(rooms2, turns2, x, y) {
        Tile::empty()
    } else {
        Tile::wall()
    } by {
        lemma_floor_grows(rooms, turns, room, turn, x, y);
        assert(tile_at(map_with_room, x, y) == if room.inside(x, y) {
            Tile::empty()
        } else {
            tile_at(map_before, x, y)
        });
        assert(tile_at(map_before, x, y) == if is_floor(rooms, turns, x, y) {
            Tile::empty()
        } else {
            Tile::wall()
        });
    }
    assert forall|i: int, j: int|
        0 <= i < rooms2.len() && 0 <= j < rooms2.len() && i != j implies !(
    #[trigger] rooms2[i]).spec_intersect(#[trigger] rooms2[j]) by {
        if i < rooms.len() && j < rooms.len() {
            assert(!rooms[i].spec_intersect(rooms[j]));
        } else if i < rooms.len() {
            assert(!room.spec_intersect(rooms[i]));
        } else {
            assert(!room.spec_intersect(rooms[j]));
        }
    }
}

/// An entity that was spawned in one of `rooms` is still so when a room joins them.
proof fn lemma_spawned_in_stable(
    rooms: Seq<Rect>,
    room: Rect,
    level: u32,
    objects: Seq<ObjectView>,
    k: int,
)
    requires
        spawned_in(rooms, level, objects, k),
    ensures
        spawned_in(rooms.push(room), level, objects, k),
{
    let x = objects[k].x as int;
    let y = objects[k].y as int;
    let i = choose|i: int| 0 <= i < rooms.len() && #[trigger] in_room(rooms, i, x, y);
    assert(in_room(rooms.push(room), i, x, y));
}

/// The draws for one room: its corner and extent, the draws for its monsters
/// and its items, and whether the corridor to it starts out horizontally.
pub struct RoomDraw {
    pub x: int,
    pub y: int,
    pub w: int,
    pub h: int,
    pub monsters: Seq<Spawn>,
    pub items: Seq<Spawn>,
    pub horizontal_first: bool,
}

/// A level in the making: the rooms accepted so far, how the corridor to
/// each starts out, and the entities.
pub struct Layout {
    pub rooms: Seq<Rect>,
    pub turns: Seq<bool>,
    pub objects: Seq<ObjectView>,
}

/// The room that `draw` draws.
pub open spec fn drawn_room(draw: RoomDraw) -> Rect {
    Rect {
        x1: draw.x as i32,
        y1: draw.y as i32,
        x2: (draw.x + draw.w) as i32,
        y2: (draw.y + draw.h) as i32,
    }
}

/// Whether `room` is turned down: it shares a tile with one of `rooms`.
pub open spec fn rejected(rooms: Seq<Rect>, room: Rect) -> bool {
    exists|i: int| 0 <= i < rooms.len() && room.spec_intersect(#[trigger] rooms[i])
}

/// The level in the making once a room has been drawn. A room that shares a
/// tile with one accepted before is turned down and changes nothing. Any
/// other is accepted: its monsters and then its items are drawn; the player
/// moves to its centre if it is the first room; and it joins the rooms, the
/// corridor to it starting out as drawn.
pub open spec fn with_room(layout: Layout, draw: RoomDraw) -> Layout {
    let room = drawn_room(draw);
    if rejected(layout.rooms, room) {
        layout
    } else {
        let first = layout.rooms.len() == 0;
        let populated = spawned_items(spawned_monsters(layout.objects, draw.monsters), draw.items);
        Layout {
            rooms: layout.rooms.push(room),
            turns: layout.turns.push(first || draw.horizontal_first),
            objects: if first {
                populated.update(
                    0,
                    ObjectView {
                        x: room.spec_center().0 as i32,
                        y: room.spec_center().1 as i32,
                        ..populated[0]
                    },
                )
            } else {
                populated
            },
        }
    }
}

/// The level in the making once the rooms of `draws` have been drawn, one
/// after the other.
pub open spec fn laid_out(start: Layout, draws: Seq<RoomDraw>) -> Layout
    decreases draws.len(),
{
    if draws.len() == 0 {
        start
    } else {
        with_room(laid_out(start, draws.drop_last()), draws.last())
    }
}

/// Whether `spawn` is a draw for a monster on the open floor of `room`.
pub open spec fn floor_monster_draw(room: Rect, spawn: Spawn) -> bool {
    &&& room.inside(spawn.x, spawn.y)
    &&& !spawn.rock
    &&& 0 <= spawn.kind < monster_kinds().len()
}

/// Whether `spawn` is a draw for an item on the open floor of `room`, of a
/// kind that turns up at dungeon level `level`.
pub open spec fn floor_item_draw(room: Rect, level: u32, spawn: Spawn) -> bool {
    &&& room.inside(spawn.x, spawn.y)
    &&& !spawn.rock
    &&& 0 <= spawn.kind < item_kinds().len()
    &&& item_chance(item_kinds()[spawn.kind], level) > 0
}

/// Whether `draw` is one that the generator may make at dungeon level
/// `level`: a room of 6 to 10 tiles each way that keeps the last column and
/// row of the level free, and for it no more monsters and items than the
/// level allows, each on its floor.
pub open spec fn room_draw_fits(level: u32, draw: RoomDraw) -> bool {
    &&& ROOM_MIN_SIZE <= draw.w <= ROOM_MAX_SIZE
    &&& ROOM_MIN_SIZE <= draw.h <= ROOM_MAX_SIZE
    &&& 0 <= draw.x < MAP_WIDTH - draw.w
    &&& 0 <= draw.y < MAP_HEIGHT - draw.h
    &&& draw.monsters.len() <= spec_max_monsters(level)
    &&& draw.items.len() <= spec_max_items(level)
    &&& forall|i: int|
        0 <= i < draw.monsters.len() ==> floor_monster_draw(
            drawn_room(draw),
            #[trigger] draw.monsters[i],
        )
    &&& forall|i: int|
        0 <= i < draw.items.len() ==> floor_item_draw(
            drawn_room(draw),
            level,
            #[trigger] draw.items[i],
        )
}

/// Whether `map`, `rooms` and `objects` are the level that the generator
/// builds for dungeon level `level` around the entity `player` when it
/// draws `draws`: `MAX_ROOMS` draws that it may make; the rooms that they lay
/// out, of which there is one at least; the tiles dug out for those rooms
/// and the corridors between them; and the entities that they lay out, with
/// the stairs at the centre of the last room behind them.
pub open spec fn generated_by(
    map: Grid,
    rooms: Seq<Rect>,
    draws: Seq<RoomDraw>,
    level: u32,
    player: ObjectView,
    objects: Seq<ObjectView>,
) -> bool {
    let layout = laid_out(
        Layout { rooms: Seq::empty(), turns: Seq::empty(), objects: seq![player] },
        draws,
    );
    &&& draws.len() == MAX_ROOMS
    &&& forall|i: int| 0 <= i < draws.len() ==> room_draw_fits(level, #[trigger] draws[i])
    &&& rooms == layout.rooms
    &&& rooms.len() >= 1
    &&& dug_out(map, layout.rooms, layout.turns)
    &&& objects == layout.objects.push(
        spec_stairs(rooms.last().spec_center().0 as i32, rooms.last().spec_center().1 as i32),
    )
}

/// Whether `map` and `objects` are a level that the generator builds for
/// dungeon level `level` around the entity `player`, for some draws.
pub open spec fn made_by_draws(
    map: Grid,
    level: u32,
    player: ObjectView,
    objects: Seq<ObjectView>,
) -> bool {
    exists|rooms: Seq<Rect>, draws: Seq<RoomDraw>| #[trigger]
        generated_by(map, rooms, draws, level, player, objects)
}

/// Takes up the room drawn with corner (`x`, `y`) and extent `w` by `h`. If
/// it shares a tile with one of `rooms`, it is turned down and nothing
/// changes; else its floor is dug out and it is returned.
pub fn dig_room(x: i32, y: i32, w: i32, h: i32, rooms: &Vec<Rect>, map: &mut Grid) -> (room: Option<
    Rect,
>)
    requires
        grid_wf(*old(map)),
        i32::MIN <= x + w <= i32::MAX,
        i32::MIN <= y + h <= i32::MAX,
        (Rect { x1: x, y1: y, x2: (x + w) as i32, y2: (y + h) as i32 }).interior_in_bounds(),
    ensures
        room == if rejected(
            rooms@,
            Rect { x1: x, y1: y, x2: (x + w) as i32, y2: (y + h) as i32 },
        ) {
            None
        } else {
            Some(Rect { x1: x, y1: y, x2: (x + w) as i32, y2: (y + h) as i32 })
        },
        room is None ==> *final(map) == *old(map),
        room is Some ==> carved(*old(map), *final(map), |a: int, b: int| (room->0).inside(a, b)),
{
    let new_room = Rect::new(x, y, w, h);
    let failed = intersects_any(&new_room, rooms);
    if failed {
        None
    } else {
        create_room(new_room, map);
        Some(new_room)
    }
}

/// Lets the accepted `room` join `rooms`. The first room takes the player,
/// the first entity, to its centre; every other is joined to the room before
/// it by an L-shaped corridor that starts out as `horizontal_first` says.
pub fn join_room(
    room: Rect,
    horizontal_first: bool,
    rooms: &mut Vec<Rect>,
    map: &mut Grid,
    objects: &mut [Object],
)
    requires
        grid_wf(*old(map)),
        old(objects)@.len() > 0,
        old(rooms)@.len() > 0 ==> in_bounds(
            old(rooms)@.last().spec_center().0,
            old(rooms)@.last().spec_center().1,
        ) && in_bounds(room.spec_center().0, room.spec_center().1),
    ensures
        final(rooms)@ == old(rooms)@.push(room),
        final(objects)@.len() == old(objects)@.len(),
        old(rooms)@.len() == 0 ==> *final(map) == *old(map) && views(final(objects)@) == views(
            old(objects)@,
        ).update(
            0,
            ObjectView {
                x: room.spec_center().0 as i32,
                y: room.spec_center().1 as i32,
                ..views(old(objects)@)[0]
            },
        ),
        old(rooms)@.len() > 0 ==> views(final(objects)@) == views(old(objects)@) && carved(
            *old(map),
            *final(map),
            |x: int, y: int|
                on_corridor(
                    old(rooms)@.last().spec_center(),
                    room.spec_center(),
                    horizontal_first,
                    x,
                    y,
                ),
        ),
{
    let (new_x, new_y) = room.center();
    if rooms.is_empty() {
        objects[PLAYER].set_pos(new_x, new_y);
        assert(views(objects@) =~= views(old(objects)@).update(
            0,
            ObjectView { x: new_x, y: new_y, ..views(old(objects)@)[0] },
        ));
    } else {
        let (prev_x, prev_y) = rooms[rooms.len() - 1].center();
        connect((prev_x, prev_y), (new_x, new_y), horizontal_first, map);
        assert(views(objects@) =~= views(old(objects)@));
    }
    rooms.push(room);
}

/// Builds a level for dungeon level `level`: `MAX_ROOMS` rooms are drawn, and
/// each that shares no tile with one accepted before is dug out, populated
/// and joined to the room before it. Entities other than the player are
/// dropped first; the player moves to the centre of the first room and the
/// stairs stand at the centre of the last. Returns the tiles and the rooms
/// in the order in which they were accepted.
pub fn generate(objects: &mut Vec<Object>, level: u32) -> (built: (Grid, Vec<Rect>))
    requires
        old(objects)@.len() >= 1,
    ensures
        exists|turns: Seq<bool>| #[trigger]
            generated(
                built.0,
                built.1@,
                turns,
                level,
                views(old(objects)@)[0],
                views(final(objects)@),
            ),
        exists|draws: Seq<RoomDraw>| #[trigger]
            generated_by(
                built.0,
                built.1@,
                draws,
                level,
                views(old(objects)@)[0],
                views(final(objects)@),
            ),
{
    let ghost player = views(objects@)[0];
    let mut map = solid_rock();
    objects.truncate(1);
    let mut rooms: Vec<Rect> = Vec::new();
    let ghost mut turns: Seq<bool> = Seq::empty();
    let ghost mut draws: Seq<RoomDraw> = Seq::empty();
    let ghost start = Layout { rooms: Seq::empty(), turns: Seq::empty(), objects: seq![player] };
    let mut attempts: i32 = 0;
    proof {
        assert(views(objects@) =~= seq![player]);
        assert(rooms@ =~= Seq::<Rect>::empty());
        assert forall|x: int, y: int| !is_floor(rooms@, turns, x, y) by {}
    }
    while attempts < MAX_ROOMS
        invariant
            0 <= attempts <= MAX_ROOMS,
            rooms@.len() <= attempts,
            attempts >= 1 ==> rooms@.len() >= 1,
            turns.len() == rooms@.len(),
            dug_out(map, rooms@, turns),
            forall|i: int| 0 <= i < rooms@.len() ==> room_fits(#[trigger] rooms@[i]),
            rooms_apart(rooms@),
            1 <= objects@.len() <= 1 + 7 * rooms@.len(),
            rooms@.len() == 0 ==> views(objects@)[0] == player,
            rooms@.len() >= 1 ==> views(objects@)[0] == (ObjectView {
                x: rooms@[0].spec_center().0 as i32,
                y: rooms@[0].spec_center().1 as i32,
                ..player
            }),
            forall|k: int|
                1 <= k < objects@.len() ==> #[trigger] spawned_in(rooms@, level, views(objects@), k),
            forall|j: int, k: int|
                1 <= j < k < objects@.len() ==> #[trigger] not_under(views(objects@), j, k),
            start == (Layout { rooms: Seq::empty(), turns: Seq::empty(), objects: seq![player] }),
            draws.len() == attempts,
            forall|i: int| 0 <= i < draws.len() ==> room_draw_fits(level, #[trigger] draws[i]),
            laid_out(start, draws) == (Layout {
                rooms: rooms@,
                turns: turns,
                objects: views(objects@),
            }),
        decreases MAX_ROOMS - attempts,
    {
        attempts += 1;
        let w = random_range(ROOM_MIN_SIZE, ROOM_MAX_SIZE + 1);
        let h = random_range(ROOM_MIN_SIZE, ROOM_MAX_SIZE + 1);
        let x = random_range(0, MAP_WIDTH - w);
        let y = random_range(0, MAP_HEIGHT - h);
        let ghost rooms_before = rooms@;
        let ghost map_before = map;
        let ghost objects_before = views(objects@);
        let ghost layout_before = laid_out(start, draws);
        let ghost mut draw = RoomDraw {
            x: x as int,
            y: y as int,
            w: w as int,
            h: h as int,
            monsters: Seq::empty(),
            items: Seq::empty(),
            horizontal_first: false,
        };
        let accepted = dig_room(x, y, w, h, &rooms, &mut map);
        if let Some(new_room) = accepted {
            proof {
                lemma_center_inside(new_room);
            }
            let ghost map_with_room = map;
            place_objects(new_room, &map, objects, level);
            let ghost objects_placed = views(objects@);
            let horizontal_first = if rooms.is_empty() {
                true
            } else {
                proof {
                    lemma_center_inside(rooms@.last());
                }
                random_bool()
            };
            let ghost turn: bool = horizontal_first;
            join_room(new_room, horizontal_first, &mut rooms, &mut map, objects.as_mut_slice());
            proof {
                let turns_before = turns;
                turns = turns.push(turn);
                let now = views(objects@);
                assert(rooms@ =~= rooms_before.push(new_room));
                lemma_layout_grows(
                    map_before,
                    map_with_room,
                    map,
                    rooms_before,
                    turns_before,
                    new_room,
                    turn,
                );
                let monsters_end = choose|m: int| #[trigger]
                    populated_with(new_room, map_with_room, level, objects_before, objects_placed, m);
                assert(objects_placed.take(objects_before.len() as int) == objects_before);
                assert(now.len() == objects_placed.len());
                assert forall|k: int| 1 <= k < now.len() implies now[k] == objects_placed[k] by {}
                assert forall|k: int| 1 <= k < objects_before.len() implies objects_placed[k]
                    == objects_before[k] by {
                    assert(objects_placed.take(objects_before.len() as int)[k]
                        == objects_placed[k]);
                }
                assert(objects_placed[0] == objects_before[0]) by {
                    assert(objects_placed.take(objects_before.len() as int)[0]
                        == objects_placed[0]);
                }
                assert forall|k: int| 1 <= k < now.len() implies #[trigger] spawned_in(
                    rooms@,
                    level,
                    now,
                    k,
                ) by {
                    if k < objects_before.len() {
                        assert(spawned_in(rooms_before, level, objects_before, k));
                        lemma_spawned_in_stable(rooms_before, new_room, level, objects_before, k);
                    } else {
                        assert(placed_free(new_room, map_with_room, objects_placed, k));
                        assert(in_room(rooms@, rooms_before.len() as int, now[k].x as int, now[k].y as int));
                    }
                }
                assert forall|j: int, k: int| 1 <= j < k < now.len() implies #[trigger] not_under(
                    now,
                    j,
                    k,
                ) by {
                    if k < objects_before.len() {
                        assert(not_under(objects_before, j, k));
                    } else {
                        assert(placed_free(new_room, map_with_room, objects_placed, k));
                        assert(objects_placed.take(k)[j] == objects_placed[j]);
                    }
                }
                // the draws
                let (monsters, items) = choose|monsters: Seq<Spawn>, items: Seq<Spawn>| #[trigger]
                    populated_by(
                        new_room,
                        map_with_room,
                        level,
                        objects_before,
                        monsters,
                        items,
                        objects_placed,
                    );
                draw = RoomDraw { monsters, items, horizontal_first, ..draw };
                assert(drawn_room(draw) == new_room);
                assert forall|i: int| 0 <= i < monsters.len() implies floor_monster_draw(
                    new_room,
                    #[trigger] monsters[i],
                ) by {
                    assert(monster_draw_fits(new_room, map_with_room, monsters[i]));
                    assert(tile_at(map_with_room, monsters[i].x, monsters[i].y) == Tile::empty());
                }
                assert forall|i: int| 0 <= i < items.len() implies floor_item_draw(
                    new_room,
                    level,
                    #[trigger] items[i],
                ) by {
                    assert(item_draw_fits(new_room, map_with_room, level, items[i]));
                    assert(tile_at(map_with_room, items[i].x, items[i].y) == Tile::empty());
                }
                assert(room_draw_fits(level, draw));
            }
        } else {
            proof {
                assert(drawn_room(draw) == (Rect {
                    x1: x,
                    y1: y,
                    x2: (x + w) as i32,
                    y2: (y + h) as i32,
                }));
                assert(room_draw_fits(level, draw));
            }
        }
        proof {
            let drawn = draws;
            draws = draws.push(draw);
            assert(draws.drop_last() =~= drawn);
            assert(laid_out(start, draws) == with_room(layout_before, draw));
            assert(with_room(layout_before, draw) == (Layout {
                rooms: rooms@,
                turns: turns,
                objects: views(objects@),
            }));
        }
    }
    let (last_room_x, last_room_y) = rooms[rooms.len() - 1].center();
    let mut stairs = Object::new(last_room_x, last_room_y, '>', "stairs", white(), false);
    stairs.always_visible = true;
    let ghost earlier = views(objects@);
    objects.push(stairs);
    proof {
        let now = views(objects@);
        assert(now =~= earlier.push(stairs@));
        assert forall|k: int| 1 <= k < now.len() - 1 implies #[trigger] spawned_in(
            rooms@,
            level,
            now,
            k,
        ) by {
            assert(spawned_in(rooms@, level, earlier, k));
        }
        assert forall|j: int, k: int| 1 <= j < k < now.len() - 1 implies #[trigger] not_under(
            now,
            j,
            k,
        ) by {
            assert(not_under(earlier, j, k));
        }
        assert(generated(map, rooms@, turns, level, player, now));
        assert(generated_by(map, rooms@, draws, level, player, now));
        assert(player == views(old(objects)@)[0]);
    }
    let built = (map, rooms);
    assert(generated(built.0, built.1@, turns, level, views(old(objects)@)[0], views(objects@)));
    assert(generated_by(built.0, built.1@, draws, level, views(old(objects)@)[0], views(objects@)));
    built
}

/// Builds a level for dungeon level `level` and returns its tiles; see `generate`.
pub fn make_map(objects: &mut Vec<Object>, level: u32) -> (map: Grid)
    requires
        old(objects)@.len() >= 1,
    ensures
        exists|rooms: Seq<Rect>, turns: Seq<bool>| #[trigger]
            generated(
                map,
                rooms,
                turns,
                level,
                views(old(objects)@)[0],
                views(final(objects)@),
            ),
        made_by_draws(map, level, views(old(objects)@)[0], views(final(objects)@)),
{
    let (map, _rooms) = generate(objects, level);
    map
}

/// Whether one can stand on (`x`, `y`): a tile of the level that is not rock.
pub open spec fn open_tile(map: Grid, x: int, y: int) -> bool {
    in_bounds(x, y) && !tile_at(map, x, y).blocked
}

/// Whether two tiles are next to each other in a row or a column.
pub open spec fn adjacent(a: (int, int), b: (int, int)) -> bool {
    (a.0 == b.0 && (a.1 == b.1 + 1 || a.1 + 1 == b.1)) || (a.1 == b.1 && (a.0 == b.0 + 1 || a.0 + 1
        == b.0))
}

/// Whether `path` leads `from` one tile `to` another over open tiles, each
/// next to the one before it.
pub open spec fn walk(map: Grid, path: Seq<(int, int)>, from: (int, int), to: (int, int)) -> bool {
    &&& path.len() >= 1
    &&& path.first() == from
    &&& path.last() == to
    &&& forall|i: int| 0 <= i < path.len() ==> open_tile(map, (#[trigger] path[i]).0, path[i].1)
    &&& forall|i: int| 0 <= i < path.len() - 1 ==> adjacent(#[trigger] path[i], path[i + 1])
}

/// Whether one can walk `from` one tile `to` another without crossing rock.
pub open spec fn reachable(map: Grid, from: (int, int), to: (int, int)) -> bool {
    exists|path: Seq<(int, int)>| #[trigger] walk(map, path, from, to)
}

/// A walk to a tile followed by a walk from it is a walk.
pub proof fn lemma_reachable_trans(map: Grid, a: (int, int), b: (int, int), c: (int, int))
    requires
        reachable(map, a, b),
        reachable(map, b, c),
    ensures
        reachable(map, a, c),
{
    let first = choose|path: Seq<(int, int)>| #[trigger] walk(map, path, a, b);
    let second = choose|path: Seq<(int, int)>| #[trigger] walk(map, path, b, c);
    let joined = first.drop_last() + second;
    assert forall|i: int| 0 <= i < joined.len() implies open_tile(
        map,
        (#[trigger] joined[i]).0,
        joined[i].1,
    ) by {
        if i < first.len() - 1 {
            assert(joined[i] == first[i]);
        } else {
            assert(joined[i] == second[i - (first.len() - 1)]);
        }
    }
    assert forall|i: int| 0 <= i < joined.len() - 1 implies adjacent(
        #[trigger] joined[i],
        joined[i + 1],
    ) by {
        if i < first.len() - 2 {
            assert(joined[i] == first[i]);
            assert(joined[i + 1] == first[i + 1]);
        } else if i == first.len() - 2 {
            assert(joined[i] == first[i]);
            assert(joined[i + 1] == second[0]);
            assert(adjacent(first[i], first[i + 1]));
        } else {
            assert(joined[i] == second[i - (first.len() - 1)]);
            assert(joined[i + 1] == second[i - (first.len() - 1) + 1]);
        }
    }
    assert(walk(map, joined, a, c));
}

/// One can walk along a row of open tiles.
pub proof fn lemma_walk_row(map: Grid, y: int, from: int, to: int)
    requires
        forall|x: int| between(from, to, x) ==> open_tile(map, x, y),
    ensures
        reachable(map, (from, y), (to, y)),
    decreases
            if from <= to {
                to - from
            } else {
                from - to
            },
{
    assert(between(from, to, from));
    if from == to {
        assert(walk(map, seq![(from, y)], (from, y), (to, y)));
    } else {
        let next = if from < to {
            from + 1
        } else {
            from - 1
        };
        assert forall|x: int| between(next, to, x) implies open_tile(map, x, y) by {
            assert(between(from, to, x));
        }
        lemma_walk_row(map, y, next, to);
        assert(between(from, to, next));
        assert(walk(map, seq![(from, y), (next, y)], (from, y), (next, y)));
        lemma_reachable_trans(map, (from, y), (next, y), (to, y));
    }
}

/// One can walk along a column of open tiles.
pub proof fn lemma_walk_column(map: Grid, x: int, from: int, to: int)
    requires
        forall|y: int| between(from, to, y) ==> open_tile(map, x, y),
    ensures
        reachable(map, (x, from), (x, to)),
    decreases
            if from <= to {
                to - from
            } else {
                from - to
            },
{
    assert(between(from, to, from));
    if from == to {
        assert(walk(map, seq![(x, from)], (x, from), (x, to)));
    } else {
        let next = if from < to {
            from + 1
        } else {
            from - 1
        };
        assert forall|y: int| between(next, to, y) implies open_tile(map, x, y) by {
            assert(between(from, to, y));
        }
        lemma_walk_column(map, x, next, to);
        assert(between(from, to, next));
        assert(walk(map, seq![(x, from), (x, next)], (x, from), (x, next)));
        lemma_reachable_trans(map, (x, from), (x, next), (x, to));
    }
}

/// Every tile of the corridor between two consecutive rooms of a generated
/// level is open.
pub proof fn lemma_corridor_open(
    map: Grid,
    rooms: Seq<Rect>,
    turns: Seq<bool>,
    i: int,
    x: int,
    y: int,
)
    requires
        layout_ok(rooms, turns),
        dug_out(map, rooms, turns),
        1 <= i < rooms.len(),
        on_link(rooms, turns, i, x, y),
    ensures
        open_tile(map, x, y),
{
    lemma_center_inside(rooms[i - 1]);
    lemma_center_inside(rooms[i]);
    assert(in_bounds(x, y));
    assert(is_floor(rooms, turns, x, y));
    assert(tile_at(map, x, y) == Tile::empty());
}

/// In a generated level one can walk from the centre of the first room to the
/// centre of every other room.
pub proof fn lemma_rooms_reachable(map: Grid, rooms: Seq<Rect>, turns: Seq<bool>, i: int)
    requires
        layout_ok(rooms, turns),
        dug_out(map, rooms, turns),
        0 <= i < rooms.len(),
    ensures
        reachable(map, rooms[0].spec_center(), rooms[i].spec_center()),
    decreases i,
{
    let to = rooms[i].spec_center();
    lemma_center_inside(rooms[i]);
    if i == 0 {
        assert(in_room(rooms, 0, to.0, to.1));
        assert(is_floor(rooms, turns, to.0, to.1));
        assert(tile_at(map, to.0, to.1) == Tile::empty());
        assert(walk(map, seq![to], to, to));
    } else {
        lemma_rooms_reachable(map, rooms, turns, i - 1);
        let from = rooms[i - 1].spec_center();
        let corner = if turns[i] {
            (to.0, from.1)
        } else {
            (from.0, to.1)
        };
        if turns[i] {
            assert forall|x: int| between(from.0, to.0, x) implies open_tile(map, x, from.1) by {
                assert(on_link(rooms, turns, i, x, from.1));
                lemma_corridor_open(map, rooms, turns, i, x, from.1);
            }
            lemma_walk_row(map, from.1, from.0, to.0);
            assert forall|y: int| between(from.1, to.1, y) implies open_tile(map, to.0, y) by {
                assert(on_link(rooms, turns, i, to.0, y));
                lemma_corridor_open(map, rooms, turns, i, to.0, y);
            }
            lemma_walk_column(map, to.0, from.1, to.1);
        } else {
            assert forall|y: int| between(from.1, to.1, y) implies open_tile(map, from.0, y) by {
                assert(on_link(rooms, turns, i, from.0, y));
                lemma_corridor_open(map, rooms, turns, i, from.0, y);
            }
            lemma_walk_column(map, from.0, from.1, to.1);
            assert forall|x: int| between(from.0, to.0, x) implies open_tile(map, x, to.1) by {
                assert(on_link(rooms, turns, i, x, to.1));
                lemma_corridor_open(map, rooms, turns, i, x, to.1);
            }
            lemma_walk_row(map, to.1, from.0, to.0);
        }
        lemma_reachable_trans(map, from, corner, to);
        lemma_reachable_trans(map, rooms[0].spec_center(), from, to);
    }
}

/// In a generated level every open tile keeps clear of the level's edge: the
/// outermost columns and rows are rock.
pub proof fn lemma_edge_is_rock(map: Grid, rooms: Seq<Rect>, turns: Seq<bool>, x: int, y: int)
    requires
        layout_ok(rooms, turns),
        dug_out(map, rooms, turns),
        open_tile(map, x, y),
    ensures
        1 <= x < MAP_WIDTH - 1,
        1 <= y < MAP_HEIGHT - 1,
{
    assert(is_floor(rooms, turns, x, y));
    if housed(rooms, x, y) {
        let i = choose|i: int| 0 <= i < rooms.len() && #[trigger] in_room(rooms, i, x, y);
        assert(room_fits(rooms[i]));
    } else {
        let i = choose|i: int| 1 <= i < rooms.len() && #[trigger] on_link(rooms, turns, i, x, y);
        assert(room_fits(rooms[i]));
        assert(room_fits(rooms[i - 1]));
        lemma_center_inside(rooms[i - 1]);
        lemma_center_inside(rooms[i]);
    }
}

} // verus!
