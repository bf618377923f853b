//! What a frame shows: the colours of the tiles, the entities in the order
//! in which they are drawn, the status line, and the texts of menus. Painting
//! it is left to the caller.
use vstd::prelude::*;
use crate::colors::Color;
use crate::fov::FovMap;
use crate::game::{
    grid_wf, in_bounds, level_up_xp, tile_at, Game, Grid, Tile, LEVEL_UP_BASE, LEVEL_UP_FACTOR,
    MAP_HEIGHT, MAP_WIDTH, PLAYER,
};
use crate::input::Mouse;
use crate::item::INVENTORY_SIZE;
use crate::object::{fits_i32, views, Object, ObjectView};
use crate::text::{int_text, nat_text, push_int, push_nat};

verus! {

/// Width of the window, in tiles.
pub const SCREEN_WIDTH: i32 = 80;

/// Height of the window, in tiles.
pub const SCREEN_HEIGHT: i32 = 50;

/// Width of the bar of hit points.
pub const BAR_WIDTH: i32 = 20;

/// Height of the panel below the level.
pub const PANEL_HEIGHT: i32 = 7;

/// The row of the window on which the panel begins.
pub const PANEL_Y: i32 = SCREEN_HEIGHT - PANEL_HEIGHT;

/// The column of the panel in which the log begins.
pub const MSG_X: i32 = BAR_WIDTH + 2;

/// Width of the log in the panel.
pub const MSG_WIDTH: i32 = SCREEN_WIDTH - BAR_WIDTH - 2;

/// Height of the log in the panel.
pub const MSG_HEIGHT: usize = 6;

/// Width of the box of the player's statistics.
pub const CHARACTER_SCREEN_WIDTH: i32 = 50;

/// Width of the menu at a level-up.
pub const LEVEL_SCREEN_WIDTH: i32 = 50;

/// Width of the menu of the inventory.
pub const INVENTORY_WIDTH: i32 = 40;

/// How far the player sees.
pub const TORCH_RADIUS: i32 = 10;

/// The colour of a tile by whether it is seen and whether it is a wall.
pub open spec fn spec_tile_color(visible: bool, wall: bool) -> Color {
    if visible {
        if wall {
            Color { r: 130, g: 110, b: 150 }
        } else {
            Color { r: 200, g: 180, b: 150 }
        }
    } else {
        if wall {
            Color { r: 0, g: 0, b: 100 }
        } else {
            Color { r: 50, g: 50, b: 150 }
        }
    }
}

/// The colour of a tile by whether it is seen and whether it is a wall.
pub fn tile_color(visible: bool, wall: bool) -> (color: Color)
    ensures
        color == spec_tile_color(visible, wall),
{
    match (visible, wall) {
        (false, true) => Color { r: 0, g: 0, b: 100 },
        (false, false) => Color { r: 50, g: 50, b: 150 },
        (true, true) => Color { r: 130, g: 110, b: 150 },
        (true, false) => Color { r: 200, g: 180, b: 150 },
    }
}

/// The tile once the observer has looked: explored if it was, or is seen now.
pub open spec fn looked_at(tile: Tile, seen: bool) -> Tile {
    Tile { explored: tile.explored || seen, ..tile }
}

/// What is painted on tile (`x`, `y`): nothing while it is unexplored, else
/// its colour by whether it is seen and whether it blocks sight.
pub open spec fn tile_paint(fov: FovMap, map: Grid, x: int, y: int) -> Option<Color> {
    let seen = fov.spec_is_in_fov(x, y);
    if tile_at(map, x, y).explored || seen {
        Some(spec_tile_color(seen, tile_at(map, x, y).block_sight))
    } else {
        None
    }
}

/// Whether `paint` holds what is painted on each tile of a level.
pub open spec fn paint_of(paint: Vec<Vec<Option<Color>>>, fov: FovMap, map: Grid) -> bool {
    &&& paint@.len() == MAP_WIDTH
    &&& forall|x: int| 0 <= x < MAP_WIDTH ==> (#[trigger] paint@[x])@.len() == MAP_HEIGHT
    &&& forall|x: int, y: int|
        in_bounds(x, y) ==> #[trigger] paint@[x]@[y] == tile_paint(fov, map, x, y)
}

/// Marks every tile that the observer sees as explored, and returns what is
/// painted on each tile; see `tile_paint`. A tile once explored stays so.
pub fn explore(fov: &FovMap, map: &mut Grid) -> (paint: Vec<Vec<Option<Color>>>)
    requires
        grid_wf(*old(map)),
    ensures
        grid_wf(*final(map)),
        forall|x: int, y: int|
            in_bounds(x, y) ==> #[trigger] tile_at(*final(map), x, y) == looked_at(
                tile_at(*old(map), x, y),
                fov.spec_is_in_fov(x, y),
            ),
        paint_of(paint, *fov, *old(map)),
{
    let column: Vec<Option<Color>> = vec![None; MAP_HEIGHT as usize];
    let mut paint: Vec<Vec<Option<Color>>> = vec![column; MAP_WIDTH as usize];
    let mut y: i32 = 0;
    while y < MAP_HEIGHT
        invariant
            0 <= y <= MAP_HEIGHT,
            grid_wf(*map),
            grid_wf(*old(map)),
            paint@.len() == MAP_WIDTH,
            forall|i: int| 0 <= i < MAP_WIDTH ==> (#[trigger] paint@[i])@.len() == MAP_HEIGHT,
            forall|i: int, j: int|
                in_bounds(i, j) ==> #[trigger] tile_at(*map, i, j) == if j < y {
                    looked_at(tile_at(*old(map), i, j), fov.spec_is_in_fov(i, j))
                } else {
                    tile_at(*old(map), i, j)
                },
            forall|i: int, j: int|
                in_bounds(i, j) ==> #[trigger] paint@[i]@[j] == if j < y {
                    tile_paint(*fov, *old(map), i, j)
                } else {
                    None
                },
        decreases MAP_HEIGHT - y,
    {
        let mut x: i32 = 0;
        while x < MAP_WIDTH
            invariant
                0 <= y < MAP_HEIGHT,
                0 <= x <= MAP_WIDTH,
                grid_wf(*map),
                grid_wf(*old(map)),
                paint@.len() == MAP_WIDTH,
                forall|i: int| 0 <= i < MAP_WIDTH ==> (#[trigger] paint@[i])@.len() == MAP_HEIGHT,
                forall|i: int, j: int|
                    in_bounds(i, j) ==> #[trigger] tile_at(*map, i, j) == if j < y || (j == y && i
                        < x) {
                        looked_at(tile_at(*old(map), i, j), fov.spec_is_in_fov(i, j))
                    } else {
                        tile_at(*old(map), i, j)
                    },
                forall|i: int, j: int|
                    in_bounds(i, j) ==> #[trigger] paint@[i]@[j] == if j < y || (j == y && i < x) {
                        tile_paint(*fov, *old(map), i, j)
                    } else {
                        None
                    },
            decreases MAP_WIDTH - x,
        {
            let ghost map_before = *map;
            let ghost paint_before = paint;
            let visible = fov.is_in_fov(x, y);
            let wall = map[x as usize][y as usize].block_sight;
            let color = tile_color(visible, wall);
            assert(tile_at(map_before, x as int, y as int) == tile_at(*old(map), x as int, y as int));
            if visible {
                map[x as usize][y as usize].explored = true;
            }
            if map[x as usize][y as usize].explored {
                paint[x as usize][y as usize] = Some(color);
            }
            proof {
                assert forall|i: int, j: int| in_bounds(i, j) implies #[trigger] tile_at(*map, i, j)
                    == if j < y || (j == y && i < x + 1) {
                    looked_at(tile_at(*old(map), i, j), fov.spec_is_in_fov(i, j))
                } else {
                    tile_at(*old(map), i, j)
                } by {
                    assert(tile_at(map_before, i, j) == if j < y || (j == y && i < x) {
                        looked_at(tile_at(*old(map), i, j), fov.spec_is_in_fov(i, j))
                    } else {
                        tile_at(*old(map), i, j)
                    });
                }
                assert forall|i: int, j: int| in_bounds(i, j) implies #[trigger] paint@[i]@[j]
                    == if j < y || (j == y && i < x + 1) {
                    tile_paint(*fov, *old(map), i, j)
                } else {
                    None
                } by {
                    assert(paint_before@[i]@[j] == if j < y || (j == y && i < x) {
                        tile_paint(*fov, *old(map), i, j)
                    } else {
                        None
                    });
                }
            }
            x += 1;
        }
        y += 1;
    }
    paint
}

/// Whether the entity `o` is drawn: it is seen, or it is one that stays in
/// view and stands on an explored tile.
pub open spec fn shown(fov: FovMap, map: Grid, o: ObjectView) -> bool {
    fov.spec_is_in_fov(o.x as int, o.y as int) || (o.always_visible && tile_at(
        map,
        o.x as int,
        o.y as int,
    ).explored)
}

/// The positions, in their order, of the entities that are drawn and that
/// block movement or not as `blocks` says.
pub open spec fn shown_of(fov: FovMap, map: Grid, objects: Seq<ObjectView>, blocks: bool) -> Seq<
    int,
>
    decreases objects.len(),
{
    if objects.len() == 0 {
        Seq::empty()
    } else {
        let rest = shown_of(fov, map, objects.drop_last(), blocks);
        if shown(fov, map, objects.last()) && objects.last().blocks == blocks {
            rest.push(objects.len() - 1)
        } else {
            rest
        }
    }
}

/// The positions of the entities that are drawn, in the order in which they
/// are drawn: those that block movement first, so that what does not block
/// is drawn above them; within each group in the order of the entities.
pub open spec fn spec_draw_order(fov: FovMap, map: Grid, objects: Seq<ObjectView>) -> Seq<int> {
    shown_of(fov, map, objects, true) + shown_of(fov, map, objects, false)
}

/// Whether every entity that could be drawn unseen stands on a tile of the level.
pub open spec fn draw_safe(fov: FovMap, objects: Seq<ObjectView>) -> bool {
    forall|k: int|
        0 <= k < objects.len() && (#[trigger] objects[k]).always_visible && !fov.spec_is_in_fov(
            objects[k].x as int,
            objects[k].y as int,
        ) ==> in_bounds(objects[k].x as int, objects[k].y as int)
}

/// The positions of the entities that are drawn and that block movement or
/// not as `blocks` says, appended to `order`.
fn push_shown(
    fov: &FovMap,
    map: &Grid,
    objects: &[Object],
    blocks: bool,
    order: &mut Vec<usize>,
)
    requires
        grid_wf(*map),
        draw_safe(*fov, views(objects@)),
    ensures
        final(order)@.map_values(|i: usize| i as int) == old(order)@.map_values(|i: usize| i as int)
            + shown_of(*fov, *map, views(objects@), blocks),
{
    let ghost objs = views(objects@);
    let ghost start = order@.map_values(|i: usize| i as int);
    let mut k: usize = 0;
    proof {
        assert(objs.take(0) =~= Seq::<ObjectView>::empty());
        assert(start + shown_of(*fov, *map, objs.take(0), blocks) =~= start);
    }
    while k < objects.len()
        invariant
            k <= objects@.len(),
            objs == views(objects@),
            grid_wf(*map),
            draw_safe(*fov, objs),
            order@.map_values(|i: usize| i as int) == start + shown_of(
                *fov,
                *map,
                objs.take(k as int),
                blocks,
            ),
        decreases objects@.len() - k,
    {
        proof {
            assert(objs.take(k + 1).drop_last() =~= objs.take(k as int));
            assert(objs.take(k + 1).last() == objs[k as int]);
        }
        let seen = fov.is_in_fov(objects[k].x, objects[k].y);
        let drawn = seen || (objects[k].always_visible
            && map[objects[k].x as usize][objects[k].y as usize].explored);
        if drawn && objects[k].blocks == blocks {
            let ghost earlier = order@.map_values(|i: usize| i as int);
            order.push(k);
            assert(order@.map_values(|i: usize| i as int) =~= earlier.push(k as int));
        }
        k += 1;
    }
    assert(objs.take(k as int) =~= objs);
}

/// The positions of the entities that are drawn, in the order in which they
/// are drawn; see `spec_draw_order`.
pub fn draw_order(fov: &FovMap, map: &Grid, objects: &[Object]) -> (order: Vec<usize>)
    requires
        grid_wf(*map),
        draw_safe(*fov, views(objects@)),
    ensures
        order@.map_values(|i: usize| i as int) == spec_draw_order(*fov, *map, views(objects@)),
{
    let mut order: Vec<usize> = Vec::new();
    assert(order@.map_values(|i: usize| i as int) =~= Seq::<int>::empty());
    push_shown(fov, map, objects, true, &mut order);
    push_shown(fov, map, objects, false, &mut order);
    assert(order@.map_values(|i: usize| i as int) =~= spec_draw_order(
        *fov,
        *map,
        views(objects@),
    ));
    order
}

/// The names, in their order, of the entities on tile (`x`, `y`) that the
/// player sees.
pub open spec fn seen_at(fov: FovMap, objects: Seq<ObjectView>, x: int, y: int) -> Seq<Seq<char>>
    decreases objects.len(),
{
    if objects.len() == 0 {
        Seq::empty()
    } else {
        let rest = seen_at(fov, objects.drop_last(), x, y);
        let o = objects.last();
        if fov.spec_is_in_fov(o.x as int, o.y as int) && o.is_at(x, y) {
            rest.push(o.name)
        } else {
            rest
        }
    }
}

/// The `names` in a row, a comma and a blank between each two.
pub open spec fn listed(names: Seq<Seq<char>>) -> Seq<char>
    decreases names.len(),
{
    if names.len() == 0 {
        Seq::empty()
    } else if names.len() == 1 {
        names[0]
    } else {
        listed(names.drop_last()) + ", "@ + names.last()
    }
}

/// The names of the entities under the mouse that the player sees, in a row.
pub fn names_under_mouse(mouse: &Mouse, objects: &[Object], fov: &FovMap) -> (names: String)
    ensures
        names@ == listed(seen_at(*fov, views(objects@), mouse.cx as int, mouse.cy as int)),
{
    let (x, y) = (mouse.cx, mouse.cy);
    let ghost objs = views(objects@);
    let mut names = String::new();
    let mut any = false;
    let mut k: usize = 0;
    proof {
        assert(objs.take(0) =~= Seq::<ObjectView>::empty());
    }
    while k < objects.len()
        invariant
            k <= objects@.len(),
            objs == views(objects@),
            x == mouse.cx,
            y == mouse.cy,
            any == (seen_at(*fov, objs.take(k as int), x as int, y as int).len() > 0),
            names@ == listed(seen_at(*fov, objs.take(k as int), x as int, y as int)),
        decreases objects@.len() - k,
    {
        let ghost earlier = seen_at(*fov, objs.take(k as int), x as int, y as int);
        proof {
            assert(objs.take(k + 1).drop_last() =~= objs.take(k as int));
            assert(objs.take(k + 1).last() == objs[k as int]);
        }
        if fov.is_in_fov(objects[k].x, objects[k].y) && objects[k].x == x && objects[k].y == y {
            if any {
                names.append(", ");
            }
            names.append(objects[k].name.as_str());
            proof {
                let now = earlier.push(objs[k as int].name);
                assert(now.drop_last() =~= earlier);
                if !any {
                    assert(names@ =~= objs[k as int].name);
                }
            }
            any = true;
        }
        k += 1;
    }
    assert(objs.take(k as int) =~= objs);
    names
}

/// The option that the character `printable` chooses in a menu of `options`
/// options lettered from `a`: the place of the letter in the alphabet,
/// whichever its case, if the menu is that long.
pub open spec fn spec_menu_index(printable: char, options: int) -> Option<int> {
    let code = printable as u32 as int;
    let index = if 0x41 <= code <= 0x5a {
        code - 0x41
    } else {
        code - 0x61
    };
    if ((0x41 <= code <= 0x5a) || (0x61 <= code <= 0x7a)) && index < options {
        Some(index)
    } else {
        None
    }
}

/// The option that the character `printable` chooses in a menu of `options`
/// options, which are 26 at most; see `spec_menu_index`.
pub fn menu_index(printable: char, options: usize) -> (choice: Option<usize>)
    requires
        options <= INVENTORY_SIZE,
    ensures
        match choice {
            Some(index) => spec_menu_index(printable, options as int) == Some(index as int),
            None => spec_menu_index(printable, options as int) is None,
        },
{
    let code: u32 = printable as u32;
    let index: u32 = if 0x41 <= code && code <= 0x5a {
        code - 0x41
    } else if 0x61 <= code && code <= 0x7a {
        code - 0x61
    } else {
        return None;
    };
    if (index as usize) < options {
        Some(index as usize)
    } else {
        None
    }
}

/// What the menu of the inventory says of `item`: its name, and where it is
/// worn if it is.
pub open spec fn item_label(item: ObjectView) -> Seq<char> {
    match item.equipment {
        Some(equipment) => if equipment.equipped {
            item.name + " (on "@ + equipment.slot.spec_name() + ")"@
        } else {
            item.name
        },
        None => item.name,
    }
}

/// The options of the menu of the inventory: a label for each item, or a
/// single line that says that there is none.
pub open spec fn spec_inventory_options(inventory: Seq<ObjectView>) -> Seq<Seq<char>> {
    if inventory.len() == 0 {
        seq!["Inventory is empty"@]
    } else {
        inventory.map_values(|item: ObjectView| item_label(item))
    }
}

/// The options of the menu of the inventory; see `spec_inventory_options`.
pub fn inventory_options(inventory: &[Object]) -> (options: Vec<String>)
    ensures
        options@.map_values(|s: String| s@) == spec_inventory_options(views(inventory@)),
{
    let mut options: Vec<String> = Vec::new();
    if inventory.len() == 0 {
        options.push(String::from_str("Inventory is empty"));
        assert(options@.map_values(|s: String| s@) =~= seq!["Inventory is empty"@]);
        return options;
    }
    let mut k: usize = 0;
    while k < inventory.len()
        invariant
            k <= inventory@.len(),
            options@.len() == k,
            forall|i: int|
                0 <= i < k ==> (#[trigger] options@[i])@ == item_label(views(inventory@)[i]),
        decreases inventory@.len() - k,
    {
        let mut label = inventory[k].name.clone();
        match inventory[k].equipment {
            Some(equipment) => {
                if equipment.equipped {
                    label.append(" (on ");
                    label.append(equipment.slot.name());
                    label.append(")");
                }
            },
            None => {},
        }
        options.push(label);
        k += 1;
    }
    assert(options@.map_values(|s: String| s@) =~= spec_inventory_options(views(inventory@)));
    options
}

/// The item that a choice in the menu of the inventory stands for: the
/// option chosen, unless the inventory is empty.
pub fn inventory_choice(inventory_len: usize, chosen: Option<usize>) -> (item: Option<usize>)
    ensures
        item == if inventory_len > 0 {
            chosen
        } else {
            None
        },
{
    if inventory_len > 0 {
        chosen
    } else {
        None
    }
}

/// The text of the box of the player's statistics.
pub open spec fn spec_character_info(player: ObjectView, inventory: Seq<ObjectView>) -> Seq<char> {
    "Character information:\nLevel: "@ + int_text(player.level as int) + "\nExperience: "@
        + int_text(player.fighter->0.xp as int) + "\nExperience to level up: "@ + int_text(
        level_up_xp(player.level as int),
    ) + "\nMaximum HP: "@ + int_text(player.max_hp(inventory)) + "\nAttack: "@ + int_text(
        player.power(inventory),
    ) + "\nDefense: "@ + int_text(player.defense(inventory))
}

/// The text of the box of the player's statistics, for a player who can fight.
pub fn character_info(player: &Object, game: &Game) -> (info: Option<String>)
    requires
        fits_i32(player.level * LEVEL_UP_FACTOR),
        fits_i32(level_up_xp(player.level as int)),
        player.fighter is Some ==> fits_i32(player@.max_hp(views(game.inventory@))) && fits_i32(
            player@.power(views(game.inventory@)),
        ) && fits_i32(player@.defense(views(game.inventory@))),
    ensures
        match info {
            Some(text) => player.fighter is Some && text@ == spec_character_info(
                player@,
                views(game.inventory@),
            ),
            None => player.fighter is None,
        },
{
    let level_up_xp = LEVEL_UP_BASE + player.level * LEVEL_UP_FACTOR;
    match player.fighter {
        Some(fighter) => {
            let mut text = String::from_str("Character information:\nLevel: ");
            push_int(&mut text, player.level as i64);
            text.append("\nExperience: ");
            push_int(&mut text, fighter.xp as i64);
            text.append("\nExperience to level up: ");
            push_int(&mut text, level_up_xp as i64);
            text.append("\nMaximum HP: ");
            push_int(&mut text, player.max_hp(game) as i64);
            text.append("\nAttack: ");
            push_int(&mut text, player.power(game) as i64);
            text.append("\nDefense: ");
            push_int(&mut text, player.defense(game) as i64);
            Some(text)
        },
        None => None,
    }
}

/// The text on a bar called `name` that stands at `value` of `maximum`.
pub open spec fn spec_bar_text(name: Seq<char>, value: int, maximum: int) -> Seq<char> {
    name + ": "@ + int_text(value) + "/"@ + int_text(maximum)
}

/// The text on a bar called `name` that stands at `value` of `maximum`.
pub fn bar_text(name: &str, value: i32, maximum: i32) -> (text: String)
    ensures
        text@ == spec_bar_text(name@, value as int, maximum as int),
{
    let mut text = String::from_str(name);
    text.append(": ");
    push_int(&mut text, value as i64);
    text.append("/");
    push_int(&mut text, maximum as i64);
    text
}

/// The row on which a line of `height` rows begins that is set above row
/// `floor`, if it fits into the panel.
pub fn message_row(floor: i32, height: u32) -> (row: Option<i32>)
    ensures
        row == if floor - height >= 0 {
            Some((floor - height) as i32)
        } else {
            None
        },
{
    let above: i64 = floor as i64 - height as i64;
    if above >= 0 {
        Some(above as i32)
    } else {
        None
    }
}

/// The lines of the log that fit into the panel, the latest first, each with
/// the row on which it begins: going back from the latest line, each line is
/// set above the one before it, which starts at the bottom of a panel of
/// `MSG_HEIGHT` rows, until one does not fit. `heights` are the rows that
/// each line takes up, oldest line first.
pub open spec fn spec_message_rows(heights: Seq<u32>, floor: int) -> Seq<(int, int)>
    decreases heights.len(),
{
    if heights.len() == 0 {
        Seq::empty()
    } else {
        let row = floor - heights.last();
        if row < 0 {
            Seq::empty()
        } else {
            seq![(heights.len() - 1, row)] + spec_message_rows(heights.drop_last(), row)
        }
    }
}

/// The lines of the log that fit into the panel, the latest first, each with
/// the row on which it begins; see `spec_message_rows`.
pub fn message_rows(heights: &Vec<u32>) -> (rows: Vec<(usize, i32)>)
    ensures
        rows@.map_values(|r: (usize, i32)| (r.0 as int, r.1 as int)) == spec_message_rows(
            heights@,
            MSG_HEIGHT as int,
        ),
{
    let mut rows: Vec<(usize, i32)> = Vec::new();
    let mut y: i32 = MSG_HEIGHT as i32;
    let mut k: usize = heights.len();
    proof {
        assert(heights@.take(k as int) =~= heights@);
        assert(rows@.map_values(|r: (usize, i32)| (r.0 as int, r.1 as int)) =~= Seq::<
            (int, int),
        >::empty());
    }
    while k > 0
        invariant
            k <= heights@.len(),
            0 <= y <= MSG_HEIGHT,
            spec_message_rows(heights@, MSG_HEIGHT as int) == rows@.map_values(
                |r: (usize, i32)| (r.0 as int, r.1 as int),
            ) + spec_message_rows(heights@.take(k as int), y as int),
        decreases k,
    {
        let ghost earlier = rows@.map_values(|r: (usize, i32)| (r.0 as int, r.1 as int));
        let ghost rest = heights@.take(k as int);
        proof {
            assert(rest.last() == heights@[k - 1]);
            assert(rest.drop_last() =~= heights@.take(k - 1));
        }
        let row = match message_row(y, heights[k - 1]) {
            Some(row) => row,
            None => {
                assert(earlier + Seq::<(int, int)>::empty() =~= earlier);
                return rows;
            },
        };
        y = row;
        rows.push((k - 1, row));
        proof {
            let now = rows@.map_values(|r: (usize, i32)| (r.0 as int, r.1 as int));
            assert(now =~= earlier.push(((k - 1) as int, row as int)));
            assert(earlier + (seq![((k - 1) as int, row as int)] + spec_message_rows(
                heights@.take(k - 1),
                row as int,
            )) =~= now + spec_message_rows(heights@.take(k - 1), row as int));
        }
        k -= 1;
    }
    proof {
        assert(heights@.take(0) =~= Seq::<u32>::empty());
        let now = rows@.map_values(|r: (usize, i32)| (r.0 as int, r.1 as int));
        assert(now + Seq::<(int, int)>::empty() =~= now);
    }
    rows
}

/// What a frame shows.
#[derive(Debug)]
pub struct Frame {
    /// What is painted on each tile, addressed as `paint[x][y]`.
    pub paint: Vec<Vec<Option<Color>>>,
    /// The positions of the entities to draw, in the order of drawing.
    pub order: Vec<usize>,
    /// The player's hit points.
    pub hp: i32,
    /// The most hit points the player can have.
    pub max_hp: i32,
    /// The line that tells the dungeon level.
    pub level_text: String,
    /// The names of what is under the mouse.
    pub names: String,
}

/// The line that tells the dungeon level.
pub open spec fn level_line(level: u32) -> Seq<char> {
    "Dungeon level: "@ + nat_text(level as nat)
}

/// Whether `after` is the field of view that a frame is composed from: `fov`
/// looked over anew from where the player stands, with sight `TORCH_RADIUS`,
/// if that is asked for, and `fov` itself if not.
pub open spec fn looked_from(
    fov: FovMap,
    objects: Seq<ObjectView>,
    fov_recompute: bool,
    after: FovMap,
) -> bool {
    if fov_recompute {
        fov.computed(objects[0].x as int, objects[0].y as int, TORCH_RADIUS as int, after)
    } else {
        after == fov
    }
}

/// Whether `frame` is what the player is shown, looking with `fov` at the
/// game `before`, and `after` is the game once looked at: every tile that
/// the player sees has become explored, and nothing else has changed. The
/// frame holds the paint of the tiles, the entities to draw in their order,
/// the player's hit points and how many it can have, the dungeon level, and
/// the names of what is under the mouse.
pub open spec fn framed(
    fov: FovMap,
    before: Game,
    objects: Seq<ObjectView>,
    mouse: Mouse,
    after: Game,
    frame: Frame,
) -> bool {
    &&& fov.has_size(MAP_WIDTH as int, MAP_HEIGHT as int)
    &&& grid_wf(after.map)
    &&& forall|x: int, y: int|
        in_bounds(x, y) ==> #[trigger] tile_at(after.map, x, y) == looked_at(
            tile_at(before.map, x, y),
            fov.spec_is_in_fov(x, y),
        )
    &&& after.messages == before.messages
    &&& after.inventory == before.inventory
    &&& after.dungeon_level == before.dungeon_level
    &&& paint_of(frame.paint, fov, before.map)
    &&& frame.order@.map_values(|i: usize| i as int) == spec_draw_order(fov, after.map, objects)
    &&& frame.hp == match objects[0].fighter {
        Some(fighter) => fighter.hp,
        None => 0,
    }
    &&& frame.max_hp == objects[0].max_hp(views(before.inventory@))
    &&& frame.level_text@ == level_line(before.dungeon_level)
    &&& frame.names@ == listed(seen_at(fov, objects, mouse.cx as int, mouse.cy as int))
}

/// Looks around and composes the frame. The field of view is computed anew
/// from where the player stands if `fov_recompute` says so; see `looked_from`
/// and `framed`.
pub fn render_all(
    fov: &mut FovMap,
    game: &mut Game,
    objects: &[Object],
    mouse: &Mouse,
    fov_recompute: bool,
) -> (frame: Frame)
    requires
        grid_wf(old(game).map),
        objects@.len() > 0,
        old(fov).has_size(MAP_WIDTH as int, MAP_HEIGHT as int),
        fov_recompute ==> in_bounds(objects@[0].x as int, objects@[0].y as int),
        forall|k: int|
            0 <= k < objects@.len() && (#[trigger] objects@[k]).always_visible ==> in_bounds(
                objects@[k].x as int,
                objects@[k].y as int,
            ),
        fits_i32(views(objects@)[0].max_hp(views(old(game).inventory@))),
    ensures
        looked_from(*old(fov), views(objects@), fov_recompute, *final(fov)),
        framed(*final(fov), *old(game), views(objects@), *mouse, *final(game), frame),
{
    if fov_recompute {
        let player = &objects[PLAYER];
        fov.compute_fov(player.x, player.y, TORCH_RADIUS);
    }
    assert(draw_safe(*fov, views(objects@))) by {
        assert forall|k: int|
            0 <= k < objects@.len() && (#[trigger] views(objects@)[k]).always_visible implies in_bounds(
            views(objects@)[k].x as int,
            views(objects@)[k].y as int,
        ) by {
            assert(objects@[k].always_visible);
        }
    }
    let paint = explore(fov, &mut game.map);
    let order = draw_order(fov, &game.map, objects);
    let hp = match objects[PLAYER].fighter {
        Some(fighter) => fighter.hp,
        None => 0,
    };
    let max_hp = objects[PLAYER].max_hp(game);
    let mut level_text = String::from_str("Dungeon level: ");
    push_nat(&mut level_text, game.dungeon_level as u64);
    let names = names_under_mouse(mouse, objects, fov);
    Frame { paint, order, hp, max_hp, level_text, names }
}

} // verus!
