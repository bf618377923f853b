use rust_and_steel::colors::white;
use rust_and_steel::equipment::Slot;
use rust_and_steel::game::{from_dungeon_level, Grid, Tile, Transition, MAP_HEIGHT, MAP_WIDTH};
use rust_and_steel::item::Item;
use rust_and_steel::object::Object;
use rust_and_steel::room::{
    connect, create_h_tunnel, create_room, create_v_tunnel, dig_room, generate, intersects_any,
    item_table, join_room, make_item, make_map, make_monster, max_items, max_monsters,
    monster_table, place_item, place_monster, place_objects, solid_rock, MonsterKind, Rect,
    MAX_ROOMS, ROOM_MAX_SIZE, ROOM_MIN_SIZE,
};

fn open_tiles(map: &Grid) -> Vec<(usize, usize)> {
    let mut open = Vec::new();
    for x in 0..map.len() {
        for y in 0..map[x].len() {
            if !map[x][y].blocked {
                open.push((x, y));
            }
        }
    }
    open
}

fn player() -> Object {
    Object::new(0, 0, '@', "player", white(), true)
}

#[test]
fn rect_new_adds_the_extent() {
    let r = Rect::new(3, 4, 6, 7);
    assert_eq!((r.x1, r.y1, r.x2, r.y2), (3, 4, 9, 11));
}

#[test]
fn rect_center_rounds_towards_zero() {
    assert_eq!(Rect::new(3, 4, 6, 7).center(), (6, 7));
    assert_eq!(Rect { x1: 0, y1: 0, x2: 5, y2: 9 }.center(), (2, 4));
    assert_eq!(Rect { x1: -5, y1: -9, x2: 0, y2: 0 }.center(), (-2, -4));
    assert_eq!(
        Rect { x1: i32::MAX, y1: i32::MIN, x2: i32::MAX, y2: i32::MIN }.center(),
        (i32::MAX, i32::MIN)
    );
}

#[test]
fn rect_intersect_counts_shared_borders() {
    let a = Rect::new(0, 0, 5, 5);
    assert!(a.intersect(&Rect::new(5, 5, 3, 3)));
    assert!(a.intersect(&Rect::new(2, 2, 1, 1)));
    assert!(!a.intersect(&Rect::new(6, 0, 3, 3)));
    assert!(!a.intersect(&Rect::new(0, 6, 3, 3)));
    assert!(Rect::new(6, 0, 3, 3).intersect(&Rect::new(9, 3, 1, 1)));
}

#[test]
fn intersects_any_looks_at_every_room() {
    let rooms = vec![Rect::new(0, 0, 5, 5), Rect::new(20, 20, 5, 5)];
    assert!(intersects_any(&Rect::new(22, 22, 6, 6), &rooms));
    assert!(!intersects_any(&Rect::new(10, 10, 6, 6), &rooms));
    assert!(!intersects_any(&Rect::new(0, 0, 6, 6), &Vec::new()));
}

#[test]
fn solid_rock_is_all_wall() {
    let map = solid_rock();
    assert_eq!(map.len(), MAP_WIDTH as usize);
    for column in &map {
        assert_eq!(column.len(), MAP_HEIGHT as usize);
        for tile in column {
            assert_eq!(*tile, Tile::wall());
        }
    }
}

#[test]
fn create_room_digs_the_interior_only() {
    let mut map = solid_rock();
    create_room(Rect::new(2, 3, 4, 3), &mut map);
    let mut expected = Vec::new();
    for x in 3..6 {
        for y in 4..6 {
            expected.push((x, y));
        }
    }
    assert_eq!(open_tiles(&map), expected);
    assert_eq!(map[3][4], Tile::empty());
}

#[test]
fn create_room_without_interior_digs_nothing() {
    let mut map = solid_rock();
    create_room(Rect::new(2, 3, 1, 5), &mut map);
    create_room(Rect::new(200, 300, 0, 0), &mut map);
    assert!(open_tiles(&map).is_empty());
}

#[test]
fn tunnels_run_both_ways_ends_included() {
    let mut map = solid_rock();
    create_h_tunnel(7, 4, 2, &mut map);
    assert_eq!(open_tiles(&map), vec![(4, 2), (5, 2), (6, 2), (7, 2)]);
    let mut map = solid_rock();
    create_v_tunnel(3, 5, 9, &mut map);
    assert_eq!(open_tiles(&map), vec![(9, 3), (9, 4), (9, 5)]);
    let mut map = solid_rock();
    create_v_tunnel(5, 5, 0, &mut map);
    assert_eq!(open_tiles(&map), vec![(0, 5)]);
}

#[test]
fn connect_turns_at_the_right_corner() {
    let mut map = solid_rock();
    connect((2, 2), (4, 5), true, &mut map);
    assert_eq!(open_tiles(&map), vec![(2, 2), (3, 2), (4, 2), (4, 3), (4, 4), (4, 5)]);
    let mut map = solid_rock();
    connect((2, 2), (4, 5), false, &mut map);
    assert_eq!(open_tiles(&map), vec![(2, 2), (2, 3), (2, 4), (2, 5), (3, 5), (4, 5)]);
}

#[test]
fn dungeon_level_tables_step_up() {
    let table = [Transition { level: 1, value: 2 }, Transition { level: 4, value: 3 }];
    assert_eq!(from_dungeon_level(&table, 0), 0);
    assert_eq!(from_dungeon_level(&table, 1), 2);
    assert_eq!(from_dungeon_level(&table, 3), 2);
    assert_eq!(from_dungeon_level(&table, 4), 3);
    assert_eq!(from_dungeon_level(&table, 100), 3);
    assert_eq!(from_dungeon_level(&[], 5), 0);
    let unordered = [Transition { level: 9, value: 1 }, Transition { level: 2, value: 7 }];
    assert_eq!(from_dungeon_level(&unordered, 10), 7);
}

#[test]
fn population_limits_by_level() {
    let monsters: Vec<u32> = (0..8).map(max_monsters).collect();
    assert_eq!(monsters, vec![0, 2, 2, 2, 3, 3, 5, 5]);
    let items: Vec<u32> = (0..6).map(max_items).collect();
    assert_eq!(items, vec![0, 1, 1, 1, 2, 2]);
}

#[test]
fn chance_tables_by_level() {
    assert_eq!(monster_table(), vec![80, 20]);
    assert_eq!(item_table(1), vec![70, 10, 10, 10, 0, 0]);
    assert_eq!(item_table(4), vec![70, 10, 10, 10, 5, 0]);
    assert_eq!(item_table(8), vec![70, 10, 10, 10, 5, 15]);
}

#[test]
fn monsters_are_born_alive_and_hostile() {
    let goblin = make_monster(MonsterKind::Goblin, 3, 4);
    assert_eq!((goblin.x, goblin.y, goblin.char, goblin.name.as_str()), (3, 4, 'g', "goblin"));
    assert!(goblin.alive && goblin.blocks && goblin.ai.is_some());
    let f = goblin.fighter.unwrap();
    assert_eq!((f.base_max_hp, f.hp, f.base_defense, f.base_power, f.xp), (10, 10, 0, 3, 25));
    let orc = make_monster(MonsterKind::Orc, 1, 2);
    let f = orc.fighter.unwrap();
    assert_eq!((f.base_max_hp, f.hp, f.base_defense, f.base_power, f.xp), (15, 15, 1, 5, 80));
    assert_eq!((orc.char, orc.name.as_str()), ('o', "orc"));
}

#[test]
fn items_are_born_as_their_kind() {
    let kinds = [
        (Item::Heal, '!', "healing potion"),
        (Item::Fireball, '#', "fireball scroll"),
        (Item::Lightning, '#', "lightning scroll"),
        (Item::Confusion, '#', "confusion scroll"),
        (Item::Sword, '/', "sword"),
        (Item::Shield, '0', "shield"),
    ];
    for (kind, glyph, name) in kinds {
        let item = make_item(kind, 5, 6);
        assert_eq!(item.item, Some(kind));
        assert_eq!((item.x, item.y, item.char, item.name.as_str()), (5, 6, glyph, name));
        assert!(!item.blocks && !item.alive && item.fighter.is_none() && item.ai.is_none());
    }
    let sword = make_item(Item::Sword, 0, 0).equipment.unwrap();
    assert_eq!(sword.slot, Slot::RightHand);
    assert_eq!((sword.equipped, sword.power_bonus, sword.defense_bonus, sword.max_hp_bonus), (false, 5, 0, 0));
    let shield = make_item(Item::Shield, 0, 0).equipment.unwrap();
    assert_eq!(shield.slot, Slot::LeftHand);
    assert_eq!((shield.equipped, shield.power_bonus, shield.defense_bonus, shield.max_hp_bonus), (false, 0, 5, 4));
    assert!(make_item(Item::Heal, 0, 0).equipment.is_none());
}

#[test]
fn place_objects_fills_the_room_within_limits() {
    for round in 0..200 {
        let level = 1 + (round % 9) as u32;
        let room = Rect::new(10, 10, 8, 7);
        let mut map = solid_rock();
        create_room(room, &mut map);
        let mut objects = vec![player()];
        place_objects(room, &map, &mut objects, level);
        assert_eq!(objects[0].name, "player");
        let placed = &objects[1..];
        let monsters = placed.iter().filter(|o| o.fighter.is_some()).count();
        let items = placed.iter().filter(|o| o.item.is_some()).count();
        assert_eq!(monsters + items, placed.len());
        assert!(monsters as u32 <= max_monsters(level));
        assert!(items as u32 <= max_items(level));
        let first_item = placed.iter().position(|o| o.item.is_some()).unwrap_or(placed.len());
        assert!(placed[first_item..].iter().all(|o| o.item.is_some()));
        for (k, o) in placed.iter().enumerate() {
            assert!(room.x1 < o.x && o.x < room.x2 && room.y1 < o.y && o.y < room.y2);
            assert!(!map[o.x as usize][o.y as usize].blocked);
            for earlier in &placed[..k] {
                assert!(!(earlier.blocks && earlier.pos() == o.pos()));
            }
            match o.item {
                Some(Item::Sword) => assert!(level >= 4),
                Some(Item::Shield) => assert!(level >= 8),
                _ => {}
            }
        }
    }
}

#[test]
fn place_objects_places_nothing_at_level_zero() {
    let room = Rect::new(10, 10, 8, 7);
    let map = solid_rock();
    let mut objects = vec![player()];
    place_objects(room, &map, &mut objects, 0);
    assert_eq!(objects.len(), 1);
}

#[test]
fn generated_rooms_never_intersect() {
    for _ in 0..50 {
        let mut objects = vec![player()];
        let (_, rooms) = generate(&mut objects, 3);
        assert!(!rooms.is_empty() && rooms.len() <= MAX_ROOMS as usize);
        for (i, a) in rooms.iter().enumerate() {
            assert!(ROOM_MIN_SIZE <= a.x2 - a.x1 && a.x2 - a.x1 <= ROOM_MAX_SIZE);
            assert!(ROOM_MIN_SIZE <= a.y2 - a.y1 && a.y2 - a.y1 <= ROOM_MAX_SIZE);
            assert!(0 <= a.x1 && a.x2 < MAP_WIDTH && 0 <= a.y1 && a.y2 < MAP_HEIGHT);
            for (j, b) in rooms.iter().enumerate() {
                if i != j {
                    assert!(!a.intersect(b));
                }
            }
        }
    }
}

#[test]
fn generated_rooms_are_all_reachable() {
    for _ in 0..50 {
        let mut objects = vec![player()];
        let (map, rooms) = generate(&mut objects, 1);
        let start = rooms[0].center();
        let mut seen = vec![vec![false; MAP_HEIGHT as usize]; MAP_WIDTH as usize];
        let mut queue = vec![(start.0 as usize, start.1 as usize)];
        seen[queue[0].0][queue[0].1] = true;
        while let Some((x, y)) = queue.pop() {
            for (nx, ny) in [(x + 1, y), (x - 1, y), (x, y + 1), (x, y - 1)] {
                if !map[nx][ny].blocked && !seen[nx][ny] {
                    seen[nx][ny] = true;
                    queue.push((nx, ny));
                }
            }
        }
        for room in &rooms {
            let (cx, cy) = room.center();
            assert!(seen[cx as usize][cy as usize]);
            for x in room.x1 + 1..room.x2 {
                for y in room.y1 + 1..room.y2 {
                    assert!(!map[x as usize][y as usize].blocked);
                    assert!(seen[x as usize][y as usize]);
                }
            }
        }
        for pair in rooms.windows(2) {
            let (ax, ay) = pair[0].center();
            let (bx, by) = pair[1].center();
            let row_then_column = (ax.min(bx)..=ax.max(bx)).all(|x| !map[x as usize][ay as usize].blocked)
                && (ay.min(by)..=ay.max(by)).all(|y| !map[bx as usize][y as usize].blocked);
            let column_then_row = (ay.min(by)..=ay.max(by)).all(|y| !map[ax as usize][y as usize].blocked)
                && (ax.min(bx)..=ax.max(bx)).all(|x| !map[x as usize][by as usize].blocked);
            assert!(row_then_column || column_then_row);
        }
    }
}

#[test]
fn generated_level_is_walled_in_and_unexplored() {
    let mut objects = vec![player()];
    let (map, rooms) = generate(&mut objects, 2);
    for x in 0..MAP_WIDTH as usize {
        for y in 0..MAP_HEIGHT as usize {
            let tile = map[x][y];
            assert!(tile == Tile::wall() || tile == Tile::empty());
            if x == 0 || y == 0 || x == MAP_WIDTH as usize - 1 || y == MAP_HEIGHT as usize - 1 {
                assert!(tile.blocked);
            }
            if !tile.blocked {
                let in_room = rooms
                    .iter()
                    .any(|r| r.x1 < x as i32 && (x as i32) < r.x2 && r.y1 < y as i32 && (y as i32) < r.y2);
                let on_corridor = rooms.windows(2).any(|p| {
                    let (ax, ay) = p[0].center();
                    let (bx, by) = p[1].center();
                    let (x, y) = (x as i32, y as i32);
                    let in_x = ax.min(bx) <= x && x <= ax.max(bx);
                    let in_y = ay.min(by) <= y && y <= ay.max(by);
                    (in_x && (y == ay || y == by)) || (in_y && (x == ax || x == bx))
                });
                assert!(in_room || on_corridor);
            }
        }
    }
}

#[test]
fn generate_places_player_and_stairs() {
    for _ in 0..20 {
        let mut objects = vec![player(), make_monster(MonsterKind::Orc, 1, 1), make_item(Item::Heal, 2, 2)];
        objects[0].level = 7;
        let (map, rooms) = generate(&mut objects, 5);
        assert_eq!(objects[0].pos(), rooms[0].center());
        assert_eq!((objects[0].name.as_str(), objects[0].level), ("player", 7));
        let stairs = objects.last().unwrap();
        assert_eq!(stairs.pos(), rooms.last().unwrap().center());
        assert_eq!((stairs.char, stairs.name.as_str()), ('>', "stairs"));
        assert!(stairs.always_visible && !stairs.blocks && stairs.color == white());
        assert!(objects.len() >= 2);
        let spawned = &objects[1..objects.len() - 1];
        for (k, o) in spawned.iter().enumerate() {
            assert!(o.fighter.is_some() != o.item.is_some());
            assert!(!map[o.x as usize][o.y as usize].blocked);
            assert!(rooms.iter().any(|r| r.x1 < o.x && o.x < r.x2 && r.y1 < o.y && o.y < r.y2));
            for earlier in &spawned[..k] {
                assert!(!(earlier.blocks && earlier.pos() == o.pos()));
            }
        }
    }
}

#[test]
fn make_map_builds_a_level() {
    let mut objects = vec![player()];
    let map = make_map(&mut objects, 1);
    assert_eq!(map.len(), MAP_WIDTH as usize);
    assert!(map.iter().all(|column| column.len() == MAP_HEIGHT as usize));
    let (x, y) = objects[0].pos();
    assert!(!map[x as usize][y as usize].blocked);
    let stairs = objects.last().unwrap();
    assert!(!map[stairs.x as usize][stairs.y as usize].blocked);
    assert!(open_tiles(&map).len() >= 16);
}

#[test]
fn spawns_come_in_every_kind() {
    let mut names = std::collections::BTreeSet::new();
    for _ in 0..300 {
        let room = Rect::new(10, 10, 10, 10);
        let mut map = solid_rock();
        create_room(room, &mut map);
        let mut objects = vec![player()];
        place_objects(room, &map, &mut objects, 9);
        for o in &objects[1..] {
            names.insert(o.name.clone());
        }
    }
    let all: Vec<&str> = names.iter().map(|n| n.as_str()).collect();
    assert_eq!(
        all,
        vec![
            "confusion scroll",
            "fireball scroll",
            "goblin",
            "healing potion",
            "lightning scroll",
            "orc",
            "shield",
            "sword",
        ]
    );
}

#[test]
fn corridors_start_out_either_way() {
    let mut row_first = 0;
    let mut column_first = 0;
    for _ in 0..40 {
        let mut objects = vec![player()];
        let (map, rooms) = generate(&mut objects, 1);
        for pair in rooms.windows(2) {
            let (ax, ay) = pair[0].center();
            let (bx, by) = pair[1].center();
            if ax == bx || ay == by {
                continue;
            }
            let corner_of_row_first = !map[bx as usize][ay as usize].blocked;
            let corner_of_column_first = !map[ax as usize][by as usize].blocked;
            assert!(corner_of_row_first || corner_of_column_first);
            if corner_of_row_first && !corner_of_column_first {
                row_first += 1;
            }
            if corner_of_column_first && !corner_of_row_first {
                column_first += 1;
            }
        }
    }
    assert!(row_first > 0 && column_first > 0);
}

#[test]
fn a_monster_is_placed_unless_the_tile_is_blocked() {
    let room = Rect::new(10, 10, 8, 7);
    let mut map = solid_rock();
    create_room(room, &mut map);
    let mut objects = vec![player()];
    place_monster(12, 12, 1, &map, &mut objects);
    place_monster(12, 12, 0, &map, &mut objects);
    place_monster(10, 12, 0, &map, &mut objects);
    place_monster(0, 0, 0, &map, &mut objects);
    place_monster(13, 12, 0, &map, &mut objects);
    let spawned: Vec<(&str, (i32, i32))> = objects[1..].iter().map(|o| (o.name.as_str(), o.pos())).collect();
    assert_eq!(spawned, vec![("orc", (12, 12)), ("goblin", (13, 12))]);
    assert!(objects[1].alive && objects[1].ai.is_some());
    assert_eq!(objects[1].fighter.unwrap().xp, 80);
}

#[test]
fn an_item_is_placed_unless_the_tile_is_blocked() {
    let room = Rect::new(10, 10, 8, 7);
    let mut map = solid_rock();
    create_room(room, &mut map);
    let mut objects = vec![player()];
    let kinds = [Item::Heal, Item::Fireball, Item::Lightning, Item::Confusion, Item::Sword, Item::Shield];
    for (index, _) in kinds.iter().enumerate() {
        place_item(11, 11, index, &map, &mut objects);
    }
    place_item(17, 16, 0, &map, &mut objects);
    place_item(18, 11, 0, &map, &mut objects);
    place_monster(11, 11, 0, &map, &mut objects);
    place_item(11, 11, 0, &map, &mut objects);
    let items: Vec<Option<Item>> = objects[1..].iter().map(|o| o.item).collect();
    let mut expected: Vec<Option<Item>> = kinds.iter().map(|k| Some(*k)).collect();
    expected.push(Some(Item::Heal));
    expected.push(None);
    assert_eq!(items, expected);
    assert_eq!(objects[7].pos(), (17, 16));
    assert_eq!(objects[8].name, "goblin");
}

#[test]
fn a_room_is_dug_unless_it_touches_another() {
    let mut map = solid_rock();
    let mut rooms = Vec::new();
    let first = dig_room(5, 5, 6, 7, &rooms, &mut map);
    assert_eq!(first, Some(Rect { x1: 5, y1: 5, x2: 11, y2: 12 }));
    assert_eq!(open_tiles(&map).len(), 5 * 6);
    rooms.push(first.unwrap());
    let dug = map.clone();
    assert_eq!(dig_room(11, 12, 6, 6, &rooms, &mut map), None);
    assert_eq!(dig_room(0, 0, 6, 6, &rooms, &mut map), None);
    assert_eq!(dig_room(7, 7, 6, 6, &rooms, &mut map), None);
    assert_eq!(map, dug);
    assert_eq!(dig_room(12, 5, 6, 6, &rooms, &mut map), Some(Rect { x1: 12, y1: 5, x2: 18, y2: 11 }));
    assert_eq!(open_tiles(&map).len(), 5 * 6 + 5 * 5);
    assert!(!map[13][6].blocked && map[12][6].blocked && map[11][6].blocked);
}

#[test]
fn the_first_room_takes_the_player_and_the_others_a_corridor() {
    let mut map = solid_rock();
    let mut rooms = Vec::new();
    let mut objects = vec![player(), make_monster(MonsterKind::Orc, 3, 3)];
    let first = dig_room(5, 5, 6, 6, &rooms, &mut map).unwrap();
    let rock_but_the_room = map.clone();
    join_room(first, true, &mut rooms, &mut map, &mut objects);
    assert_eq!(rooms, vec![first]);
    assert_eq!(map, rock_but_the_room);
    assert_eq!((objects[0].pos(), objects[1].pos()), ((8, 8), (3, 3)));
    let second = dig_room(20, 15, 8, 6, &rooms, &mut map).unwrap();
    join_room(second, true, &mut rooms, &mut map, &mut objects);
    assert_eq!(rooms, vec![first, second]);
    assert_eq!((objects[0].pos(), objects[1].pos()), ((8, 8), (3, 3)));
    assert!((8..=24).all(|x| !map[x][8].blocked));
    assert!((8..=18).all(|y| !map[24][y].blocked));
    assert!(map[8][12].blocked && map[15][18].blocked);
    let third = dig_room(40, 30, 6, 6, &rooms, &mut map).unwrap();
    join_room(third, false, &mut rooms, &mut map, &mut objects);
    assert!((18..=33).all(|y| !map[24][y].blocked));
    assert!((24..=43).all(|x| !map[x][33].blocked));
    assert!(map[43][20].blocked && map[30][18].blocked);
}
