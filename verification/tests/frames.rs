use rust_and_steel::ai::Ai;
use rust_and_steel::colors::{sky, white, Color};
use rust_and_steel::equipment::{Equipment, Slot};
use rust_and_steel::fighter::{DeathCallback, Fighter};
use rust_and_steel::fov::FovMap;
use rust_and_steel::game::{Game, Messages, Tile, MAP_HEIGHT, MAP_WIDTH};
use rust_and_steel::input::Mouse;
use rust_and_steel::item::Item;
use rust_and_steel::object::Object;
use rust_and_steel::render::{
    bar_text, character_info, draw_order, explore, inventory_choice, inventory_options, menu_index,
    message_rows, names_under_mouse, render_all, tile_color, BAR_WIDTH, MSG_HEIGHT, MSG_WIDTH,
    MSG_X, PANEL_HEIGHT, PANEL_Y, SCREEN_HEIGHT, SCREEN_WIDTH, TORCH_RADIUS,
};
use rust_and_steel::room::{create_room, solid_rock, Rect};

fn arena() -> Game {
    let mut map = solid_rock();
    create_room(Rect::new(0, 0, 30, 30), &mut map);
    Game { map, messages: Messages::new(), inventory: vec![], dungeon_level: 1 }
}

fn hero(x: i32, y: i32) -> Object {
    let mut o = Object::new(x, y, '@', "player", white(), true);
    o.alive = true;
    o.fighter = Some(Fighter { base_max_hp: 30, hp: 17, base_defense: 2, base_power: 5, xp: 9, on_death: DeathCallback::Player });
    o
}

fn orc(x: i32, y: i32) -> Object {
    let mut o = Object::new(x, y, 'o', "orc", white(), true);
    o.alive = true;
    o.ai = Some(Ai::Basic);
    o
}

fn thing(name: &str, x: i32, y: i32) -> Object {
    Object::new(x, y, '!', name, white(), false)
}

fn gear(name: &str, slot: Slot, equipped: bool) -> Object {
    let mut o = Object::new(0, 0, '/', name, sky(), false);
    o.item = Some(Item::Sword);
    o.equipment = Some(Equipment { slot, equipped, power_bonus: 3, defense_bonus: 1, max_hp_bonus: 4 });
    o
}

fn sees(tiles: &[(i32, i32)]) -> FovMap {
    let mut fov = FovMap::new(MAP_WIDTH, MAP_HEIGHT);
    for (x, y) in tiles {
        fov.set_in_fov(*x, *y, true);
    }
    fov
}

#[test]
fn the_panel_is_laid_out_below_the_level() {
    assert_eq!((SCREEN_WIDTH, SCREEN_HEIGHT, BAR_WIDTH, PANEL_HEIGHT, PANEL_Y), (80, 50, 20, 7, 43));
    assert_eq!((MSG_X, MSG_WIDTH, MSG_HEIGHT, TORCH_RADIUS), (22, 58, 6, 10));
}

#[test]
fn tiles_are_coloured_by_sight_and_kind() {
    assert_eq!(tile_color(false, true), Color { r: 0, g: 0, b: 100 });
    assert_eq!(tile_color(false, false), Color { r: 50, g: 50, b: 150 });
    assert_eq!(tile_color(true, true), Color { r: 130, g: 110, b: 150 });
    assert_eq!(tile_color(true, false), Color { r: 200, g: 180, b: 150 });
}

#[test]
fn looking_explores_what_is_seen() {
    let mut game = arena();
    let fov = sees(&[(1, 1), (0, 0), (2, 1)]);
    let paint = explore(&fov, &mut game.map);
    assert_eq!(paint[1][1], Some(tile_color(true, false)));
    assert_eq!(paint[0][0], Some(tile_color(true, true)));
    assert_eq!(paint[3][3], None);
    assert_eq!(game.map[1][1], Tile { explored: true, ..Tile::empty() });
    assert_eq!(game.map[0][0], Tile { explored: true, ..Tile::wall() });
    assert_eq!(game.map[3][3], Tile::empty());
    let fov = sees(&[(2, 1), (3, 3)]);
    let paint = explore(&fov, &mut game.map);
    assert_eq!(paint[1][1], Some(tile_color(false, false)));
    assert_eq!(paint[0][0], Some(tile_color(false, true)));
    assert_eq!(paint[2][1], Some(tile_color(true, false)));
    assert_eq!(paint[3][3], Some(tile_color(true, false)));
    assert_eq!(paint[4][4], None);
    assert!(game.map[1][1].explored && game.map[0][0].explored && game.map[3][3].explored);
    let explored = game.map.iter().flatten().filter(|t| t.explored).count();
    assert_eq!(explored, 4);
    assert_eq!((paint.len(), paint[79].len()), (80, 43));
}

#[test]
fn what_does_not_block_is_drawn_last() {
    let mut game = arena();
    game.map[7][7].explored = true;
    let mut stairs = thing("stairs", 7, 7);
    stairs.always_visible = true;
    let mut hidden_stairs = thing("stairs", 8, 8);
    hidden_stairs.always_visible = true;
    let objects = vec![hero(1, 1), thing("a", 1, 1), orc(2, 2), stairs, thing("b", 2, 2), orc(9, 9), hidden_stairs, thing("c", 9, 9)];
    let fov = sees(&[(1, 1), (2, 2)]);
    assert_eq!(draw_order(&fov, &game.map, &objects), vec![0, 2, 1, 3, 4]);
    assert_eq!(draw_order(&sees(&[]), &game.map, &objects), vec![3]);
    assert_eq!(draw_order(&fov, &game.map, &[]), Vec::<usize>::new());
}

#[test]
fn names_under_the_mouse_are_listed() {
    let objects = vec![hero(1, 1), thing("sword", 1, 1), orc(2, 2), thing("potion", 1, 1), thing("scroll", 3, 3)];
    let fov = sees(&[(1, 1), (2, 2)]);
    let at = |cx, cy| Mouse { cx, cy, lbutton_pressed: false, rbutton_pressed: false };
    assert_eq!(names_under_mouse(&at(1, 1), &objects, &fov), "player, sword, potion");
    assert_eq!(names_under_mouse(&at(2, 2), &objects, &fov), "orc");
    assert_eq!(names_under_mouse(&at(3, 3), &objects, &fov), "");
    assert_eq!(names_under_mouse(&at(4, 4), &objects, &fov), "");
    assert_eq!(names_under_mouse(&at(-1, -1), &objects, &fov), "");
}

#[test]
fn menu_letters_choose_options() {
    assert_eq!(menu_index('a', 3), Some(0));
    assert_eq!(menu_index('c', 3), Some(2));
    assert_eq!(menu_index('C', 3), Some(2));
    assert_eq!(menu_index('d', 3), None);
    assert_eq!(menu_index('z', 26), Some(25));
    assert_eq!(menu_index('Z', 26), Some(25));
    assert_eq!(menu_index('z', 25), None);
    assert_eq!(menu_index('a', 0), None);
    for c in ['1', ' ', '\0', '@', '[', '`', '{', 'é', 'я', 'ª', '\u{10FFFF}'] {
        assert_eq!(menu_index(c, 26), None);
    }
    for c in (0u8..128).map(|b| b as char) {
        let expected = if c.is_alphabetic() {
            Some(c.to_ascii_lowercase() as usize - 'a' as usize)
        } else {
            None
        };
        assert_eq!(menu_index(c, 26), expected);
    }
}

#[test]
fn the_inventory_menu_says_what_is_worn() {
    let inventory = vec![gear("dagger", Slot::LeftHand, true), gear("sword", Slot::RightHand, false), thing("potion", 0, 0), gear("helmet", Slot::Head, true)];
    assert_eq!(
        inventory_options(&inventory),
        vec!["dagger (on left hand)", "sword", "potion", "helmet (on head)"]
    );
    assert_eq!(inventory_options(&[]), vec!["Inventory is empty"]);
    assert_eq!(inventory_choice(4, Some(2)), Some(2));
    assert_eq!(inventory_choice(4, None), None);
    assert_eq!(inventory_choice(0, Some(0)), None);
}

#[test]
fn character_information_counts_the_gear() {
    let mut game = arena();
    game.inventory.push(gear("dagger", Slot::LeftHand, true));
    let mut player = hero(1, 1);
    player.level = 3;
    assert_eq!(
        character_info(&player, &game),
        Some(
            "Character information:\nLevel: 3\nExperience: 9\nExperience to level up: 550\nMaximum HP: 34\nAttack: 8\nDefense: 3"
                .to_string()
        )
    );
    assert_eq!(character_info(&thing("rock", 0, 0), &game), None);
}

#[test]
fn bars_show_value_of_maximum() {
    assert_eq!(bar_text("HP", 17, 30), "HP: 17/30");
    assert_eq!(bar_text("", -1, 0), ": -1/0");
}

#[test]
fn the_latest_lines_fill_the_panel_from_the_bottom() {
    assert_eq!(message_rows(&vec![1, 1, 1]), vec![(2, 5), (1, 4), (0, 3)]);
    assert_eq!(message_rows(&vec![1, 1, 1, 1, 1, 1, 1, 1]), vec![(7, 5), (6, 4), (5, 3), (4, 2), (3, 1), (2, 0)]);
    assert_eq!(message_rows(&vec![9, 2, 3]), vec![(2, 3), (1, 1)]);
    assert_eq!(message_rows(&vec![1, 5, 2, 1]), vec![(3, 5), (2, 3)]);
    assert_eq!(message_rows(&vec![1, 7]), Vec::<(usize, i32)>::new());
    assert_eq!(message_rows(&vec![6]), vec![(0, 0)]);
    assert_eq!(message_rows(&vec![0, 0]), vec![(1, 6), (0, 6)]);
    assert_eq!(message_rows(&vec![u32::MAX]), Vec::<(usize, i32)>::new());
    assert_eq!(message_rows(&vec![]), Vec::<(usize, i32)>::new());
}

#[test]
fn a_frame_holds_what_is_to_be_shown() {
    let mut game = arena();
    game.dungeon_level = 12;
    game.inventory.push(gear("helmet", Slot::Head, true));
    game.messages.add_str("hello", white());
    let mut stairs = thing("stairs", 5, 5);
    stairs.always_visible = true;
    let objects = vec![hero(1, 1), orc(2, 1), thing("potion", 2, 1), stairs, orc(9, 9)];
    let mouse = Mouse { cx: 2, cy: 1, lbutton_pressed: false, rbutton_pressed: false };
    let mut fov = sees(&[(1, 1), (2, 1), (5, 5)]);
    let frame = render_all(&mut fov, &mut game, &objects, &mouse, false);
    assert_eq!(frame.order, vec![0, 1, 2, 3]);
    assert_eq!((frame.hp, frame.max_hp), (17, 34));
    assert_eq!(frame.level_text, "Dungeon level: 12");
    assert_eq!(frame.names, "orc, potion");
    assert_eq!(frame.paint[1][1], Some(tile_color(true, false)));
    assert_eq!(frame.paint[9][9], None);
    assert!(game.map[5][5].explored && !game.map[9][9].explored);
    let frame = render_all(&mut sees(&[(9, 9)]), &mut game, &objects, &mouse, false);
    assert_eq!(frame.order, vec![4, 3]);
    assert_eq!(frame.names, "");
    assert_eq!(frame.paint[1][1], Some(tile_color(false, false)));
    assert_eq!(frame.paint[9][9], Some(tile_color(true, false)));
    assert_eq!(game.messages.len(), 1);
}

#[test]
fn a_frame_looks_anew_when_asked() {
    let mut game = arena();
    let mut fov = FovMap::new(MAP_WIDTH, MAP_HEIGHT);
    rust_and_steel::game::initialize_fov(&mut fov, &game.map);
    let objects = vec![hero(3, 3), orc(5, 3), orc(20, 3)];
    let mouse = Mouse { cx: 5, cy: 3, lbutton_pressed: false, rbutton_pressed: false };
    let frame = render_all(&mut fov, &mut game, &objects, &mouse, false);
    assert_eq!((frame.order, frame.names.as_str()), (vec![], ""));
    let frame = render_all(&mut fov, &mut game, &objects, &mouse, true);
    assert_eq!((frame.order, frame.names.as_str()), (vec![0, 1], "orc"));
    assert!(fov.is_in_fov(13, 3) && !fov.is_in_fov(14, 3));
    assert!(fov.is_in_fov(0, 0) && fov.is_in_fov(3, 13) && !fov.is_in_fov(4, 13));
    assert!(game.map[0][3].explored && game.map[13][3].explored && !game.map[14][3].explored);
    assert_eq!(frame.paint[0][3], Some(tile_color(true, true)));
}

