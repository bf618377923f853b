use rust_and_steel::ai::Ai;
use rust_and_steel::colors::{light_grey, red, sky, violet, white, yellow, Color};
use rust_and_steel::equipment::Slot;
use rust_and_steel::fighter::{DeathCallback, Fighter};
use rust_and_steel::fov::{FovCell, FovMap};
use rust_and_steel::game::{
    decode_key, fov_recompute, handle_keys, initialize_fov, is_level_up_due, item_at, level_up,
    level_up_options, new_game, next_level, on_stairs, target_monster, target_tile, Game, Intent,
    Messages, PlayerAction, Request, Targeting, INITIAL_LEVEL, LEVEL_UP_BASE, LEVEL_UP_FACTOR,
    MAP_HEIGHT, MAP_WIDTH, PLAYER,
};
use rust_and_steel::input::{Key, KeyCode, Mouse};
use rust_and_steel::item::Item;
use rust_and_steel::object::Object;
use rust_and_steel::room::{create_room, make_item, solid_rock, Rect};

fn arena() -> Game {
    let mut map = solid_rock();
    create_room(Rect::new(0, 0, 30, 30), &mut map);
    Game { map, messages: Messages::new(), inventory: vec![], dungeon_level: 1 }
}

fn stats(hp: i32, defense: i32, power: i32, xp: i32, on_death: DeathCallback) -> Fighter {
    Fighter { base_max_hp: hp, hp, base_defense: defense, base_power: power, xp, on_death }
}

fn hero(x: i32, y: i32) -> Object {
    let mut o = Object::new(x, y, '@', "player", white(), true);
    o.alive = true;
    o.fighter = Some(stats(30, 2, 5, 9, DeathCallback::Player));
    o
}

fn orc(x: i32, y: i32) -> Object {
    let mut o = Object::new(x, y, 'o', "orc", white(), true);
    o.alive = true;
    o.fighter = Some(stats(10, 1, 4, 35, DeathCallback::Monster));
    o.ai = Some(Ai::Basic);
    o
}

fn stairs(x: i32, y: i32) -> Object {
    let mut o = Object::new(x, y, '>', "stairs", white(), false);
    o.always_visible = true;
    o
}

fn press(code: KeyCode) -> Key {
    Key { code, printable: '\0', alt: false, text: String::new() }
}

fn typed(text: &str) -> Key {
    Key { code: KeyCode::Text, printable: text.chars().next().unwrap_or('\0'), alt: false, text: text.to_string() }
}

fn log(game: &Game) -> Vec<(String, Color)> {
    game.messages.messages.clone()
}

fn level_fov() -> FovMap {
    FovMap::new(MAP_WIDTH, MAP_HEIGHT)
}

#[test]
fn keys_mean_what_they_say() {
    let table = [
        (press(KeyCode::Up), Intent::Move(0, -1)),
        (press(KeyCode::NumPad8), Intent::Move(0, -1)),
        (press(KeyCode::Down), Intent::Move(0, 1)),
        (press(KeyCode::NumPad2), Intent::Move(0, 1)),
        (press(KeyCode::Left), Intent::Move(-1, 0)),
        (press(KeyCode::NumPad4), Intent::Move(-1, 0)),
        (press(KeyCode::Right), Intent::Move(1, 0)),
        (press(KeyCode::NumPad6), Intent::Move(1, 0)),
        (press(KeyCode::NumPad9), Intent::Move(1, -1)),
        (press(KeyCode::NumPad7), Intent::Move(-1, -1)),
        (press(KeyCode::NumPad1), Intent::Move(-1, 1)),
        (press(KeyCode::NumPad3), Intent::Move(1, 1)),
        (press(KeyCode::NumPad5), Intent::Rest),
        (typed("g"), Intent::PickUp),
        (typed("i"), Intent::UseItem),
        (typed("d"), Intent::DropItem),
        (typed("c"), Intent::CharacterInfo),
        (typed(">"), Intent::Descend),
        (typed("G"), Intent::Nothing),
        (typed("gg"), Intent::Nothing),
        (typed(""), Intent::Nothing),
        (press(KeyCode::Enter), Intent::Nothing),
        (press(KeyCode::Other), Intent::Nothing),
        (press(KeyCode::NoKey), Intent::Nothing),
        (press(KeyCode::Escape), Intent::Exit),
        (Key { alt: true, ..press(KeyCode::Enter) }, Intent::ToggleFullscreen),
        (Key { alt: true, ..press(KeyCode::Escape) }, Intent::Exit),
        (Key { alt: true, ..press(KeyCode::Up) }, Intent::Move(0, -1)),
    ];
    for (key, intent) in &table {
        assert_eq!(decode_key(key, true), *intent);
        let heard_when_dead = matches!(intent, Intent::Exit | Intent::ToggleFullscreen);
        assert_eq!(decode_key(key, false), if heard_when_dead { *intent } else { Intent::Nothing });
    }
    assert_eq!(Key::none().code, KeyCode::NoKey);
    assert_eq!(decode_key(&Key::none(), true), Intent::Nothing);
}

#[test]
fn moving_spends_a_turn() {
    let mut game = arena();
    let mut fov = level_fov();
    let mut objects = vec![hero(5, 5), orc(5, 7)];
    let done = handle_keys(&press(KeyCode::Down), &mut fov, &mut game, &mut objects);
    assert_eq!(done, (PlayerAction::TookTurn, Request::Nothing));
    assert_eq!(objects[PLAYER].pos(), (5, 6));
    handle_keys(&press(KeyCode::NumPad2), &mut fov, &mut game, &mut objects);
    assert_eq!(objects[PLAYER].pos(), (5, 6));
    assert_eq!(objects[1].fighter.unwrap().hp, 6);
    handle_keys(&press(KeyCode::NumPad7), &mut fov, &mut game, &mut objects);
    assert_eq!(objects[PLAYER].pos(), (4, 5));
}

#[test]
fn the_dead_only_leave() {
    let mut game = arena();
    let mut fov = level_fov();
    let mut objects = vec![hero(5, 5), make_item(Item::Heal, 5, 5)];
    objects[0].alive = false;
    for key in [press(KeyCode::Down), press(KeyCode::NumPad5), typed("g"), typed("i"), typed(">")] {
        let done = handle_keys(&key, &mut fov, &mut game, &mut objects);
        assert_eq!(done, (PlayerAction::DidntTakeTurn, Request::Nothing));
    }
    assert_eq!(objects[PLAYER].pos(), (5, 5));
    assert_eq!(objects.len(), 2);
    assert!(log(&game).is_empty());
    let done = handle_keys(&press(KeyCode::Escape), &mut fov, &mut game, &mut objects);
    assert_eq!(done, (PlayerAction::Exit, Request::Nothing));
}

#[test]
fn resting_restores_one_hit_point() {
    let mut game = arena();
    let mut fov = level_fov();
    let mut objects = vec![hero(5, 5)];
    objects[0].fighter = Some(Fighter { hp: 29, ..stats(30, 2, 5, 9, DeathCallback::Player) });
    for _ in 0..2 {
        let done = handle_keys(&press(KeyCode::NumPad5), &mut fov, &mut game, &mut objects);
        assert_eq!(done, (PlayerAction::TookTurn, Request::Nothing));
    }
    assert_eq!(objects[0].fighter.unwrap().hp, 30);
    assert_eq!(log(&game), vec![("You rest...".to_string(), violet()); 2]);
}

#[test]
fn picking_up_takes_the_first_item_underfoot() {
    let mut game = arena();
    let mut fov = level_fov();
    let mut objects = vec![hero(5, 5), orc(6, 6), make_item(Item::Sword, 4, 5), make_item(Item::Heal, 5, 5), make_item(Item::Shield, 5, 5)];
    assert_eq!(item_at(5, 5, &objects), Some(3));
    assert_eq!(item_at(6, 6, &objects), None);
    let done = handle_keys(&typed("g"), &mut fov, &mut game, &mut objects);
    assert_eq!(done, (PlayerAction::TookTurn, Request::Nothing));
    assert_eq!(game.inventory.len(), 1);
    assert_eq!(game.inventory[0].name, "healing potion");
    assert_eq!(objects.len(), 4);
    assert_eq!(objects[3].name, "shield");
    handle_keys(&typed("g"), &mut fov, &mut game, &mut objects);
    let done = handle_keys(&typed("g"), &mut fov, &mut game, &mut objects);
    assert_eq!(done, (PlayerAction::TookTurn, Request::Nothing));
    assert_eq!((game.inventory.len(), objects.len()), (2, 3));
    assert_eq!(game.messages.len(), 2);
}

#[test]
fn menus_are_left_to_the_caller() {
    let mut game = arena();
    let mut fov = level_fov();
    let mut objects = vec![hero(5, 5)];
    let cases = [
        (typed("i"), (PlayerAction::TookTurn, Request::ChooseItemToUse)),
        (typed("d"), (PlayerAction::TookTurn, Request::ChooseItemToDrop)),
        (typed("c"), (PlayerAction::DidntTakeTurn, Request::ShowCharacterInfo)),
        (Key { alt: true, ..press(KeyCode::Enter) }, (PlayerAction::DidntTakeTurn, Request::ToggleFullscreen)),
        (press(KeyCode::Other), (PlayerAction::DidntTakeTurn, Request::Nothing)),
    ];
    for (key, done) in cases {
        assert_eq!(handle_keys(&key, &mut fov, &mut game, &mut objects), done);
    }
    assert!(log(&game).is_empty());
}

#[test]
fn descending_needs_stairs_underfoot() {
    let mut game = arena();
    let mut fov = level_fov();
    let mut objects = vec![hero(5, 5), stairs(6, 5), orc(9, 9)];
    assert!(!on_stairs(&objects));
    let done = handle_keys(&typed(">"), &mut fov, &mut game, &mut objects);
    assert_eq!(done, (PlayerAction::TookTurn, Request::Nothing));
    assert_eq!((game.dungeon_level, objects.len()), (1, 3));
    objects[0].set_pos(6, 5);
    assert!(on_stairs(&objects));
    objects[0].fighter = Some(Fighter { hp: 10, ..stats(30, 2, 5, 9, DeathCallback::Player) });
    handle_keys(&typed(">"), &mut fov, &mut game, &mut objects);
    assert_eq!(game.dungeon_level, 2);
    assert_eq!(objects[0].fighter.unwrap().hp, 25);
    assert_eq!(objects.last().unwrap().name, "stairs");
    assert!(!game.map[objects[0].x as usize][objects[0].y as usize].blocked);
    assert_eq!(log(&game), vec![("You go deeper...".to_string(), violet())]);
}

#[test]
fn the_next_level_is_handed_to_the_field_of_view() {
    let mut game = arena();
    let mut fov = level_fov();
    fov.set_in_fov(3, 3, true);
    let mut objects = vec![hero(5, 5)];
    objects[0].fighter = Some(Fighter { hp: 29, ..stats(31, 2, 5, 9, DeathCallback::Player) });
    game.inventory.push(make_item(Item::Heal, 0, 0));
    next_level(&mut fov, &mut game, &mut objects);
    assert_eq!(objects[0].fighter.unwrap().hp, 31);
    assert_eq!(game.dungeon_level, 2);
    assert_eq!(game.inventory.len(), 1);
    for x in 0..MAP_WIDTH as usize {
        for y in 0..MAP_HEIGHT as usize {
            let tile = game.map[x][y];
            assert_eq!(
                fov.cells[x][y],
                FovCell { transparent: !tile.block_sight, walkable: !tile.blocked, in_fov: (x, y) == (3, 3) }
            );
        }
    }
}

#[test]
fn a_new_game_starts_on_the_first_level() {
    let mut fov = level_fov();
    let (game, objects) = new_game(&mut fov);
    assert_eq!(INITIAL_LEVEL, 1);
    assert_eq!(game.dungeon_level, 1);
    assert_eq!(log(&game), vec![("Prepare yourself to the world of rust and steel".to_string(), red())]);
    let player = &objects[PLAYER];
    assert_eq!((player.char, player.name.as_str(), player.color, player.level), ('@', "player", white(), 1));
    assert!(player.alive && player.blocks && player.ai.is_none());
    assert_eq!(player.fighter, Some(stats(100, 0, 5, 0, DeathCallback::Player)));
    assert!(!game.map[player.x as usize][player.y as usize].blocked);
    assert_eq!(game.inventory.len(), 1);
    let dagger = &game.inventory[0];
    assert_eq!((dagger.char, dagger.name.as_str(), dagger.color), ('-', "dagger", sky()));
    assert_eq!(dagger.item, Some(Item::Sword));
    let e = dagger.equipment.unwrap();
    assert_eq!((e.slot, e.equipped, e.power_bonus, e.defense_bonus, e.max_hp_bonus), (Slot::LeftHand, true, 5, 1, 0));
    assert_eq!((player.power(&game), player.defense(&game), player.max_hp(&game)), (10, 1, 100));
    assert_eq!(objects.last().unwrap().name, "stairs");
    assert!(fov.cells[player.x as usize][player.y as usize].transparent);
    assert!(!fov.cells[0][0].walkable);
    for o in &objects[1..objects.len() - 1] {
        assert!(!matches!(o.item, Some(Item::Sword) | Some(Item::Shield)));
    }
}

#[test]
fn field_of_view_learns_the_tiles() {
    let game = arena();
    let mut fov = level_fov();
    fov.set_in_fov(1, 1, true);
    initialize_fov(&mut fov, &game.map);
    assert_eq!(fov.cells[1][1], FovCell { transparent: true, walkable: true, in_fov: true });
    assert_eq!(fov.cells[29][29], FovCell { transparent: true, walkable: true, in_fov: false });
    assert_eq!(fov.cells[0][0], FovCell { transparent: false, walkable: false, in_fov: false });
    assert_eq!(fov.cells[30][1], FovCell { transparent: false, walkable: false, in_fov: false });
    assert_eq!(fov.cells[79][42], FovCell { transparent: false, walkable: false, in_fov: false });
}

#[test]
fn levelling_up_costs_experience_and_raises_a_stat() {
    assert_eq!((LEVEL_UP_BASE, LEVEL_UP_FACTOR), (100, 150));
    let mut game = arena();
    let mut objects = vec![hero(5, 5)];
    objects[0].fighter = Some(Fighter { hp: 11, ..stats(30, 2, 5, 249, DeathCallback::Player) });
    assert!(!is_level_up_due(&objects));
    level_up(0, &mut game, &mut objects);
    assert_eq!(objects[0].level, 1);
    assert!(log(&game).is_empty());
    objects[0].fighter = Some(Fighter { hp: 11, ..stats(30, 2, 5, 1000, DeathCallback::Player) });
    assert!(is_level_up_due(&objects));
    level_up(0, &mut game, &mut objects);
    let f = objects[0].fighter.unwrap();
    assert_eq!((objects[0].level, f.xp, f.base_max_hp, f.hp, f.base_power, f.base_defense), (2, 750, 50, 31, 5, 2));
    level_up(1, &mut game, &mut objects);
    let f = objects[0].fighter.unwrap();
    assert_eq!((objects[0].level, f.xp, f.base_max_hp, f.hp, f.base_power, f.base_defense), (3, 350, 50, 31, 6, 2));
    assert!(!is_level_up_due(&objects));
    objects[0].fighter = Some(Fighter { xp: 550, ..f });
    assert!(is_level_up_due(&objects));
    level_up(2, &mut game, &mut objects);
    let f = objects[0].fighter.unwrap();
    assert_eq!((objects[0].level, f.xp, f.base_max_hp, f.hp, f.base_power, f.base_defense), (4, 0, 50, 31, 6, 3));
    assert_eq!(log(&game), vec![("Your powers grow stronger".to_string(), yellow()); 3]);
}

#[test]
fn level_up_offers_three_stats() {
    let offers = level_up_options(&stats(100, 1, 5, 0, DeathCallback::Player));
    assert_eq!(
        offers,
        vec![
            "Constitution (+20hp 100 -> 120)".to_string(),
            "Strength (+1 damage 5 -> 6)".to_string(),
            "Agility (+1 defense 1 -> 2)".to_string(),
        ]
    );
    let offers = level_up_options(&stats(i32::MAX, -1, -7, 0, DeathCallback::Player));
    assert_eq!(
        offers,
        vec![
            "Constitution (+20hp 2147483647 -> 2147483667)".to_string(),
            "Strength (+1 damage -7 -> -6)".to_string(),
            "Agility (+1 defense -1 -> 0)".to_string(),
        ]
    );
}

#[test]
fn a_tile_is_chosen_by_a_left_click_in_sight_and_range() {
    let objects = vec![hero(10, 10)];
    let mut fov = level_fov();
    fov.set_in_fov(13, 14, true);
    fov.set_in_fov(20, 10, true);
    let click = |cx, cy| Mouse { cx, cy, lbutton_pressed: true, rbutton_pressed: false };
    let idle = press(KeyCode::NoKey);
    assert_eq!(target_tile(&click(13, 14), &idle, &fov, &objects, Some(5)), Targeting::Chosen(13, 14));
    assert_eq!(target_tile(&click(13, 14), &idle, &fov, &objects, Some(4)), Targeting::Undecided);
    assert_eq!(target_tile(&click(13, 14), &idle, &fov, &objects, None), Targeting::Chosen(13, 14));
    assert_eq!(target_tile(&click(20, 10), &idle, &fov, &objects, Some(10)), Targeting::Chosen(20, 10));
    assert_eq!(target_tile(&click(20, 10), &idle, &fov, &objects, Some(9)), Targeting::Undecided);
    assert_eq!(target_tile(&click(20, 10), &idle, &fov, &objects, Some(-20)), Targeting::Undecided);
    assert_eq!(target_tile(&click(12, 10), &idle, &fov, &objects, None), Targeting::Undecided);
    assert_eq!(target_tile(&click(-1, 10), &idle, &fov, &objects, None), Targeting::Undecided);
    assert_eq!(target_tile(&click(80, 43), &idle, &fov, &objects, None), Targeting::Undecided);
    let hover = Mouse { cx: 13, cy: 14, lbutton_pressed: false, rbutton_pressed: false };
    assert_eq!(target_tile(&hover, &idle, &fov, &objects, None), Targeting::Undecided);
}

#[test]
fn a_choice_is_declined_by_a_right_click_or_escape() {
    let objects = vec![hero(10, 10)];
    let mut fov = level_fov();
    fov.set_in_fov(13, 14, true);
    let both = Mouse { cx: 13, cy: 14, lbutton_pressed: true, rbutton_pressed: true };
    let right = Mouse { cx: 13, cy: 14, lbutton_pressed: false, rbutton_pressed: true };
    let away = Mouse { cx: 1, cy: 1, lbutton_pressed: true, rbutton_pressed: false };
    let idle = press(KeyCode::NoKey);
    let escape = press(KeyCode::Escape);
    assert_eq!(target_tile(&both, &escape, &fov, &objects, None), Targeting::Chosen(13, 14));
    assert_eq!(target_tile(&right, &idle, &fov, &objects, None), Targeting::Declined);
    assert_eq!(target_tile(&away, &escape, &fov, &objects, None), Targeting::Declined);
    assert_eq!(target_tile(&away, &idle, &fov, &objects, None), Targeting::Undecided);
}

#[test]
fn the_target_monster_is_the_first_other_fighter_on_the_tile() {
    let mut corpse = orc(5, 5);
    corpse.fighter = None;
    let objects = vec![hero(5, 5), corpse, orc(5, 5), orc(5, 5), orc(7, 7)];
    assert_eq!(target_monster(5, 5, &objects), Some(2));
    assert_eq!(target_monster(7, 7, &objects), Some(4));
    assert_eq!(target_monster(6, 6, &objects), None);
    assert_eq!(target_monster(5, 5, &objects[..2]), None);
}

#[test]
fn sight_is_computed_anew_only_after_a_move() {
    let mut objects = vec![hero(5, 5)];
    assert!(fov_recompute((-1, -1), &objects));
    assert!(!fov_recompute((5, 5), &objects));
    objects[0].set_pos(5, 6);
    assert!(fov_recompute((5, 5), &objects));
    assert!(fov_recompute((6, 6), &objects));
    let _ = light_grey();
}
