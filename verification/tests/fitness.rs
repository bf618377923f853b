use rust_and_steel::ai::Ai;
use rust_and_steel::colors::white;
use rust_and_steel::components::combat::{Combat, DeathCallback as Announcement};
use rust_and_steel::components::fov::Fov;
use rust_and_steel::components::position::Position;
use rust_and_steel::engine::{is_scene_fit, try_tick, PlayerAction as SceneAction};
use rust_and_steel::equipment::{Equipment, Slot};
use rust_and_steel::fighter::{DeathCallback, Fighter};
use rust_and_steel::fov::FovMap;
use rust_and_steel::game::{new_game, Game, PlayerAction, Request, MAP_HEIGHT, MAP_WIDTH};
use rust_and_steel::input::{Key, KeyCode, Mouse};
use rust_and_steel::item::{Item, UseStep};
use rust_and_steel::object::Object;
use rust_and_steel::room::make_item;
use rust_and_steel::scene::Scene;
use rust_and_steel::session::{
    is_playable, try_drop_item, try_handle_keys, try_level_up, try_render_all, try_use_item,
    try_use_item_on_monster, try_use_item_on_tile, try_world_turn, ENTITY_LIMIT, STAT_LIMIT,
};

fn press(code: KeyCode) -> Key {
    Key { code, printable: '\0', alt: false, text: String::new() }
}

fn started() -> (FovMap, Game, Vec<Object>) {
    let mut fov = FovMap::new(MAP_WIDTH, MAP_HEIGHT);
    let (game, objects) = new_game(&mut fov);
    (fov, game, objects)
}

fn orc(x: i32, y: i32) -> Object {
    let mut o = Object::new(x, y, 'o', "orc", white(), true);
    o.alive = true;
    o.fighter = Some(Fighter { base_max_hp: 10, hp: 10, base_defense: 1, base_power: 4, xp: 35, on_death: DeathCallback::Monster });
    o.ai = Some(Ai::Basic);
    o
}

#[test]
fn a_new_game_is_fit_to_be_played_on() {
    for _ in 0..20 {
        let (fov, game, objects) = started();
        assert!(is_playable(&fov, &game, &objects));
    }
}

#[test]
fn a_game_stays_fit_over_many_turns() {
    let (mut fov, mut game, mut objects) = started();
    let mouse = Mouse { cx: 0, cy: 0, lbutton_pressed: false, rbutton_pressed: false };
    let keys = [KeyCode::Up, KeyCode::Left, KeyCode::NumPad3, KeyCode::Down, KeyCode::Right, KeyCode::NumPad5, KeyCode::NumPad7];
    for turn in 0..300 {
        let frame = try_render_all(&mut fov, &mut game, &objects, &mouse, true).expect("fit");
        assert!(frame.order.contains(&0));
        let (x, y) = objects[0].pos();
        assert!(fov.is_in_fov(x, y) && game.map[x as usize][y as usize].explored);
        let key = press(keys[turn % keys.len()]);
        let alive = objects[0].alive;
        let (action, request) = try_handle_keys(&key, &mut fov, &mut game, &mut objects).expect("fit");
        let spent = if alive { PlayerAction::TookTurn } else { PlayerAction::DidntTakeTurn };
        assert_eq!((action, request), (spent, Request::Nothing));
        assert!(try_world_turn(action, &fov, &mut game, &mut objects));
        assert!(!game.map[objects[0].x as usize][objects[0].y as usize].blocked);
        for o in objects.iter().filter(|o| o.ai.is_some()) {
            assert!(!game.map[o.x as usize][o.y as usize].blocked);
        }
    }
    assert!(is_playable(&fov, &game, &objects));
}

#[test]
fn unfit_games_are_told_apart() {
    let (fov, game, objects) = started();
    let spoil = |change: &dyn Fn(&mut FovMap, &mut Game, &mut Vec<Object>)| {
        let (mut fov, mut game, mut objects) = started();
        change(&mut fov, &mut game, &mut objects);
        is_playable(&fov, &game, &objects)
    };
    assert!(is_playable(&fov, &game, &objects));
    assert!(!spoil(&|_, game, _| game.map[0][7].blocked = false));
    assert!(!spoil(&|_, game, _| game.map[79][7].blocked = false));
    assert!(!spoil(&|_, game, _| game.map[7][0].blocked = false));
    assert!(!spoil(&|_, game, _| game.map[7][42].blocked = false));
    assert!(!spoil(&|_, game, _| {
        game.map.pop();
    }));
    assert!(!spoil(&|_, game, _| {
        game.map[5].pop();
    }));
    assert!(!spoil(&|fov, _, _| *fov = FovMap::new(MAP_WIDTH, MAP_HEIGHT - 1)));
    assert!(!spoil(&|fov, _, _| *fov = FovMap::new(MAP_WIDTH + 1, MAP_HEIGHT)));
    assert!(!spoil(&|_, game, _| game.dungeon_level = u32::MAX));
    assert!(spoil(&|_, game, _| game.dungeon_level = u32::MAX - 1));
    assert!(!spoil(&|_, game, _| {
        for _ in 0..26 {
            game.inventory.push(make_item(Item::Heal, 0, 0));
        }
    }));
    assert!(spoil(&|_, game, _| {
        for _ in 0..25 {
            game.inventory.push(make_item(Item::Heal, 0, 0));
        }
    }));
    assert!(!spoil(&|_, game, _| {
        let mut ring = make_item(Item::Sword, 0, 0);
        ring.equipment = Some(Equipment { slot: Slot::Head, equipped: false, power_bonus: 0, defense_bonus: STAT_LIMIT + 1, max_hp_bonus: 0 });
        game.inventory.push(ring);
    }));
    assert!(!spoil(&|_, _, objects| objects.clear()));
    assert!(!spoil(&|_, _, objects| objects[0].fighter = None));
    assert!(!spoil(&|_, _, objects| objects[0].ai = Some(Ai::Basic)));
    assert!(!spoil(&|_, _, objects| objects[0].item = Some(Item::Heal)));
    assert!(!spoil(&|_, _, objects| objects[0].set_pos(0, 5)));
    assert!(!spoil(&|_, _, objects| objects[0].set_pos(5, 42)));
    assert!(!spoil(&|_, _, objects| objects[0].level = -STAT_LIMIT - 1));
    assert!(!spoil(&|_, _, objects| {
        let f = objects[0].fighter.unwrap();
        objects[0].fighter = Some(Fighter { on_death: DeathCallback::Monster, ..f });
    }));
    assert!(!spoil(&|_, _, objects| {
        let f = objects[0].fighter.unwrap();
        objects[0].fighter = Some(Fighter { xp: STAT_LIMIT + 1, ..f });
    }));
    assert!(spoil(&|_, _, objects| {
        let f = objects[0].fighter.unwrap();
        objects[0].fighter = Some(Fighter { xp: STAT_LIMIT, hp: -STAT_LIMIT, ..f });
    }));
    assert!(!spoil(&|_, _, objects| objects.push(orc(0, 5))));
    assert!(spoil(&|_, _, objects| objects.push(orc(1, 1))));
    assert!(!spoil(&|_, _, objects| {
        let mut statue = orc(5, 5);
        statue.fighter = None;
        objects.push(statue);
    }));
    assert!(spoil(&|_, _, objects| {
        let mut corpse = orc(-5, 500);
        corpse.ai = None;
        objects.push(corpse);
    }));
    assert!(!spoil(&|_, _, objects| objects.last_mut().unwrap().set_pos(80, 5)));
    assert!(!spoil(&|_, _, objects| {
        while objects.len() <= ENTITY_LIMIT {
            objects.push(make_item(Item::Heal, 1, 1));
        }
    }));
}

#[test]
fn nothing_happens_to_a_game_that_is_unfit() {
    let (mut fov, mut game, mut objects) = started();
    game.inventory.push(make_item(Item::Fireball, 0, 0));
    objects[0].fighter = None;
    let mouse = Mouse { cx: 0, cy: 0, lbutton_pressed: false, rbutton_pressed: false };
    let start = objects[0].pos();
    assert!(try_handle_keys(&press(KeyCode::Up), &mut fov, &mut game, &mut objects).is_none());
    assert!(!try_world_turn(PlayerAction::TookTurn, &fov, &mut game, &mut objects));
    assert!(try_use_item(1, &fov, &mut game, &mut objects).is_none());
    assert!(!try_use_item_on_tile(1, Some(start), &fov, &mut game, &mut objects));
    assert!(!try_use_item_on_monster(1, None, &fov, &mut game, &mut objects));
    assert!(!try_level_up(0, &fov, &mut game, &mut objects));
    assert!(try_render_all(&mut fov, &mut game, &objects, &mouse, true).is_none());
    assert_eq!(objects[0].pos(), start);
    assert_eq!((game.inventory.len(), game.messages.len()), (2, 1));
    assert!(game.map.iter().flatten().all(|t| !t.explored));
}

#[test]
fn checked_uses_ask_for_what_they_need() {
    let (fov, mut game, mut objects) = started();
    game.inventory.push(make_item(Item::Confusion, 0, 0));
    game.inventory.push(make_item(Item::Fireball, 0, 0));
    let here = objects[0].pos();
    objects.truncate(1);
    objects.push(orc(here.0, here.1));
    assert_eq!(try_use_item(3, &fov, &mut game, &mut objects), None);
    assert_eq!(try_use_item(1, &fov, &mut game, &mut objects), Some(UseStep::ChooseMonster));
    assert!(!try_use_item_on_monster(1, Some(0), &fov, &mut game, &mut objects));
    assert!(!try_use_item_on_monster(1, Some(2), &fov, &mut game, &mut objects));
    assert!(!try_use_item_on_monster(3, Some(1), &fov, &mut game, &mut objects));
    assert_eq!(game.inventory.len(), 3);
    assert!(try_use_item_on_monster(1, Some(1), &fov, &mut game, &mut objects));
    assert_eq!(game.inventory.len(), 2);
    assert!(matches!(objects[1].ai, Some(Ai::Confused { .. })));
    assert_eq!(try_use_item(1, &fov, &mut game, &mut objects), Some(UseStep::ChooseTile));
    assert!(!try_use_item_on_tile(2, Some(here), &fov, &mut game, &mut objects));
    assert!(try_use_item_on_tile(1, Some(here), &fov, &mut game, &mut objects));
    assert_eq!(objects[0].fighter.unwrap().hp, 85);
    assert_eq!(objects[0].fighter.unwrap().xp, 35);
    assert_eq!(objects[1].name, "remains of orc");
    assert!(!try_level_up(3, &fov, &mut game, &mut objects));
    assert!(try_level_up(2, &fov, &mut game, &mut objects));
    assert_eq!(objects[0].level, 1);
    assert!(!try_drop_item(1, &mut game, &mut objects));
    assert!(try_drop_item(0, &mut game, &mut objects));
    assert_eq!(objects.last().unwrap().name, "dagger");
    assert!(!try_drop_item(0, &mut game, &mut Vec::new()));
}

#[test]
fn a_new_scene_is_fit_for_ticks() {
    let mut next = 0;
    let mut scene = Scene::new(&mut next);
    let mut previous = (0, 0);
    assert!(is_scene_fit(&scene));
    for code in [KeyCode::NumPad4, KeyCode::NumPad8, KeyCode::NumPad6, KeyCode::NumPad2, KeyCode::NoKey] {
        for _ in 0..30 {
            let before = scene.position_components[0].pos();
            let done = try_tick(&press(code), &mut scene, &mut previous).expect("fit");
            assert_eq!(previous, before);
            assert_eq!(done.0.is_some(), code != KeyCode::NoKey);
            assert!(scene.fov_components[0].fov_map.is_in_fov(before.0, before.1));
        }
    }
    let (x, y) = scene.position_components[0].pos();
    assert!(!scene.map[x as usize][y as usize].blocked);
    assert_eq!(try_tick(&press(KeyCode::Escape), &mut scene, &mut previous), Some((Some(SceneAction::Exit), None)));
}

#[test]
fn unfit_scenes_are_told_apart() {
    let spoil = |change: &dyn Fn(&mut Scene)| {
        let mut next = 0;
        let mut scene = Scene::new(&mut next);
        change(&mut scene);
        let fit = is_scene_fit(&scene);
        let mut previous = (7, 7);
        assert_eq!(try_tick(&press(KeyCode::NumPad4), &mut scene, &mut previous).is_some(), fit);
        assert!(fit || previous == (7, 7));
        fit
    };
    assert!(spoil(&|_| {}));
    assert!(!spoil(&|scene| {
        scene.map.pop();
    }));
    assert!(!spoil(&|scene| scene.player_id = 1));
    assert!(!spoil(&|scene| scene.position_components.clear()));
    assert!(!spoil(&|scene| scene.combat_components.clear()));
    assert!(!spoil(&|scene| scene.position_components[0].set_pos(0, 3)));
    assert!(!spoil(&|scene| scene.position_components.push(Position::new(0, 3, 3))));
    assert!(spoil(&|scene| scene.position_components.push(Position::new(5, 3, 3))));
    assert!(!spoil(&|scene| scene.position_components.push(Position::new(5, 3, 43))));
    assert!(!spoil(&|scene| scene.combat_components[0].hp = 1_000_001));
    assert!(!spoil(&|scene| scene.combat_components.push(Combat::new(9, 5, 5, -1_000_001))));
    assert!(spoil(&|scene| scene.combat_components.push(Combat::new(9, 5, 5, 5))));
    assert!(!spoil(&|scene| {
        scene.combat_components.push(Combat::new(9, 5, 5, 5));
        scene.position_components.push(Position::new(9, 3, 3));
    }));
    assert!(spoil(&|scene| {
        let mut goblin = Combat::new(1, 5, 5, 5);
        goblin.on_death = Some(Announcement::Monster);
        scene.combat_components.push(goblin);
        scene.position_components.push(Position::new(1, 3, 3));
    }));
    assert!(!spoil(&|scene| {
        let mut fov = Fov::new(3, 5, &scene.map);
        fov.fov_map = FovMap::new(3, 3);
        scene.fov_components.push(fov);
    }));
}
