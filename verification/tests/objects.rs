use rust_and_steel::ai::Ai;
use rust_and_steel::colors::{dark_red, light_green, light_yellow, red, sky, white, Color};
use rust_and_steel::equipment::{Equipment, Slot};
use rust_and_steel::fighter::{monster_death, player_death, DeathCallback, Fighter};
use rust_and_steel::fov::FovMap;
use rust_and_steel::game::{is_blocked, mut_two, Game, Messages, MAP_HEIGHT, MAP_WIDTH};
use rust_and_steel::item::Item;
use rust_and_steel::object::{
    closest_monster, fighter_at, move_by, move_towards, player_move_attack, Object,
};
use rust_and_steel::room::{create_room, solid_rock, Rect};

fn arena() -> Game {
    let mut map = solid_rock();
    create_room(Rect::new(0, 0, 30, 30), &mut map);
    Game { map, messages: Messages::new(), inventory: vec![], dungeon_level: 1 }
}

fn stats(hp: i32, defense: i32, power: i32, xp: i32, on_death: DeathCallback) -> Fighter {
    Fighter { base_max_hp: hp, hp, base_defense: defense, base_power: power, xp, on_death }
}

fn hero(x: i32, y: i32) -> Object {
    let mut o = Object::new(x, y, '@', "player", white(), true);
    o.alive = true;
    o.fighter = Some(stats(30, 2, 5, 0, DeathCallback::Player));
    o
}

fn orc(x: i32, y: i32) -> Object {
    let mut o = Object::new(x, y, 'o', "orc", white(), true);
    o.alive = true;
    o.fighter = Some(stats(10, 1, 4, 35, DeathCallback::Monster));
    o.ai = Some(Ai::Basic);
    o
}

fn gear(name: &str, slot: Slot, equipped: bool, power: i32, defense: i32, hp: i32) -> Object {
    let mut o = Object::new(0, 0, '/', name, sky(), false);
    o.item = Some(Item::Sword);
    o.equipment = Some(Equipment { slot, equipped, power_bonus: power, defense_bonus: defense, max_hp_bonus: hp });
    o
}

fn log(game: &Game) -> Vec<(String, Color)> {
    game.messages.messages.clone()
}

fn all_seen() -> FovMap {
    let mut fov = FovMap::new(MAP_WIDTH, MAP_HEIGHT);
    for x in 0..MAP_WIDTH {
        for y in 0..MAP_HEIGHT {
            fov.set_in_fov(x, y, true);
        }
    }
    fov
}

#[test]
fn new_object_is_bare() {
    let o = Object::new(3, -4, 'x', "thing", red(), true);
    assert_eq!((o.x, o.y, o.char, o.color, o.name.as_str(), o.blocks), (3, -4, 'x', red(), "thing", true));
    assert!(!o.alive && o.fighter.is_none() && o.equipment.is_none() && o.ai.is_none());
    assert!(o.item.is_none() && !o.always_visible);
    assert_eq!(o.level, 1);
    assert_eq!(o.pos(), (3, -4));
}

#[test]
fn set_pos_moves_only() {
    let mut o = orc(1, 2);
    o.set_pos(7, 9);
    assert_eq!(o.pos(), (7, 9));
    assert_eq!(o.name, "orc");
    assert_eq!(o.fighter, Some(stats(10, 1, 4, 35, DeathCallback::Monster)));
}

#[test]
fn distance_is_squared_and_exact() {
    let o = orc(1, 2);
    assert_eq!(o.distance_sq(4, 6), 25);
    assert_eq!(o.distance_sq(1, 2), 0);
    assert_eq!(o.distance_sq_to(&orc(-2, 2)), 9);
    let far = Object::new(i32::MIN, i32::MIN, ' ', "", white(), false);
    let span = (i32::MAX as i128) - (i32::MIN as i128);
    assert_eq!(far.distance_sq(i32::MAX, i32::MAX), 2 * span * span);
}

#[test]
fn take_damage_lowers_hp_by_the_damage() {
    let mut game = arena();
    let mut o = orc(1, 1);
    assert_eq!(o.take_damage(3, &mut game), None);
    assert_eq!(o.fighter.unwrap().hp, 7);
    assert_eq!(o.take_damage(6, &mut game), None);
    assert_eq!(o.fighter.unwrap().hp, 1);
    assert!(o.alive);
    assert!(log(&game).is_empty());
}

#[test]
fn take_damage_ignores_damage_that_is_not_positive() {
    let mut game = arena();
    let mut o = orc(1, 1);
    assert_eq!(o.take_damage(0, &mut game), None);
    assert_eq!(o.take_damage(-5, &mut game), None);
    assert_eq!(o.take_damage(i32::MIN, &mut game), None);
    assert_eq!(o.fighter.unwrap().hp, 10);
    let mut rock = Object::new(0, 0, '.', "rock", white(), false);
    assert_eq!(rock.take_damage(50, &mut game), None);
    assert!(rock.fighter.is_none());
    assert!(log(&game).is_empty());
}

#[test]
fn monster_dies_once_and_leaves_remains() {
    let mut game = arena();
    let mut o = orc(4, 5);
    assert_eq!(o.take_damage(10, &mut game), Some(35));
    assert!(!o.alive && !o.blocks && o.fighter.is_none() && o.ai.is_none());
    assert_eq!((o.char, o.color, o.name.as_str()), ('%', dark_red(), "remains of orc"));
    assert_eq!(o.pos(), (4, 5));
    assert_eq!(log(&game), vec![("orc dies!".to_string(), red())]);
    assert_eq!(o.take_damage(10, &mut game), None);
    assert_eq!(o.name, "remains of orc");
    assert!(!o.alive);
    assert_eq!(log(&game).len(), 1);
}

#[test]
fn player_dies_once_but_keeps_bleeding() {
    let mut game = arena();
    let mut p = hero(1, 1);
    assert_eq!(p.take_damage(31, &mut game), Some(0));
    assert!(!p.alive && p.blocks);
    assert_eq!((p.char, p.color, p.name.as_str()), ('%', dark_red(), "player"));
    assert_eq!(p.fighter.unwrap().hp, -1);
    assert_eq!(log(&game), vec![("Your history ends here".to_string(), red())]);
    assert_eq!(p.take_damage(4, &mut game), None);
    assert_eq!(p.fighter.unwrap().hp, -5);
    assert!(!p.alive);
    assert_eq!(log(&game).len(), 1);
}

#[test]
fn what_is_not_alive_does_not_die() {
    let mut game = arena();
    let mut o = orc(1, 1);
    o.alive = false;
    assert_eq!(o.take_damage(100, &mut game), None);
    assert_eq!(o.fighter.unwrap().hp, -90);
    assert_eq!(o.name, "orc");
    assert!(log(&game).is_empty());
}

#[test]
fn death_policies_apply_as_named() {
    let mut game = arena();
    let mut a = orc(1, 1);
    player_death(&mut a, &mut game);
    assert_eq!((a.char, a.color), ('%', dark_red()));
    assert!(a.blocks && a.fighter.is_some() && a.ai.is_some());
    let mut b = orc(1, 1);
    monster_death(&mut b, &mut game);
    assert_eq!(b.name, "remains of orc");
    let mut c = orc(1, 1);
    DeathCallback::Monster.callback(&mut c, &mut game);
    assert_eq!(c.name, "remains of orc");
    let mut d = orc(1, 1);
    DeathCallback::Player.callback(&mut d, &mut game);
    assert_eq!(d.name, "orc");
    assert_eq!(
        log(&game),
        vec![
            ("Your history ends here".to_string(), red()),
            ("orc dies!".to_string(), red()),
            ("orc dies!".to_string(), red()),
            ("Your history ends here".to_string(), red()),
        ]
    );
}

#[test]
fn attack_takes_power_less_defense() {
    let mut game = arena();
    let mut p = hero(1, 1);
    let mut o = orc(1, 2);
    p.attack(&mut o, &mut game);
    assert_eq!(o.fighter.unwrap().hp, 6);
    o.attack(&mut p, &mut game);
    assert_eq!(p.fighter.unwrap().hp, 28);
    assert_eq!(
        log(&game),
        vec![
            ("orc gets 4 damage from player".to_string(), red()),
            ("player gets 2 damage from orc".to_string(), red()),
        ]
    );
}

#[test]
fn attack_that_cannot_hurt_is_a_miss() {
    let mut game = arena();
    let mut p = hero(1, 1);
    let mut knight = orc(1, 2);
    knight.name = "knight".to_string();
    knight.fighter = Some(stats(10, 5, 4, 35, DeathCallback::Monster));
    p.attack(&mut knight, &mut game);
    assert_eq!(knight.fighter.unwrap().hp, 10);
    knight.fighter = Some(stats(10, 9, 4, 35, DeathCallback::Monster));
    p.attack(&mut knight, &mut game);
    assert_eq!(knight.fighter.unwrap().hp, 10);
    assert_eq!(
        log(&game),
        vec![
            ("player failed to scratch knight".to_string(), red()),
            ("player failed to scratch knight".to_string(), red()),
        ]
    );
}

#[test]
fn attack_that_kills_earns_experience() {
    let mut game = arena();
    let mut p = hero(1, 1);
    p.fighter = Some(stats(30, 2, 50, 7, DeathCallback::Player));
    let mut o = orc(1, 2);
    p.attack(&mut o, &mut game);
    assert_eq!(p.fighter.unwrap().xp, 42);
    assert_eq!(o.name, "remains of orc");
    assert_eq!(
        log(&game),
        vec![
            ("orc gets 49 damage from player".to_string(), red()),
            ("orc dies!".to_string(), red()),
        ]
    );
}

#[test]
fn only_the_player_wears_the_inventory() {
    let mut game = arena();
    game.inventory.push(gear("dagger", Slot::LeftHand, true, 5, 1, 0));
    game.inventory.push(gear("helmet", Slot::Head, true, 0, 2, 7));
    game.inventory.push(gear("sword", Slot::RightHand, false, 100, 100, 100));
    game.inventory.push(Object::new(0, 0, '!', "potion", white(), false));
    let p = hero(1, 1);
    assert_eq!((p.max_hp(&game), p.power(&game), p.defense(&game)), (37, 10, 5));
    assert_eq!(p.get_all_equipped(&game).len(), 2);
    assert_eq!(p.get_all_equipped(&game)[1].max_hp_bonus, 7);
    let o = orc(1, 2);
    assert_eq!((o.max_hp(&game), o.power(&game), o.defense(&game)), (10, 4, 1));
    assert!(o.get_all_equipped(&game).is_empty());
    let rock = Object::new(0, 0, '.', "rock", white(), false);
    assert_eq!((rock.max_hp(&game), rock.power(&game), rock.defense(&game)), (0, 0, 0));
    let mut ghost = Object::new(0, 0, '.', "player", white(), false);
    assert_eq!((ghost.max_hp(&game), ghost.power(&game), ghost.defense(&game)), (7, 5, 3));
    ghost.name = "Player".to_string();
    assert_eq!(ghost.power(&game), 0);
}

#[test]
fn gear_counts_in_a_fight() {
    let mut game = arena();
    game.inventory.push(gear("dagger", Slot::LeftHand, true, 5, 1, 0));
    let mut p = hero(1, 1);
    let mut o = orc(1, 2);
    p.attack(&mut o, &mut game);
    assert_eq!(o.fighter.unwrap().hp, 1);
    o.attack(&mut p, &mut game);
    assert_eq!(p.fighter.unwrap().hp, 29);
}

#[test]
fn heal_stops_at_full_hit_points() {
    let mut game = arena();
    game.inventory.push(gear("helmet", Slot::Head, true, 0, 0, 4));
    let mut p = hero(1, 1);
    p.fighter = Some(Fighter { hp: 20, ..stats(30, 2, 5, 0, DeathCallback::Player) });
    p.heal(10, &game);
    assert_eq!(p.fighter.unwrap().hp, 30);
    p.heal(3, &game);
    assert_eq!(p.fighter.unwrap().hp, 33);
    p.heal(3, &game);
    assert_eq!(p.fighter.unwrap().hp, 34);
    p.heal(i32::MAX, &game);
    assert_eq!(p.fighter.unwrap().hp, 34);
    p.heal(-4, &game);
    assert_eq!(p.fighter.unwrap().hp, 30);
    let mut rock = Object::new(0, 0, '.', "rock", white(), false);
    rock.heal(5, &game);
    assert!(rock.fighter.is_none());
}

#[test]
fn equip_and_dequip_say_what_they_do() {
    let mut messages = Messages::new();
    let mut sword = gear("sword", Slot::RightHand, false, 5, 0, 0);
    sword.equip(&mut messages);
    assert!(sword.equipment.unwrap().equipped);
    sword.equip(&mut messages);
    assert!(sword.equipment.unwrap().equipped);
    sword.dequip(&mut messages);
    assert!(!sword.equipment.unwrap().equipped);
    sword.dequip(&mut messages);
    let mut helmet = gear("helmet", Slot::Head, false, 0, 0, 1);
    helmet.equip(&mut messages);
    let mut shield = gear("shield", Slot::LeftHand, true, 0, 0, 1);
    shield.dequip(&mut messages);
    assert_eq!(
        messages.messages,
        vec![
            ("Equipped sword on right hand".to_string(), light_green()),
            ("Dequipped sword from right hand".to_string(), light_yellow()),
            ("Equipped helmet on head".to_string(), light_green()),
            ("Dequipped shield from left hand".to_string(), light_yellow()),
        ]
    );
}

#[test]
fn equip_refuses_what_is_no_equipment() {
    let mut messages = Messages::new();
    let mut rock = Object::new(1, 2, '.', "rock", white(), false);
    rock.equip(&mut messages);
    rock.item = Some(Item::Heal);
    rock.equip(&mut messages);
    assert!(rock.equipment.is_none());
    assert_eq!(messages.len(), 2);
    let (first, color) = messages.get(0).clone();
    assert_eq!(color, red());
    assert!(first.starts_with("Can't equip Object { x: 1, y: 2, char: '.'"));
    assert!(first.contains("name: \"rock\""));
    assert!(first.ends_with(" as it's not an item"));
    let (second, color) = messages.get(1).clone();
    assert_eq!(color, red());
    assert!(second.starts_with("Can't equip Object {"));
    assert!(second.contains("item: Some(Heal)"));
    assert!(second.ends_with(" as it's not an equipment"));
}

#[test]
fn dequip_refuses_what_is_no_item_with_one_line() {
    let mut messages = Messages::new();
    let mut rock = Object::new(1, 2, '.', "rock", white(), false);
    rock.dequip(&mut messages);
    assert_eq!(messages.len(), 1);
    assert!(messages.get(0).0.starts_with("Can't dequip Object { x: 1, y: 2"));
    assert!(messages.get(0).0.ends_with(" as it's not an item"));
    assert_eq!(messages.get(0).1, red());
    let mut odd = gear("ring", Slot::Head, true, 0, 0, 0);
    odd.item = None;
    odd.dequip(&mut messages);
    assert!(odd.equipment.unwrap().equipped);
    assert_eq!(messages.len(), 2);
    assert!(messages.get(1).0.ends_with(" as it's not an item"));
    let mut potion = Object::new(1, 2, '!', "potion", white(), false);
    potion.item = Some(Item::Heal);
    potion.dequip(&mut messages);
    assert!(potion.equipment.is_none());
    assert_eq!(messages.len(), 3);
    assert!(messages.get(2).0.starts_with("Can't dequip Object {"));
    assert!(messages.get(2).0.ends_with(" as it's not an equipment"));
}

#[test]
fn taking_off_asks_no_questions() {
    let mut messages = Messages::new();
    let mut odd = gear("ring", Slot::Head, true, 0, 0, 0);
    odd.item = None;
    odd.take_off(&mut messages);
    assert!(!odd.equipment.unwrap().equipped);
    odd.take_off(&mut messages);
    let mut rock = Object::new(1, 2, '.', "rock", white(), false);
    rock.take_off(&mut messages);
    assert!(rock.equipment.is_none());
    assert_eq!(messages.messages, vec![("Dequipped ring from head".to_string(), light_yellow())]);
}

#[test]
fn is_blocked_by_rock_and_by_what_blocks() {
    let game = arena();
    let mut potion = Object::new(3, 3, '!', "potion", white(), false);
    potion.item = Some(Item::Heal);
    let objects = vec![hero(1, 1), orc(2, 2), potion];
    assert!(is_blocked(0, 0, &game.map, &objects));
    assert!(is_blocked(30, 5, &game.map, &objects));
    assert!(is_blocked(1, 1, &game.map, &objects));
    assert!(is_blocked(2, 2, &game.map, &objects));
    assert!(!is_blocked(3, 3, &game.map, &objects));
    assert!(!is_blocked(4, 4, &game.map, &objects));
    assert!(!is_blocked(4, 4, &game.map, &[]));
}

#[test]
fn move_by_steps_unless_blocked() {
    let game = arena();
    let mut objects = vec![hero(1, 1), orc(2, 2), Object::new(1, 2, '!', "potion", white(), false)];
    move_by(0, 1, 1, &game.map, &mut objects);
    assert_eq!(objects[0].pos(), (1, 1));
    move_by(0, -1, 0, &game.map, &mut objects);
    assert_eq!(objects[0].pos(), (1, 1));
    move_by(0, 0, 1, &game.map, &mut objects);
    assert_eq!(objects[0].pos(), (1, 2));
    move_by(1, 3, -1, &game.map, &mut objects);
    assert_eq!(objects[1].pos(), (5, 1));
    move_by(1, 0, 0, &game.map, &mut objects);
    assert_eq!(objects[1].pos(), (5, 1));
    assert_eq!(objects[2].pos(), (1, 2));
}

#[test]
fn move_towards_picks_the_nearest_of_eight_directions() {
    let game = arena();
    let cases = [
        ((3, 1), (1, 0)),
        ((2, 2), (1, 1)),
        ((1, 2), (0, 1)),
        ((4, 7), (0, 1)),
        ((4, 6), (1, 1)),
        ((-5, 0), (-1, 0)),
        ((-3, -3), (-1, -1)),
        ((0, -9), (0, -1)),
        ((7, -4), (1, 0)),
        ((7, -5), (1, -1)),
        ((0, 0), (0, 0)),
    ];
    for ((dx, dy), step) in cases {
        let mut objects = vec![orc(15, 15)];
        move_towards(0, 15 + dx, 15 + dy, &game.map, &mut objects);
        assert_eq!(objects[0].pos(), (15 + step.0, 15 + step.1));
    }
}

#[test]
fn move_towards_agrees_with_rounding_the_unit_vector() {
    let game = arena();
    for dx in -14..=14 {
        for dy in -14..=14 {
            let mut objects = vec![orc(15, 15)];
            move_towards(0, 15 + dx, 15 + dy, &game.map, &mut objects);
            let distance = ((dx * dx + dy * dy) as f64).sqrt();
            let sx = (dx as f64 / distance).round() as i32;
            let sy = (dy as f64 / distance).round() as i32;
            assert_eq!(objects[0].pos(), (15 + sx, 15 + sy));
        }
    }
}

#[test]
fn move_towards_respects_what_blocks() {
    let game = arena();
    let mut objects = vec![orc(5, 5), hero(6, 5)];
    move_towards(0, 9, 5, &game.map, &mut objects);
    assert_eq!(objects[0].pos(), (5, 5));
}

#[test]
fn fighter_at_finds_the_first() {
    let objects = vec![Object::new(2, 2, '!', "potion", white(), false), orc(2, 2), hero(2, 2)];
    assert_eq!(fighter_at(2, 2, &objects), Some(1));
    assert_eq!(fighter_at(2, 3, &objects), None);
}

#[test]
fn player_moves_or_attacks() {
    let mut game = arena();
    let mut objects = vec![hero(5, 5), orc(6, 5)];
    player_move_attack(0, 1, &mut game, &mut objects);
    assert_eq!(objects[0].pos(), (5, 6));
    assert!(log(&game).is_empty());
    player_move_attack(1, -1, &mut game, &mut objects);
    assert_eq!(objects[0].pos(), (5, 6));
    assert_eq!(objects[1].fighter.unwrap().hp, 6);
    assert_eq!(log(&game), vec![("orc gets 4 damage from player".to_string(), red())]);
}

#[test]
fn player_walks_over_remains() {
    let mut game = arena();
    let mut objects = vec![hero(5, 5), orc(6, 5)];
    objects[0].fighter = Some(stats(30, 2, 50, 0, DeathCallback::Player));
    player_move_attack(1, 0, &mut game, &mut objects);
    assert_eq!(objects[1].name, "remains of orc");
    assert_eq!(objects[0].fighter.unwrap().xp, 35);
    player_move_attack(1, 0, &mut game, &mut objects);
    assert_eq!(objects[0].pos(), (6, 5));
}

#[test]
fn closest_monster_is_the_first_of_the_nearest() {
    let fov = all_seen();
    let objects = vec![hero(10, 10), orc(13, 10), orc(10, 13), orc(12, 12), orc(10, 8)];
    assert_eq!(closest_monster(&fov, &objects, 10), Some(4));
    let objects = vec![hero(10, 10), orc(13, 10), orc(10, 13), orc(7, 10)];
    assert_eq!(closest_monster(&fov, &objects, 10), Some(1));
}

#[test]
fn closest_monster_needs_sight_reach_and_a_monster() {
    let mut fov = all_seen();
    let mut corpse = orc(11, 10);
    corpse.ai = None;
    let mut statue = orc(10, 11);
    statue.fighter = None;
    let objects = vec![hero(10, 10), corpse, statue, orc(18, 16), orc(20, 11), orc(21, 10)];
    assert_eq!(closest_monster(&fov, &objects, 10), Some(3));
    assert_eq!(closest_monster(&fov, &objects, 9), None);
    assert_eq!(closest_monster(&fov, &objects, -1), None);
    assert_eq!(closest_monster(&fov, &objects, i32::MIN), None);
    assert_eq!(closest_monster(&fov, &objects, i32::MAX), Some(3));
    fov.set_in_fov(18, 16, false);
    assert_eq!(closest_monster(&fov, &objects, 10), None);
    assert_eq!(closest_monster(&fov, &objects, 11), Some(4));
    fov.set_in_fov(20, 11, false);
    assert_eq!(closest_monster(&fov, &objects, 10), None);
    assert_eq!(closest_monster(&fov, &objects, 11), Some(5));
    let here = vec![hero(10, 10), orc(10, 10)];
    assert_eq!(closest_monster(&fov, &here, 0), Some(1));
    assert_eq!(closest_monster(&fov, &[hero(1, 1)], 10), None);
    let out = vec![hero(10, 10), orc(-1, 10)];
    assert_eq!(closest_monster(&fov, &out, 20), None);
}

#[test]
fn mut_two_hands_out_both() {
    let mut items = vec![10, 20, 30, 40];
    {
        let (a, b) = mut_two(3, 1, &mut items);
        assert_eq!((*a, *b), (40, 20));
        *a += 1;
        *b += 2;
    }
    {
        let (a, b) = mut_two(0, 3, &mut items);
        *a += *b;
    }
    assert_eq!(items, vec![51, 22, 30, 41]);
}
