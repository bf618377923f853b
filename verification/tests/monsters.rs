use rust_and_steel::ai::{ai_basic, ai_confused, ai_confused_step, ai_take_turn, Ai};
use rust_and_steel::colors::{red, white, Color};
use rust_and_steel::fighter::{DeathCallback, Fighter};
use rust_and_steel::fov::FovMap;
use rust_and_steel::game::{monsters_turn, world_turn, Game, Messages, PlayerAction, MAP_HEIGHT, MAP_WIDTH};
use rust_and_steel::object::Object;
use rust_and_steel::room::{create_room, solid_rock, Rect};

fn arena() -> Game {
    let mut map = solid_rock();
    create_room(Rect::new(0, 0, 30, 30), &mut map);
    Game { map, messages: Messages::new(), inventory: vec![], dungeon_level: 1 }
}

fn stats(hp: i32, defense: i32, power: i32, xp: i32, on_death: DeathCallback) -> Fighter {
    Fighter { base_max_hp: hp, hp, base_defense: defense, base_power: power, xp, on_death }
}

fn hero(x: i32, y: i32) -> Object {
    let mut o = Object::new(x, y, '@', "player", white(), true);
    o.alive = true;
    o.fighter = Some(stats(30, 2, 5, 9, DeathCallback::Player));
    o
}

fn orc(x: i32, y: i32) -> Object {
    let mut o = Object::new(x, y, 'o', "orc", white(), true);
    o.alive = true;
    o.fighter = Some(stats(10, 1, 4, 35, DeathCallback::Monster));
    o.ai = Some(Ai::Basic);
    o
}

fn confused(x: i32, y: i32, turns: i32) -> Object {
    let mut o = orc(x, y);
    o.ai = Some(Ai::Confused { previous_ai: Box::new(Ai::Basic), num_turns: turns });
    o
}

fn log(game: &Game) -> Vec<(String, Color)> {
    game.messages.messages.clone()
}

fn all_seen() -> FovMap {
    let mut fov = FovMap::new(MAP_WIDTH, MAP_HEIGHT);
    for x in 0..MAP_WIDTH {
        for y in 0..MAP_HEIGHT {
            fov.set_in_fov(x, y, true);
        }
    }
    fov
}

fn distance(a: &Object, b: &Object) -> f64 {
    (a.distance_sq_to(b) as f64).sqrt()
}

#[test]
fn basic_monster_in_sight_steps_closer_without_attacking() {
    let mut game = arena();
    let mut objects = vec![hero(10, 10), orc(13, 11)];
    let before = distance(&objects[0], &objects[1]);
    assert!((before - 3.2).abs() < 0.05);
    let next = ai_basic(1, &all_seen(), &mut game, &mut objects);
    assert!(matches!(next, Ai::Basic));
    assert_eq!(objects[1].pos(), (12, 11));
    assert!(distance(&objects[0], &objects[1]) < before);
    assert_eq!(objects[0].fighter.unwrap().hp, 30);
    assert_eq!(objects[0].pos(), (10, 10));
    assert!(log(&game).is_empty());
}

#[test]
fn basic_monster_next_to_the_player_attacks() {
    let mut game = arena();
    let mut objects = vec![hero(10, 10), orc(11, 10)];
    ai_basic(1, &all_seen(), &mut game, &mut objects);
    assert_eq!(objects[1].pos(), (11, 10));
    assert_eq!(objects[0].fighter.unwrap().hp, 28);
    assert_eq!(log(&game), vec![("player gets 2 damage from orc".to_string(), red())]);
    let mut objects = vec![hero(10, 10), orc(9, 11)];
    ai_basic(1, &all_seen(), &mut game, &mut objects);
    assert_eq!(objects[1].pos(), (9, 11));
    assert_eq!(objects[0].fighter.unwrap().hp, 28);
}

#[test]
fn basic_monster_that_cannot_hurt_still_attacks() {
    let mut game = arena();
    let mut objects = vec![hero(10, 10), orc(11, 10)];
    objects[0].fighter = Some(stats(30, 4, 5, 0, DeathCallback::Player));
    ai_basic(1, &all_seen(), &mut game, &mut objects);
    assert_eq!(objects[0].fighter.unwrap().hp, 30);
    assert_eq!(log(&game), vec![("orc failed to scratch player".to_string(), red())]);
}

#[test]
fn basic_monster_two_tiles_away_moves() {
    let mut game = arena();
    let mut objects = vec![hero(10, 10), orc(12, 10)];
    ai_basic(1, &all_seen(), &mut game, &mut objects);
    assert_eq!(objects[1].pos(), (11, 10));
    assert_eq!(objects[0].fighter.unwrap().hp, 30);
}

#[test]
fn basic_monster_out_of_sight_idles() {
    let mut game = arena();
    let fov = FovMap::new(MAP_WIDTH, MAP_HEIGHT);
    let mut objects = vec![hero(10, 10), orc(11, 10), orc(14, 10)];
    ai_basic(1, &fov, &mut game, &mut objects);
    ai_basic(2, &fov, &mut game, &mut objects);
    assert_eq!((objects[1].pos(), objects[2].pos()), ((11, 10), (14, 10)));
    assert_eq!(objects[0].fighter.unwrap().hp, 30);
    assert!(log(&game).is_empty());
}

#[test]
fn basic_monster_leaves_the_fallen_alone() {
    let mut game = arena();
    let mut objects = vec![hero(10, 10), orc(11, 10)];
    objects[0].fighter = Some(Fighter { hp: 0, ..stats(30, 2, 5, 0, DeathCallback::Player) });
    ai_basic(1, &all_seen(), &mut game, &mut objects);
    assert_eq!(objects[0].fighter.unwrap().hp, 0);
    assert_eq!(objects[1].pos(), (11, 10));
    assert!(log(&game).is_empty());
}

#[test]
fn monster_that_kills_the_player_earns_its_experience() {
    let mut game = arena();
    let mut objects = vec![hero(10, 10), orc(11, 10)];
    objects[0].fighter = Some(Fighter { hp: 2, ..stats(30, 2, 5, 9, DeathCallback::Player) });
    ai_take_turn(1, &all_seen(), &mut game, &mut objects);
    assert!(!objects[0].alive);
    assert_eq!(objects[0].fighter.unwrap().hp, 0);
    assert_eq!(objects[0].char, '%');
    assert_eq!(objects[1].fighter.unwrap().xp, 44);
    assert!(matches!(objects[1].ai, Some(Ai::Basic)));
    assert_eq!(
        log(&game),
        vec![
            ("player gets 2 damage from orc".to_string(), red()),
            ("Your history ends here".to_string(), red()),
        ]
    );
}

#[test]
fn turn_of_what_does_not_act_is_nothing() {
    let mut game = arena();
    let mut objects = vec![hero(10, 10), orc(11, 10)];
    objects[1].ai = None;
    ai_take_turn(1, &all_seen(), &mut game, &mut objects);
    ai_take_turn(0, &all_seen(), &mut game, &mut objects);
    assert!(objects[1].ai.is_none() && objects[0].ai.is_none());
    assert_eq!(objects[0].fighter.unwrap().hp, 30);
    assert!(log(&game).is_empty());
}

#[test]
fn confused_monster_stumbles_and_counts_down() {
    let mut game = arena();
    let mut objects = vec![hero(10, 10), orc(11, 10)];
    let next = ai_confused_step(1, -1, 1, &mut game, &mut objects, Box::new(Ai::Basic), 3);
    assert_eq!(objects[1].pos(), (10, 11));
    assert!(matches!(next, Ai::Confused { num_turns: 2, .. }));
    let next = ai_confused_step(1, 0, -1, &mut game, &mut objects, Box::new(Ai::Basic), 0);
    assert_eq!(objects[1].pos(), (10, 11));
    match next {
        Ai::Confused { previous_ai, num_turns } => {
            assert_eq!(num_turns, -1);
            assert!(matches!(*previous_ai, Ai::Basic));
        }
        Ai::Basic => panic!("still confused"),
    }
    assert_eq!(objects[0].fighter.unwrap().hp, 30);
    assert!(log(&game).is_empty());
}

#[test]
fn confused_monster_recovers_when_the_turns_are_spent() {
    let mut game = arena();
    let mut objects = vec![hero(10, 10), orc(12, 10)];
    let next = ai_confused_step(1, 1, 1, &mut game, &mut objects, Box::new(Ai::Basic), -1);
    assert!(matches!(next, Ai::Basic));
    assert_eq!(objects[1].pos(), (12, 10));
    assert_eq!(log(&game), vec![("The orc is no longer confused!".to_string(), red())]);
    let nested = Ai::Confused { previous_ai: Box::new(Ai::Basic), num_turns: 7 };
    let next = ai_confused_step(1, 1, 1, &mut game, &mut objects, Box::new(nested), i32::MIN);
    assert!(matches!(next, Ai::Confused { num_turns: 7, .. }));
}

#[test]
fn confusion_runs_its_course() {
    let mut game = arena();
    let fov = all_seen();
    let mut objects = vec![hero(2, 2), confused(15, 15, 5)];
    for spent in 0..6 {
        let before = objects[1].pos();
        ai_take_turn(1, &fov, &mut game, &mut objects);
        let after = objects[1].pos();
        assert!((after.0 - before.0).abs() <= 1 && (after.1 - before.1).abs() <= 1);
        match &objects[1].ai {
            Some(Ai::Confused { num_turns, .. }) => assert_eq!(*num_turns, 4 - spent),
            _ => panic!("recovered too early"),
        }
        assert!(log(&game).is_empty());
    }
    let before = objects[1].pos();
    ai_take_turn(1, &fov, &mut game, &mut objects);
    assert_eq!(objects[1].pos(), before);
    assert!(matches!(objects[1].ai, Some(Ai::Basic)));
    assert_eq!(log(&game), vec![("The orc is no longer confused!".to_string(), red())]);
    ai_take_turn(1, &fov, &mut game, &mut objects);
    assert!(objects[1].distance_sq_to(&objects[0]) < before.0 as i128 * before.0 as i128 * 4);
}

#[test]
fn confused_monster_draws_every_stumble() {
    let mut seen = std::collections::HashSet::new();
    for _ in 0..400 {
        let mut game = arena();
        let mut objects = vec![hero(2, 2), orc(15, 15)];
        let next = ai_confused(1, &mut game, &mut objects, Box::new(Ai::Basic), 9);
        assert!(matches!(next, Ai::Confused { num_turns: 8, .. }));
        let (x, y) = objects[1].pos();
        assert!((14..=16).contains(&x) && (14..=16).contains(&y));
        seen.insert((x, y));
    }
    assert_eq!(seen.len(), 9);
}

#[test]
fn every_monster_has_its_turn_in_order() {
    let mut game = arena();
    let fov = all_seen();
    let mut potion = Object::new(5, 5, '!', "potion", white(), false);
    potion.alive = true;
    let mut objects = vec![hero(10, 10), orc(11, 10), potion, orc(10, 13), orc(11, 11), confused(20, 20, -1)];
    objects[4].name = "goblin".to_string();
    monsters_turn(&fov, &mut game, &mut objects);
    assert_eq!(objects[0].fighter.unwrap().hp, 26);
    assert_eq!(objects[1].pos(), (11, 10));
    assert_eq!(objects[2].pos(), (5, 5));
    assert_eq!(objects[3].pos(), (10, 12));
    assert_eq!(objects[4].pos(), (11, 11));
    assert!(matches!(objects[5].ai, Some(Ai::Basic)));
    assert_eq!(
        log(&game),
        vec![
            ("player gets 2 damage from orc".to_string(), red()),
            ("player gets 2 damage from goblin".to_string(), red()),
            ("The orc is no longer confused!".to_string(), red()),
        ]
    );
}

#[test]
fn monsters_stop_once_the_player_has_fallen() {
    let mut game = arena();
    let fov = all_seen();
    let mut objects = vec![hero(10, 10), orc(11, 10), orc(9, 10), orc(10, 11)];
    objects[0].fighter = Some(Fighter { hp: 3, ..stats(30, 2, 5, 9, DeathCallback::Player) });
    monsters_turn(&fov, &mut game, &mut objects);
    assert_eq!(objects[0].fighter.unwrap().hp, -1);
    assert!(!objects[0].alive);
    assert_eq!(objects[1].fighter.unwrap().xp, 35);
    assert_eq!(objects[2].fighter.unwrap().xp, 44);
    assert_eq!(objects[3].fighter.unwrap().xp, 35);
    assert_eq!(log(&game).len(), 3);
}

#[test]
fn the_world_moves_only_after_a_turn_of_a_living_player() {
    let fov = all_seen();
    let mut game = arena();
    let mut objects = vec![hero(10, 10), orc(13, 10)];
    world_turn(PlayerAction::DidntTakeTurn, &fov, &mut game, &mut objects);
    world_turn(PlayerAction::Exit, &fov, &mut game, &mut objects);
    assert_eq!(objects[1].pos(), (13, 10));
    world_turn(PlayerAction::TookTurn, &fov, &mut game, &mut objects);
    assert_eq!(objects[1].pos(), (12, 10));
    objects[0].alive = false;
    world_turn(PlayerAction::TookTurn, &fov, &mut game, &mut objects);
    assert_eq!(objects[1].pos(), (12, 10));
}
