//! Behaviour of the entities that act on their own.
use vstd::prelude::*;
use crate::colors::{red, Color};
use crate::fov::FovMap;
use crate::game::{
    grid_wf, in_bounds, mut_two, only_logged, Game, Grid, MAP_HEIGHT, MAP_WIDTH, PLAYER,
};
use crate::object::{
    attack_outcome, dist_sq, fits_i32, lemma_step_closes_in, move_by, move_towards, spec_move_by,
    spec_move_towards, toward, views, Object, ObjectView,
};
use crate::rng::random_range;

verus! {

/// What an acting entity does on its turn. `Confused` wraps the behaviour that
/// resumes once the confusion has worn off.
#[derive(Debug)]
pub enum Ai {
    Basic,
    Confused { previous_ai: Box<Ai>, num_turns: i32 },
}

/// What a turn does to the world: the entities afterwards, the lines it adds
/// to the log, and the behaviour of the entity that acted from then on.
pub struct TurnOutcome {
    pub objects: Seq<ObjectView>,
    pub lines: Seq<(Seq<char>, Color)>,
    pub next: Ai,
}

/// Whether the player is alive enough to be attacked: able to fight, with hit
/// points left.
pub open spec fn player_stands(objects: Seq<ObjectView>) -> bool {
    objects[0].fighter is Some && objects[0].fighter->0.hp > 0
}

/// The turn of the `id`-th entity when it behaves as `Basic`. Out of the
/// player's sight it idles. In sight and two tiles or more away it steps
/// towards the player; nearer than that it attacks the player, if the player
/// still stands.
pub open spec fn basic_outcome(
    id: int,
    fov: FovMap,
    map: Grid,
    inventory: Seq<ObjectView>,
    objects: Seq<ObjectView>,
) -> TurnOutcome {
    let monster = objects[id];
    let player = objects[0];
    if !fov.spec_is_in_fov(monster.x as int, monster.y as int) {
        TurnOutcome { objects, lines: Seq::empty(), next: Ai::Basic }
    } else if dist_sq(monster.x as int, monster.y as int, player.x as int, player.y as int) >= 4 {
        TurnOutcome {
            objects: spec_move_towards(id, player.x as int, player.y as int, map, objects),
            lines: Seq::empty(),
            next: Ai::Basic,
        }
    } else if player_stands(objects) {
        let outcome = attack_outcome(monster, player, inventory);
        TurnOutcome {
            objects: objects.update(id, outcome.0).update(0, outcome.1),
            lines: outcome.2,
            next: Ai::Basic,
        }
    } else {
        TurnOutcome { objects, lines: Seq::empty(), next: Ai::Basic }
    }
}

/// Whether the `Basic` turn of the `id`-th entity stays within the level and
/// within the numbers of `i32`: where it steps, the tile stepped onto is one of
/// the level; where it attacks, it is not the player itself and the attack is
/// one that `can_attack` admits.
pub open spec fn basic_safe(
    id: int,
    fov: FovMap,
    inventory: Seq<ObjectView>,
    objects: Seq<ObjectView>,
) -> bool {
    let monster = objects[id];
    let player = objects[0];
    fov.spec_is_in_fov(monster.x as int, monster.y as int) ==> if dist_sq(
        monster.x as int,
        monster.y as int,
        player.x as int,
        player.y as int,
    ) >= 4 {
        &&& fits_i32(player.x - monster.x)
        &&& fits_i32(player.y - monster.y)
        &&& in_bounds(
            monster.x + toward(player.x - monster.x, player.y - monster.y),
            monster.y + toward(player.y - monster.y, player.x - monster.x),
        )
    } else if player_stands(objects) {
        id != 0 && monster.can_attack(player, inventory)
    } else {
        true
    }
}

/// The `Basic` turn of the `monster_id`-th entity; see `basic_outcome`.
pub fn ai_basic(monster_id: usize, fov: &FovMap, game: &mut Game, objects: &mut [Object]) -> (next:
    Ai)
    requires
        monster_id < old(objects)@.len(),
        grid_wf(old(game).map),
        basic_safe(monster_id as int, *fov, views(old(game).inventory@), views(old(objects)@)),
    ensures
        final(objects)@.len() == old(objects)@.len(),
        next == basic_outcome(
            monster_id as int,
            *fov,
            old(game).map,
            views(old(game).inventory@),
            views(old(objects)@),
        ).next,
        views(final(objects)@) == basic_outcome(
            monster_id as int,
            *fov,
            old(game).map,
            views(old(game).inventory@),
            views(old(objects)@),
        ).objects,
        only_logged(
            *old(game),
            *final(game),
            basic_outcome(
                monster_id as int,
                *fov,
                old(game).map,
                views(old(game).inventory@),
                views(old(objects)@),
            ).lines,
        ),
{
    let (monster_x, monster_y) = objects[monster_id].pos();
    assert(game.messages@ + Seq::<(Seq<char>, Color)>::empty() =~= game.messages@);
    if fov.is_in_fov(monster_x, monster_y) {
        let distance = objects[monster_id].distance_sq_to(&objects[PLAYER]);
        if distance >= 4 {
            let (player_x, player_y) = objects[PLAYER].pos();
            move_towards(monster_id, player_x, player_y, &game.map, objects);
        } else {
            let stands = match objects[PLAYER].fighter {
                Some(fighter) => fighter.hp > 0,
                None => false,
            };
            if stands {
                let (monster, player) = mut_two(monster_id, PLAYER, objects);
                monster.attack(player, game);
                proof {
                    let outcome = attack_outcome(
                        views(old(objects)@)[monster_id as int],
                        views(old(objects)@)[0],
                        views(old(game).inventory@),
                    );
                    assert(views(final(objects)@) =~= views(old(objects)@).update(
                        monster_id as int,
                        outcome.0,
                    ).update(0, outcome.1));
                }
            }
        }
    }
    Ai::Basic
}

/// A `Basic` monster that the player sees from two tiles or more away does
/// the player no harm and says nothing; it ends its turn no farther from the
/// player than it was, and strictly nearer if nothing blocks its step.
pub proof fn lemma_basic_monster_closes_in(
    id: int,
    fov: FovMap,
    map: Grid,
    inventory: Seq<ObjectView>,
    objects: Seq<ObjectView>,
)
    requires
        0 < id < objects.len(),
        fov.spec_is_in_fov(objects[id].x as int, objects[id].y as int),
        dist_sq(
            objects[id].x as int,
            objects[id].y as int,
            objects[0].x as int,
            objects[0].y as int,
        ) >= 4,
        basic_safe(id, fov, inventory, objects),
    ensures
        ({
            let outcome = basic_outcome(id, fov, map, inventory, objects);
            let before = dist_sq(
                objects[id].x as int,
                objects[id].y as int,
                objects[0].x as int,
                objects[0].y as int,
            );
            let after = dist_sq(
                outcome.objects[id].x as int,
                outcome.objects[id].y as int,
                outcome.objects[0].x as int,
                outcome.objects[0].y as int,
            );
            &&& outcome.objects[0] == objects[0]
            &&& outcome.lines == Seq::<(Seq<char>, Color)>::empty()
            &&& after <= before
            &&& outcome.objects[id] != objects[id] ==> after < before
        }),
{
    let dx = objects[0].x - objects[id].x;
    let dy = objects[0].y - objects[id].y;
    assert(dx != 0 || dy != 0) by (nonlinear_arith)
        requires
            dx * dx + dy * dy >= 4,
    ;
    lemma_step_closes_in(dx, dy);
}

/// The log line on a monster coming to its senses.
pub open spec fn recovery_line(name: Seq<char>) -> (Seq<char>, Color) {
    ("The "@ + name + " is no longer confused!"@, red())
}

/// The turn of the `id`-th entity when it is confused with `num_turns` turns
/// to go and stumbles by (`dx`, `dy`). With turns to go, zero included, it
/// steps that way unless the tile is blocked, and has one turn less to go.
/// With none left it stays, the log says that it has recovered, and it
/// behaves as `previous` again.
pub open spec fn confused_outcome(
    id: int,
    dx: int,
    dy: int,
    map: Grid,
    objects: Seq<ObjectView>,
    previous: Ai,
    num_turns: i32,
) -> TurnOutcome {
    if num_turns >= 0 {
        TurnOutcome {
            objects: spec_move_by(id, dx, dy, map, objects),
            lines: Seq::empty(),
            next: Ai::Confused { previous_ai: Box::new(previous), num_turns: (num_turns - 1) as i32 },
        }
    } else {
        TurnOutcome { objects, lines: seq![recovery_line(objects[id].name)], next: previous }
    }
}

/// The confused turn of the `monster_id`-th entity for a stumble by (`dx`,
/// `dy`); see `confused_outcome`.
pub fn ai_confused_step(
    monster_id: usize,
    dx: i32,
    dy: i32,
    game: &mut Game,
    objects: &mut [Object],
    previous_ai: Box<Ai>,
    num_turns: i32,
) -> (next: Ai)
    requires
        monster_id < old(objects)@.len(),
        grid_wf(old(game).map),
        num_turns >= 0 ==> in_bounds(
            old(objects)@[monster_id as int].x + dx,
            old(objects)@[monster_id as int].y + dy,
        ),
    ensures
        final(objects)@.len() == old(objects)@.len(),
        next == confused_outcome(
            monster_id as int,
            dx as int,
            dy as int,
            old(game).map,
            views(old(objects)@),
            *previous_ai,
            num_turns,
        ).next,
        views(final(objects)@) == confused_outcome(
            monster_id as int,
            dx as int,
            dy as int,
            old(game).map,
            views(old(objects)@),
            *previous_ai,
            num_turns,
        ).objects,
        only_logged(
            *old(game),
            *final(game),
            confused_outcome(
                monster_id as int,
                dx as int,
                dy as int,
                old(game).map,
                views(old(objects)@),
                *previous_ai,
                num_turns,
            ).lines,
        ),
{
    if num_turns >= 0 {
        move_by(monster_id, dx, dy, &game.map, objects);
        assert(game.messages@ + Seq::<(Seq<char>, Color)>::empty() =~= game.messages@);
        Ai::Confused { previous_ai: previous_ai, num_turns: num_turns - 1 }
    } else {
        let mut line = String::from_str("The ");
        line.append(objects[monster_id].name.as_str());
        line.append(" is no longer confused!");
        game.messages.add(line, red());
        assert(game.messages@ =~= old(game).messages@ + seq![
            recovery_line(views(old(objects)@)[monster_id as int].name),
        ]);
        *previous_ai
    }
}

/// Whether (`dx`, `dy`) is a stumble: a step of at most one tile each way.
pub open spec fn is_stumble(dx: int, dy: int) -> bool {
    -1 <= dx <= 1 && -1 <= dy <= 1
}

/// Whether `after` and `next` are what the confused turn of the `id`-th entity
/// gives for the stumble (`dx`, `dy`).
pub open spec fn confused_by(
    id: int,
    dx: int,
    dy: int,
    objects: Seq<ObjectView>,
    previous: Ai,
    num_turns: i32,
    before: Game,
    after: Game,
    after_objects: Seq<ObjectView>,
    next: Ai,
) -> bool {
    let outcome = confused_outcome(id, dx, dy, before.map, objects, previous, num_turns);
    &&& is_stumble(dx, dy)
    &&& next == outcome.next
    &&& after_objects == outcome.objects
    &&& only_logged(before, after, outcome.lines)
}

/// Whether every tile next to that of the `id`-th entity, diagonals included,
/// is a tile of the level.
pub open spec fn has_room_to_stumble(objects: Seq<ObjectView>, id: int) -> bool {
    1 <= objects[id].x < MAP_WIDTH - 1 && 1 <= objects[id].y < MAP_HEIGHT - 1
}

/// The confused turn of the `monster_id`-th entity: that of `ai_confused_step`
/// for a stumble drawn at random.
pub fn ai_confused(
    monster_id: usize,
    game: &mut Game,
    objects: &mut [Object],
    previous_ai: Box<Ai>,
    num_turns: i32,
) -> (next: Ai)
    requires
        monster_id < old(objects)@.len(),
        grid_wf(old(game).map),
        num_turns >= 0 ==> has_room_to_stumble(views(old(objects)@), monster_id as int),
    ensures
        final(objects)@.len() == old(objects)@.len(),
        exists|dx: int, dy: int| #[trigger]
            confused_by(
                monster_id as int,
                dx,
                dy,
                views(old(objects)@),
                *previous_ai,
                num_turns,
                *old(game),
                *final(game),
                views(final(objects)@),
                next,
            ),
{
    let mut dx: i32 = 0;
    let mut dy: i32 = 0;
    if num_turns >= 0 {
        dx = random_range(-1, 2);
        dy = random_range(-1, 2);
    }
    let ghost previous = *previous_ai;
    let next = ai_confused_step(monster_id, dx, dy, game, objects, previous_ai, num_turns);
    assert(confused_by(
        monster_id as int,
        dx as int,
        dy as int,
        views(old(objects)@),
        previous,
        num_turns,
        *old(game),
        *game,
        views(objects@),
        next,
    ));
    next
}

/// The entities with the behaviour of the `id`-th replaced.
pub open spec fn with_ai(objects: Seq<ObjectView>, id: int, ai: Option<Ai>) -> Seq<ObjectView> {
    objects.update(id, ObjectView { ai, ..objects[id] })
}

/// The turn of the `id`-th entity, for the stumble (`dx`, `dy`) should it be
/// confused: the entities afterwards and the lines added to the log. An entity
/// without behaviour does nothing. Any other acts as its behaviour says, and
/// from then on has the behaviour that this turn leaves it with.
pub open spec fn turn_outcome(
    id: int,
    dx: int,
    dy: int,
    fov: FovMap,
    map: Grid,
    inventory: Seq<ObjectView>,
    objects: Seq<ObjectView>,
) -> (Seq<ObjectView>, Seq<(Seq<char>, Color)>) {
    match objects[id].ai {
        None => (objects, Seq::empty()),
        Some(ai) => {
            let acting = with_ai(objects, id, None);
            let outcome = match ai {
                Ai::Basic => basic_outcome(id, fov, map, inventory, acting),
                Ai::Confused { previous_ai, num_turns } => confused_outcome(
                    id,
                    dx,
                    dy,
                    map,
                    acting,
                    *previous_ai,
                    num_turns,
                ),
            };
            (with_ai(outcome.objects, id, Some(outcome.next)), outcome.lines)
        },
    }
}

/// Whether the turn of the `id`-th entity stays within the level and within
/// the numbers of `i32`, whatever way it may stumble.
pub open spec fn turn_safe(
    id: int,
    fov: FovMap,
    inventory: Seq<ObjectView>,
    objects: Seq<ObjectView>,
) -> bool {
    match objects[id].ai {
        None => true,
        Some(Ai::Basic) => basic_safe(id, fov, inventory, with_ai(objects, id, None)),
        Some(Ai::Confused { previous_ai, num_turns }) => num_turns >= 0 ==> has_room_to_stumble(
            objects,
            id,
        ),
    }
}

/// Whether `after` and `after_objects` are what the turn of the `id`-th entity
/// gives for the stumble (`dx`, `dy`).
pub open spec fn took_turn(
    id: int,
    dx: int,
    dy: int,
    fov: FovMap,
    before: Game,
    objects: Seq<ObjectView>,
    after: Game,
    after_objects: Seq<ObjectView>,
) -> bool {
    let outcome = turn_outcome(id, dx, dy, fov, before.map, views(before.inventory@), objects);
    &&& is_stumble(dx, dy)
    &&& after_objects == outcome.0
    &&& only_logged(before, after, outcome.1)
}

/// The turn of the `monster_id`-th entity; see `turn_outcome`. A confused
/// entity stumbles in a direction drawn at random.
pub fn ai_take_turn(monster_id: usize, fov: &FovMap, game: &mut Game, objects: &mut [Object])
    requires
        monster_id < old(objects)@.len(),
        grid_wf(old(game).map),
        turn_safe(monster_id as int, *fov, views(old(game).inventory@), views(old(objects)@)),
    ensures
        final(objects)@.len() == old(objects)@.len(),
        exists|dx: int, dy: int| #[trigger]
            took_turn(
                monster_id as int,
                dx,
                dy,
                *fov,
                *old(game),
                views(old(objects)@),
                *final(game),
                views(final(objects)@),
            ),
{
    let ghost before = views(objects@);
    let taken = objects[monster_id].ai.take();
    match taken {
        Some(ai) => {
            let ghost acting = views(objects@);
            assert(acting =~= with_ai(before, monster_id as int, None));
            let ghost mut dx: int = 0;
            let ghost mut dy: int = 0;
            let new_ai = match ai {
                Ai::Basic => ai_basic(monster_id, fov, game, objects),
                Ai::Confused { previous_ai, num_turns } => {
                    let ghost previous = *previous_ai;
                    let next = ai_confused(monster_id, game, objects, previous_ai, num_turns);
                    proof {
                        let (sx, sy) = choose|sx: int, sy: int| #[trigger]
                            confused_by(
                                monster_id as int,
                                sx,
                                sy,
                                acting,
                                previous,
                                num_turns,
                                *old(game),
                                *game,
                                views(objects@),
                                next,
                            );
                        dx = sx;
                        dy = sy;
                    }
                    next
                },
            };
            let ghost acted = views(objects@);
            objects[monster_id].ai = Some(new_ai);
            proof {
                assert(views(objects@) =~= with_ai(acted, monster_id as int, Some(new_ai)));
                assert(took_turn(
                    monster_id as int,
                    dx,
                    dy,
                    *fov,
                    *old(game),
                    before,
                    *game,
                    views(objects@),
                ));
            }
        },
        None => {
            proof {
                assert(views(objects@) =~= before);
                assert(game.messages@ + Seq::<(Seq<char>, Color)>::empty() =~= game.messages@);
                assert(took_turn(
                    monster_id as int,
                    0,
                    0,
                    *fov,
                    *old(game),
                    before,
                    *game,
                    views(objects@),
                ));
            }
        },
    }
}

} // verus!
