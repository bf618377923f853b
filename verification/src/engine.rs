//! The rules of a turn in the world of facets.
use vstd::prelude::*;
use crate::colors::Color;
use crate::components::combat::{Combat, DeathCallback};
use crate::components::fov::Fov;
use crate::components::position::{on_map, Position};
use crate::components::Component;
use crate::fov::FovMap;
use crate::game::{grid_wf, in_bounds, tile_at, Grid, MAP_HEIGHT, MAP_WIDTH};
use crate::input::{Key, KeyCode};
use crate::object::fits_i32;
use crate::render::{menu_index, spec_menu_index};
use crate::scene::{find_component, find_component_mut, first_of, none_of, Scene};
use crate::text::text_is;

pub use crate::game::mut_two;

verus! {

/// Frames drawn per second at most.
pub const FPS_LIMIT: i32 = 60;

/// Width of the window, in tiles.
pub const SCREEN_WIDTH: i32 = 80;

/// Height of the window, in tiles.
pub const SCREEN_HEIGHT: i32 = 50;

/// Hands out the next free entity: the number kept in `next`, which moves on
/// by one and starts over at zero once the numbers are used up.
pub fn get_unique_id(next: &mut usize) -> (id: usize)
    ensures
        id == *old(next),
        *final(next) == if *old(next) == usize::MAX {
            0
        } else {
            *old(next) + 1
        },
{
    let id = *next;
    if id == usize::MAX {
        *next = 0;
    } else {
        *next = id + 1;
    }
    id
}

/// What the player has done with a key.
#[derive(Clone, Copy, Debug, PartialEq, Eq, Structural)]
pub enum PlayerAction {
    Turn,
    Exit,
}

/// The colour of a tile by whether it is seen and whether it blocks sight:
/// walls look the same seen or not, floor is lighter when seen.
pub open spec fn spec_map_color(visible: bool, wall: bool) -> Color {
    if wall {
        Color { r: 0x2e, g: 0x34, b: 0x40 }
    } else if visible {
        Color { r: 0x4c, g: 0x56, b: 0x6a }
    } else {
        Color { r: 0x3b, g: 0x42, b: 0x52 }
    }
}

/// The colour of a tile by whether it is seen and whether it blocks sight.
pub fn map_color(visible: bool, wall: bool) -> (color: Color)
    ensures
        color == spec_map_color(visible, wall),
{
    match (visible, wall) {
        (true, true) => Color { r: 0x2e, g: 0x34, b: 0x40 },
        (true, false) => Color { r: 0x4c, g: 0x56, b: 0x6a },
        (false, true) => Color { r: 0x2e, g: 0x34, b: 0x40 },
        (false, false) => Color { r: 0x3b, g: 0x42, b: 0x52 },
    }
}

/// The colours of the tiles of the level `map` as the field of view `fov`
/// shows them, addressed as `colors[x][y]`.
pub fn render_map(fov: &FovMap, map: &Grid) -> (colors: Vec<Vec<Color>>)
    requires
        grid_wf(*map),
    ensures
        colors@.len() == MAP_WIDTH,
        forall|x: int| 0 <= x < MAP_WIDTH ==> (#[trigger] colors@[x])@.len() == MAP_HEIGHT,
        forall|x: int, y: int|
            in_bounds(x, y) ==> #[trigger] colors@[x]@[y] == spec_map_color(
                fov.spec_is_in_fov(x, y),
                tile_at(*map, x, y).block_sight,
            ),
{
    let mut colors: Vec<Vec<Color>> = Vec::new();
    let mut x: i32 = 0;
    while x < MAP_WIDTH
        invariant
            0 <= x <= MAP_WIDTH,
            grid_wf(*map),
            colors@.len() == x,
            forall|i: int| 0 <= i < x ==> (#[trigger] colors@[i])@.len() == MAP_HEIGHT,
            forall|i: int, j: int|
                0 <= i < x && 0 <= j < MAP_HEIGHT ==> #[trigger] colors@[i]@[j] == spec_map_color(
                    fov.spec_is_in_fov(i, j),
                    tile_at(*map, i, j).block_sight,
                ),
        decreases MAP_WIDTH - x,
    {
        let mut column: Vec<Color> = Vec::new();
        let mut y: i32 = 0;
        while y < MAP_HEIGHT
            invariant
                0 <= x < MAP_WIDTH,
                0 <= y <= MAP_HEIGHT,
                grid_wf(*map),
                column@.len() == y,
                forall|j: int|
                    0 <= j < y ==> #[trigger] column@[j] == spec_map_color(
                        fov.spec_is_in_fov(x as int, j),
                        tile_at(*map, x as int, j).block_sight,
                    ),
            decreases MAP_HEIGHT - y,
        {
            let wall = map[x as usize][y as usize].block_sight;
            let visible = fov.is_in_fov(x, y);
            column.push(map_color(visible, wall));
            y += 1;
        }
        colors.push(column);
        x += 1;
    }
    colors
}

/// The option that the character `printable` chooses in a menu of `options`
/// options lettered from `a`, which are 26 at most.
pub fn menu(printable: char, options: usize) -> (choice: Option<usize>)
    requires
        options <= 26,
    ensures
        match choice {
            Some(index) => spec_menu_index(printable, options as int) == Some(
                index as int,
            ),
            None => spec_menu_index(printable, options as int) is None,
        },
{
    menu_index(printable, options)
}

/// Whether the `t`-th position is the first on tile (`x`, `y`).
pub open spec fn first_standing_at(positions: Seq<Position>, x: int, y: int, t: int) -> bool {
    &&& 0 <= t < positions.len()
    &&& positions[t].x == x
    &&& positions[t].y == y
    &&& forall|j: int| 0 <= j < t ==> !((#[trigger] positions[j]).x == x && positions[j].y == y)
}

/// Whether no position is on tile (`x`, `y`).
pub open spec fn none_standing_at(positions: Seq<Position>, x: int, y: int) -> bool {
    forall|j: int|
        0 <= j < positions.len() ==> !((#[trigger] positions[j]).x == x && positions[j].y == y)
}

/// The first position on tile (`x`, `y`).
fn standing_at(x: i32, y: i32, positions: &[Position]) -> (found: Option<usize>)
    ensures
        match found {
            Some(t) => first_standing_at(positions@, x as int, y as int, t as int),
            None => none_standing_at(positions@, x as int, y as int),
        },
{
    let mut t: usize = 0;
    while t < positions.len()
        invariant
            t <= positions@.len(),
            forall|j: int|
                0 <= j < t ==> !((#[trigger] positions@[j]).x == x && positions@[j].y == y),
        decreases positions@.len() - t,
    {
        if positions[t].x == x && positions[t].y == y {
            return Some(t);
        }
        t += 1;
    }
    None
}

/// Whether a step or attack of `entity` onto tile (`x`, `y`) is an attack,
/// on the combat component at the place `target`: a position is on the tile
/// and the entity of the first such has a combat component.
pub open spec fn attacks(scene: Scene, x: int, y: int, target: int) -> bool {
    exists|t: int| #[trigger]
        first_standing_at(scene.position_components@, x, y, t)
            && scene.position_components@[t].entity == target && !none_of(
            scene.combat_components@,
            scene.position_components@[t].entity,
        )
}

/// Whether a step or attack of `entity` by (`dx`, `dy`) stays within the
/// world and within the numbers of `i32`. The entity has a position, and the
/// tile stepped onto has coordinates in `i32`. An attack is between two
/// different entities whose numbers are both places among the combat
/// components, and is one whose blow and whose outcome are numbers of
/// `i32`; a step is onto a tile of the level.
pub open spec fn scene_move_safe(scene: Scene, entity: usize, dx: int, dy: int) -> bool {
    &&& !none_of(scene.position_components@, entity)
    &&& forall|p: int| #[trigger]
        first_of(scene.position_components@, entity, p) ==> {
            let x = scene.position_components@[p].x + dx;
            let y = scene.position_components@[p].y + dy;
            &&& fits_i32(x)
            &&& fits_i32(y)
            &&& forall|target: int| #[trigger]
                attacks(scene, x, y, target) ==> {
                    let fighters = scene.combat_components@;
                    &&& target != entity
                    &&& entity < fighters.len()
                    &&& 0 <= target < fighters.len()
                    &&& fits_i32(fighters[entity as int].blow(fighters[target]))
                    &&& fighters[entity as int].blow(fighters[target]) > 0 ==> fits_i32(
                        fighters[target].hp - fighters[entity as int].blow(fighters[target]),
                    )
                }
            &&& (forall|target: int| !attacks(scene, x, y, target)) ==> on_map(scene.map, x, y)
        }
}

/// What is to be announced when the combat component `victim` takes `blow`:
/// its death and the entity that has died, if it dies of the blow.
pub open spec fn fallen(victim: Combat, blow: int) -> Option<(DeathCallback, usize)> {
    if blow > 0 {
        match victim.dies_of(blow) {
            Some(announcement) => Some((announcement, victim.entity)),
            None => None,
        }
    } else {
        None
    }
}

/// Whether the world went from `before` to `after`, announcing `died`, by a
/// step or attack of `entity` by (`dx`, `dy`). Where a position is on the
/// tile stepped onto and the entity of the first such has a combat component,
/// the combat component at the place of `entity` attacks the one at the place
/// of that entity. Otherwise the first position of `entity` steps onto the
/// tile unless that is rock.
pub open spec fn scene_move_done(
    before: Scene,
    entity: usize,
    dx: int,
    dy: int,
    after: Scene,
    died: Option<(DeathCallback, usize)>,
) -> bool {
    &&& after.map == before.map
    &&& after.player_id == before.player_id
    &&& after.render_components == before.render_components
    &&& after.fov_components == before.fov_components
    &&& forall|p: int| #[trigger]
        first_of(before.position_components@, entity, p) ==> {
            let here = before.position_components@[p];
            let x = here.x + dx;
            let y = here.y + dy;
            let fighters = before.combat_components@;
            &&& forall|target: int| #[trigger]
                attacks(before, x, y, target) ==> {
                    let blow = fighters[entity as int].blow(fighters[target]);
                    &&& after.position_components@ == before.position_components@
                    &&& after.combat_components@ == if blow > 0 {
                        fighters.update(target, fighters[target].hurt(blow))
                    } else {
                        fighters
                    }
                    &&& died == fallen(fighters[target], blow)
                }
            &&& (forall|target: int| !attacks(before, x, y, target)) ==> {
                &&& after.combat_components@ == fighters
                &&& died is None
                &&& after.position_components@ == if before.map@[x]@[y].blocked {
                    before.position_components@
                } else {
                    before.position_components@.update(
                        p,
                        Position { x: x as i32, y: y as i32, ..here },
                    )
                }
            }
        }
}

/// Two first facets of one entity are the same facet.
proof fn lemma_first_of_unique<T: Component>(collection: Seq<T>, id: usize, a: int, b: int)
    requires
        first_of(collection, id, a),
        first_of(collection, id, b),
    ensures
        a == b,
{
    if a < b {
        assert(collection[a].entity() != id);
    } else if b < a {
        assert(collection[b].entity() != id);
    }
}

/// `entity` steps by (`dx`, `dy`) or attacks what stands there; see
/// `scene_move_done`. Returns what is to be announced, and of which entity,
/// if the attack kills.
pub fn move_attack(entity: usize, scene: &mut Scene, dx: i32, dy: i32) -> (died: Option<
    (DeathCallback, usize),
>)
    requires
        scene_move_safe(*old(scene), entity, dx as int, dy as int),
    ensures
        scene_move_done(*old(scene), entity, dx as int, dy as int, *final(scene), died),
{
    let ghost before = *scene;
    let ghost positions = scene.position_components@;
    let found = find_component(entity, scene.position_components.as_slice());
    let here = match found {
        Some(position) => position.pos(),
        None => {
            return None;
        },
    };
    let ghost p = choose|p: int| #[trigger]
        first_of(positions, entity, p) && positions[p].x == here.0 && positions[p].y == here.1;
    proof {
        let q = choose|q: int| #[trigger]
            first_of(positions, entity, q) && *found->0 == positions[q];
        assert(first_of(positions, entity, q) && positions[q].x == here.0 && positions[q].y
            == here.1);
        assert forall|other: int| #[trigger] first_of(positions, entity, other) implies other
            == p by {
            lemma_first_of_unique(positions, entity, other, p);
        }
    }
    let x = here.0 + dx;
    let y = here.1 + dy;
    let standing = standing_at(x, y, scene.position_components.as_slice());
    let target_id = match standing {
        Some(t) => {
            let id = scene.position_components[t].get_entity();
            let has_combat = find_component(id, scene.combat_components.as_slice()).is_some();
            proof {
                assert forall|other: int| #[trigger]
                    first_standing_at(positions, x as int, y as int, other) implies other == t by {
                    if other < t {
                        assert(positions[other].x == x);
                    } else if t < other {
                        assert(positions[t as int].x == x);
                    }
                }
                if has_combat {
                    assert(attacks(before, x as int, y as int, id as int));
                }
            }
            if has_combat {
                Some(id)
            } else {
                None
            }
        },
        None => {
            proof {
                assert forall|other: int| #[trigger]
                    first_standing_at(positions, x as int, y as int, other) implies false by {
                    assert(positions[other].x == x);
                }
            }
            None
        },
    };
    match target_id {
        Some(target) => {
            proof {
                assert forall|other: int| #[trigger]
                    attacks(before, x as int, y as int, other) implies other == target by {}
            }
            let (attacker, defender) = mut_two(
                entity,
                target,
                scene.combat_components.as_mut_slice(),
            );
            let victim = defender.entity;
            let died = match attacker.attack(defender) {
                Some(announcement) => Some((announcement, victim)),
                None => None,
            };
            proof {
                let fighters = before.combat_components@;
                let blow = fighters[entity as int].blow(fighters[target as int]);
                if blow > 0 {
                    assert(scene.combat_components@ =~= fighters.update(
                        target as int,
                        fighters[target as int].hurt(blow),
                    ));
                } else {
                    assert(scene.combat_components@ =~= fighters);
                }
            }
            died
        },
        None => {
            proof {
                assert forall|other: int| !attacks(before, x as int, y as int, other) by {}
            }
            let found = find_component_mut(entity, scene.position_components.as_mut_slice());
            match found {
                Some(position) => {
                    position.try_move(&scene.map, dx, dy);
                },
                None => {},
            }
            proof {
                let q = choose|q: int| #[trigger]
                    first_of(positions, entity, q) && scene.position_components@
                        == positions.update(q, scene.position_components@[q]);
                lemma_first_of_unique(positions, entity, q, p);
                if before.map@[x as int]@[y as int].blocked {
                    assert(scene.position_components@ =~= positions);
                }
            }
            None
        },
    }
}

/// The step that `key` asks the player to take while alive: the letters h,
/// j, k and l, or 4, 2, 8 and 6 on the number pad, step left, down, up and right.
pub open spec fn key_step(key: Key) -> Option<(i32, i32)> {
    if (key.code == KeyCode::Text && key.text@ == "h"@) || key.code == KeyCode::NumPad4 {
        Some((-1i32, 0i32))
    } else if (key.code == KeyCode::Text && key.text@ == "j"@) || key.code == KeyCode::NumPad2 {
        Some((0i32, 1i32))
    } else if (key.code == KeyCode::Text && key.text@ == "k"@) || key.code == KeyCode::NumPad8 {
        Some((0i32, -1i32))
    } else if (key.code == KeyCode::Text && key.text@ == "l"@) || key.code == KeyCode::NumPad6 {
        Some((1i32, 0i32))
    } else {
        None
    }
}

/// The step that `key` asks the player to take while alive; see `key_step`.
fn step_of(key: &Key) -> (step: Option<(i32, i32)>)
    ensures
        step == key_step(*key),
{
    let typed = key.code == KeyCode::Text;
    if (typed && text_is(&key.text, "h")) || key.code == KeyCode::NumPad4 {
        Some((-1, 0))
    } else if (typed && text_is(&key.text, "j")) || key.code == KeyCode::NumPad2 {
        Some((0, 1))
    } else if (typed && text_is(&key.text, "k")) || key.code == KeyCode::NumPad8 {
        Some((0, -1))
    } else if (typed && text_is(&key.text, "l")) || key.code == KeyCode::NumPad6 {
        Some((1, 0))
    } else {
        None
    }
}

/// The step that `key` makes the player take in `scene`: none on Escape,
/// none for a player whose first combat component is not alive, else that
/// of `key_step`.
pub open spec fn scene_step(scene: Scene, key: Key) -> Option<(i32, i32)> {
    if key.code == KeyCode::Escape {
        None
    } else if exists|c: int| #[trigger]
        first_of(scene.combat_components@, scene.player_id, c) && scene.combat_components@[c].alive {
        key_step(key)
    } else {
        None
    }
}

/// Whether acting on `key` in `scene` stays within the world and within the
/// numbers of `i32`: the player has a combat component, and the step that
/// the key asks for is one that `scene_move_safe` admits.
pub open spec fn scene_keys_safe(scene: Scene, key: Key) -> bool {
    &&& !none_of(scene.combat_components@, scene.player_id)
    &&& match scene_step(scene, key) {
        Some(step) => scene_move_safe(scene, scene.player_id, step.0 as int, step.1 as int),
        None => true,
    }
}

/// Acts on a key press: Escape asks to leave, and a key that steps makes the
/// player step or attack. Returns what the player has done, if anything, and
/// what is to be announced, and of which entity, if an attack has killed.
pub fn handle_keys(key: &Key, scene: &mut Scene) -> (done: (
    Option<PlayerAction>,
    Option<(DeathCallback, usize)>,
))
    requires
        scene_keys_safe(*old(scene), *key),
    ensures
        done.0 == if key.code == KeyCode::Escape {
            Some(PlayerAction::Exit)
        } else if scene_step(*old(scene), *key) is Some {
            Some(PlayerAction::Turn)
        } else {
            None
        },
        match scene_step(*old(scene), *key) {
            Some(step) => scene_move_done(
                *old(scene),
                old(scene).player_id,
                step.0 as int,
                step.1 as int,
                *final(scene),
                done.1,
            ),
            None => *final(scene) == *old(scene) && done.1 is None,
        },
{
    let found = find_component(scene.player_id, scene.combat_components.as_slice());
    let player_alive = match found {
        Some(combat) => combat.alive,
        None => false,
    };
    proof {
        let fighters = scene.combat_components@;
        let c = choose|c: int| #[trigger]
            first_of(fighters, scene.player_id, c) && *found->0 == fighters[c];
        assert forall|other: int| #[trigger] first_of(fighters, scene.player_id, other) implies other
            == c by {
            lemma_first_of_unique(fighters, scene.player_id, other, c);
        }
        assert(player_alive == fighters[c].alive);
    }
    if key.code == KeyCode::Escape {
        return (Some(PlayerAction::Exit), None);
    }
    if !player_alive {
        return (None, None);
    }
    match step_of(key) {
        Some((dx, dy)) => {
            let died = move_attack(scene.player_id, scene, dx, dy);
            (Some(PlayerAction::Turn), died)
        },
        None => (None, None),
    }
}

/// Whether every field of view of `scene` can be looked over anew: it is a
/// rectangle of no more than `FOV_LIMIT` tiles each way, and the first
/// position of its entity, if it has one, is on one of its tiles.
pub open spec fn fovs_safe(scene: Scene) -> bool {
    forall|i: int|
        0 <= i < scene.fov_components@.len() ==> {
            let fov = #[trigger] scene.fov_components@[i];
            &&& fov.fov_map.is_small_rectangle()
            &&& forall|p: int| #[trigger]
                first_of(scene.position_components@, fov.entity, p) ==> fov.fov_map.has(
                    scene.position_components@[p].x as int,
                    scene.position_components@[p].y as int,
                )
        }
}

/// Whether `after` is the field of view `before` of `scene` looked over
/// anew from the first position of its entity, with its own radius, or is
/// `before` itself where its entity has no position.
pub open spec fn fov_renewed(scene: Scene, before: Fov, after: Fov) -> bool {
    &&& after.entity == before.entity
    &&& after.view_radius == before.view_radius
    &&& none_of(scene.position_components@, before.entity) ==> after.fov_map == before.fov_map
    &&& forall|p: int| #[trigger]
        first_of(scene.position_components@, before.entity, p) ==> before.fov_map.computed(
            scene.position_components@[p].x as int,
            scene.position_components@[p].y as int,
            before.view_radius as int,
            after.fov_map,
        )
}

/// Whether `after` is `before` with every field of view renewed; see `fov_renewed`.
pub open spec fn fovs_renewed(before: Scene, after: Scene) -> bool {
    &&& after.map == before.map
    &&& after.player_id == before.player_id
    &&& after.render_components == before.render_components
    &&& after.position_components == before.position_components
    &&& after.combat_components == before.combat_components
    &&& after.fov_components@.len() == before.fov_components@.len()
    &&& forall|i: int|
        0 <= i < before.fov_components@.len() ==> fov_renewed(
            before,
            before.fov_components@[i],
            #[trigger] after.fov_components@[i],
        )
}

/// Looks over every field of view of `scene` anew from where its entity
/// stands; see `fovs_renewed`.
pub fn recompute_fovs(scene: &mut Scene)
    requires
        fovs_safe(*old(scene)),
    ensures
        fovs_renewed(*old(scene), *final(scene)),
{
    let ghost before = *scene;
    let mut i: usize = 0;
    while i < scene.fov_components.len()
        invariant
            i <= scene.fov_components@.len(),
            before == *old(scene),
            fovs_safe(before),
            scene.map == before.map,
            scene.player_id == before.player_id,
            scene.render_components == before.render_components,
            scene.position_components == before.position_components,
            scene.combat_components == before.combat_components,
            scene.fov_components@.len() == before.fov_components@.len(),
            forall|k: int|
                0 <= k < i ==> fov_renewed(
                    before,
                    before.fov_components@[k],
                    #[trigger] scene.fov_components@[k],
                ),
            forall|k: int|
                i <= k < before.fov_components@.len() ==> #[trigger] scene.fov_components@[k]
                    == before.fov_components@[k],
        decreases scene.fov_components@.len() - i,
    {
        let ghost so_far = scene.fov_components@;
        let ghost positions = scene.position_components@;
        let entity = scene.fov_components[i].get_entity();
        let found = find_component(entity, scene.position_components.as_slice());
        let origin = match found {
            Some(position) => Some(position.pos()),
            None => None,
        };
        assert(so_far[i as int] == before.fov_components@[i as int]);
        match origin {
            Some((x, y)) => {
                let ghost q = choose|q: int| #[trigger]
                    first_of(positions, entity, q) && *found->0 == positions[q];
                proof {
                    assert(first_of(positions, entity, q));
                    assert forall|p: int| #[trigger] first_of(positions, entity, p) implies p
                        == q by {
                        lemma_first_of_unique(positions, entity, p, q);
                    }
                }
                let radius = scene.fov_components[i].view_radius;
                scene.fov_components[i].fov_map.compute_fov(x, y, radius);
                proof {
                    assert(positions[q].entity == entity);
                    if none_of(positions, entity) {
                        assert(positions[q].entity != entity);
                    }
                }
            },
            None => {
                proof {
                    assert forall|p: int| #[trigger] first_of(positions, entity, p) implies false by {
                        assert(positions[p].entity != entity);
                    }
                }
            },
        }
        proof {
            assert forall|k: int| 0 <= k < i + 1 implies fov_renewed(
                before,
                before.fov_components@[k],
                #[trigger] scene.fov_components@[k],
            ) by {
                if k < i {
                    assert(scene.fov_components@[k] == so_far[k]);
                }
            }
            assert forall|k: int|
                i + 1 <= k < before.fov_components@.len() implies #[trigger] scene.fov_components@[k]
                == before.fov_components@[k] by {
                assert(scene.fov_components@[k] == so_far[k]);
            }
        }
        i += 1;
    }
}

/// The scene `renewed` with the fields of view that `before` had.
pub open spec fn with_fovs_of(renewed: Scene, before: Scene) -> Scene {
    Scene { fov_components: before.fov_components, ..renewed }
}

/// One turn of the world as far as the rules go: every field of view is
/// looked over anew, the tile that the player stands on is noted in
/// `previous_player_position`, and the key is acted on; see `recompute_fovs`
/// and `handle_keys`.
pub fn tick(key: &Key, scene: &mut Scene, previous_player_position: &mut (i32, i32)) -> (done: (
    Option<PlayerAction>,
    Option<(DeathCallback, usize)>,
))
    requires
        fovs_safe(*old(scene)),
        !none_of(old(scene).position_components@, old(scene).player_id),
        scene_keys_safe(*old(scene), *key),
    ensures
        fovs_renewed(*old(scene), with_fovs_of(*old(scene), *final(scene))),
        forall|p: int| #[trigger]
            first_of(old(scene).position_components@, old(scene).player_id, p)
                ==> *final(previous_player_position) == (
                old(scene).position_components@[p].x,
                old(scene).position_components@[p].y,
            ),
        done.0 == if key.code == KeyCode::Escape {
            Some(PlayerAction::Exit)
        } else if scene_step(*old(scene), *key) is Some {
            Some(PlayerAction::Turn)
        } else {
            None
        },
        match scene_step(*old(scene), *key) {
            Some(step) => scene_move_done(
                *old(scene),
                old(scene).player_id,
                step.0 as int,
                step.1 as int,
                with_fovs_of(*final(scene), *old(scene)),
                done.1,
            ),
            None => with_fovs_of(*final(scene), *old(scene)) == *old(scene) && done.1 is None,
        },
{
    recompute_fovs(scene);
    let ghost renewed = *scene;
    let found = find_component(scene.player_id, scene.position_components.as_slice());
    match found {
        Some(position) => {
            *previous_player_position = position.pos();
        },
        None => {},
    }
    proof {
        let positions = scene.position_components@;
        let q = choose|q: int| #[trigger]
            first_of(positions, scene.player_id, q) && *found->0 == positions[q];
        assert forall|p: int| #[trigger] first_of(positions, scene.player_id, p) implies p == q by {
            lemma_first_of_unique(positions, scene.player_id, p, q);
        }
        assert(scene_step(renewed, *key) == scene_step(*old(scene), *key));
        assert(scene_keys_safe(renewed, *key)) by {
            match scene_step(renewed, *key) {
                Some(step) => {
                    lemma_move_ignores_sight(*old(scene), renewed, scene.player_id, step.0 as int, step.1 as int);
                },
                None => {},
            }
        }
    }
    let done = handle_keys(key, scene);
    proof {
        match scene_step(renewed, *key) {
            Some(step) => {
                lemma_move_done_ignores_sight(
                    *old(scene),
                    renewed,
                    scene.player_id,
                    step.0 as int,
                    step.1 as int,
                    *scene,
                    done.1,
                );
            },
            None => {},
        }
    }
    done
}

/// Whether a step or attack is admitted does not depend on the fields of view.
proof fn lemma_move_ignores_sight(before: Scene, renewed: Scene, entity: usize, dx: int, dy: int)
    requires
        fovs_renewed(before, renewed),
        scene_move_safe(before, entity, dx, dy),
    ensures
        scene_move_safe(renewed, entity, dx, dy),
{
    assert forall|x: int, y: int, target: int|
        attacks(renewed, x, y, target) == attacks(before, x, y, target) by {}
}

/// What a step or attack does does not depend on the fields of view.
proof fn lemma_move_done_ignores_sight(
    before: Scene,
    renewed: Scene,
    entity: usize,
    dx: int,
    dy: int,
    after: Scene,
    died: Option<(DeathCallback, usize)>,
)
    requires
        fovs_renewed(before, renewed),
        scene_move_done(renewed, entity, dx, dy, after, died),
    ensures
        scene_move_done(before, entity, dx, dy, with_fovs_of(after, before), died),
{
    assert forall|x: int, y: int, target: int|
        attacks(renewed, x, y, target) == attacks(before, x, y, target) by {}
}

/// Where the `i`-th field of view of `scene` looks from: the tile of the
/// first position of its entity, if it has one.
pub open spec fn looks_from(scene: Scene, i: int, origin: Option<(i32, i32)>) -> bool {
    let entity = scene.fov_components@[i].entity;
    match origin {
        Some(tile) => exists|p: int| #[trigger]
            first_of(scene.position_components@, entity, p) && tile == (
                scene.position_components@[p].x,
                scene.position_components@[p].y,
            ),
        None => none_of(scene.position_components@, entity),
    }
}

/// Where each field of view of `scene` is to be computed from, in the order
/// of the fields of view; see `looks_from`.
pub fn fov_origins(scene: &Scene) -> (origins: Vec<Option<(i32, i32)>>)
    ensures
        origins@.len() == scene.fov_components@.len(),
        forall|i: int| 0 <= i < origins@.len() ==> looks_from(*scene, i, #[trigger] origins@[i]),
{
    let mut origins: Vec<Option<(i32, i32)>> = Vec::new();
    let mut i: usize = 0;
    while i < scene.fov_components.len()
        invariant
            i <= scene.fov_components@.len(),
            origins@.len() == i,
            forall|k: int| 0 <= k < i ==> looks_from(*scene, k, #[trigger] origins@[k]),
        decreases scene.fov_components@.len() - i,
    {
        let entity = scene.fov_components[i].get_entity();
        let found = find_component(entity, scene.position_components.as_slice());
        let origin = match found {
            Some(position) => Some(position.pos()),
            None => None,
        };
        proof {
            if found is Some {
                let p = choose|p: int| #[trigger]
                    first_of(scene.position_components@, entity, p) && *found->0
                        == scene.position_components@[p];
                assert(first_of(scene.position_components@, entity, p) && origin->0 == (
                    scene.position_components@[p].x,
                    scene.position_components@[p].y,
                ));
            }
        }
        origins.push(origin);
        i += 1;
    }
    origins
}

/// What is drawn for the `i`-th looks of `scene`: its glyph in its colour on
/// the tile of the first position of its entity, if it has one.
pub open spec fn drawn_as(scene: Scene, i: int, glyph: Option<(char, Color, i32, i32)>) -> bool {
    let looks = scene.render_components@[i];
    match glyph {
        Some(g) => exists|p: int| #[trigger]
            first_of(scene.position_components@, looks.entity, p) && g == (
                looks.char,
                looks.color,
                scene.position_components@[p].x,
                scene.position_components@[p].y,
            ),
        None => none_of(scene.position_components@, looks.entity),
    }
}

/// What is drawn for each of the looks of `scene`, in their order; see `drawn_as`.
pub fn glyphs(scene: &Scene) -> (drawn: Vec<Option<(char, Color, i32, i32)>>)
    ensures
        drawn@.len() == scene.render_components@.len(),
        forall|i: int| 0 <= i < drawn@.len() ==> drawn_as(*scene, i, #[trigger] drawn@[i]),
{
    let mut drawn: Vec<Option<(char, Color, i32, i32)>> = Vec::new();
    let mut i: usize = 0;
    while i < scene.render_components.len()
        invariant
            i <= scene.render_components@.len(),
            drawn@.len() == i,
            forall|k: int| 0 <= k < i ==> drawn_as(*scene, k, #[trigger] drawn@[k]),
        decreases scene.render_components@.len() - i,
    {
        let looks = &scene.render_components[i];
        let found = find_component(looks.get_entity(), scene.position_components.as_slice());
        let glyph = match found {
            Some(position) => Some((looks.char, looks.color, position.x, position.y)),
            None => None,
        };
        proof {
            if found is Some {
                let p = choose|p: int| #[trigger]
                    first_of(scene.position_components@, looks.entity, p) && *found->0
                        == scene.position_components@[p];
                assert(first_of(scene.position_components@, looks.entity, p) && glyph->0 == (
                    looks.char,
                    looks.color,
                    scene.position_components@[p].x,
                    scene.position_components@[p].y,
                ));
            }
        }
        drawn.push(glyph);
        i += 1;
    }
    drawn
}

/// The largest magnitude of hit points, of defense and of blows in a scene
/// fit for a tick.
pub const COMBAT_LIMIT: i32 = 1_000_000;

/// Whether the numbers of `fighter` are within `COMBAT_LIMIT` of zero.
pub open spec fn combat_small(fighter: Combat) -> bool {
    &&& -COMBAT_LIMIT <= fighter.hp <= COMBAT_LIMIT
    &&& -COMBAT_LIMIT <= fighter.base_defense <= COMBAT_LIMIT
    &&& -COMBAT_LIMIT <= fighter.base_damage <= COMBAT_LIMIT
}

/// Whether `scene` is fit for a tick. The level has its size. Every field of
/// view has the size of the level. Every position keeps clear of the edge of
/// the level and belongs to an entity whose number is a place among the
/// combat components, where it has one. The player has a combat component,
/// at the place of its number, and one position. The numbers of every combat
/// component are small.
pub open spec fn scene_fit(scene: Scene) -> bool {
    &&& grid_wf(scene.map)
    &&& forall|i: int|
        0 <= i < scene.fov_components@.len() ==> (#[trigger] scene.fov_components@[i]).fov_map.has_size(
            MAP_WIDTH as int,
            MAP_HEIGHT as int,
        )
    &&& forall|p: int|
        0 <= p < scene.position_components@.len() ==> position_fit(
            scene,
            #[trigger] scene.position_components@[p],
        )
    &&& forall|c: int|
        0 <= c < scene.combat_components@.len() ==> combat_small(
            #[trigger] scene.combat_components@[c],
        )
    &&& scene.player_id < scene.combat_components@.len()
    &&& !none_of(scene.combat_components@, scene.player_id)
    &&& !none_of(scene.position_components@, scene.player_id)
    &&& forall|p: int, q: int|
        0 <= p < q < scene.position_components@.len() ==> !((
        #[trigger] scene.position_components@[p]).entity == scene.player_id && (
        #[trigger] scene.position_components@[q]).entity == scene.player_id)
}

/// Whether `position` keeps clear of the edge of the level and belongs to an
/// entity whose number is a place among the combat components of `scene`,
/// where it has one.
pub open spec fn position_fit(scene: Scene, position: Position) -> bool {
    &&& 1 <= position.x < MAP_WIDTH - 1
    &&& 1 <= position.y < MAP_HEIGHT - 1
    &&& !none_of(scene.combat_components@, position.entity) ==> position.entity
        < scene.combat_components@.len()
}

/// Whether `scene` is fit for a tick; see `scene_fit`.
pub fn is_scene_fit(scene: &Scene) -> (fit: bool)
    ensures
        fit == scene_fit(*scene),
{
    if scene.map.len() != MAP_WIDTH as usize {
        return false;
    }
    let mut x: usize = 0;
    while x < MAP_WIDTH as usize
        invariant
            x <= MAP_WIDTH,
            scene.map@.len() == MAP_WIDTH,
            forall|i: int| 0 <= i < x ==> (#[trigger] scene.map@[i])@.len() == MAP_HEIGHT,
        decreases MAP_WIDTH - x,
    {
        if scene.map[x].len() != MAP_HEIGHT as usize {
            return false;
        }
        x += 1;
    }
    let mut i: usize = 0;
    while i < scene.fov_components.len()
        invariant
            i <= scene.fov_components@.len(),
            forall|k: int|
                0 <= k < i ==> (#[trigger] scene.fov_components@[k]).fov_map.has_size(
                    MAP_WIDTH as int,
                    MAP_HEIGHT as int,
                ),
        decreases scene.fov_components@.len() - i,
    {
        let cells = &scene.fov_components[i].fov_map.cells;
        if cells.len() != MAP_WIDTH as usize {
            return false;
        }
        let mut x: usize = 0;
        while x < MAP_WIDTH as usize
            invariant
                x <= MAP_WIDTH,
                i < scene.fov_components@.len(),
                *cells == scene.fov_components@[i as int].fov_map.cells,
                cells@.len() == MAP_WIDTH,
                forall|k: int| 0 <= k < x ==> (#[trigger] cells@[k])@.len() == MAP_HEIGHT,
            decreases MAP_WIDTH - x,
        {
            if cells[x].len() != MAP_HEIGHT as usize {
                return false;
            }
            x += 1;
        }
        i += 1;
    }
    let mut players: usize = 0;
    let mut p: usize = 0;
    while p < scene.position_components.len()
        invariant
            p <= scene.position_components@.len(),
            players <= 1,
            forall|k: int|
                0 <= k < p ==> position_fit(*scene, #[trigger] scene.position_components@[k]),
            players == 0 ==> forall|k: int|
                0 <= k < p ==> (#[trigger] scene.position_components@[k]).entity != scene.player_id,
            players == 1 ==> exists|k: int|
                0 <= k < p && (#[trigger] scene.position_components@[k]).entity == scene.player_id,
            forall|k: int, q: int|
                0 <= k < q < p ==> !((#[trigger] scene.position_components@[k]).entity
                    == scene.player_id && (#[trigger] scene.position_components@[q]).entity
                    == scene.player_id),
        decreases scene.position_components@.len() - p,
    {
        let position = &scene.position_components[p];
        let inside = 1 <= position.x && position.x < MAP_WIDTH - 1 && 1 <= position.y && position.y
            < MAP_HEIGHT - 1;
        let fights = find_component(position.entity, scene.combat_components.as_slice()).is_some();
        if !inside || (fights && position.entity >= scene.combat_components.len()) {
            assert(!position_fit(*scene, scene.position_components@[p as int]));
            return false;
        }
        if position.entity == scene.player_id {
            if players == 1 {
                return false;
            }
            players = 1;
        }
        p += 1;
    }
    if players == 0 {
        return false;
    }
    let mut c: usize = 0;
    while c < scene.combat_components.len()
        invariant
            c <= scene.combat_components@.len(),
            forall|k: int| 0 <= k < c ==> combat_small(#[trigger] scene.combat_components@[k]),
        decreases scene.combat_components@.len() - c,
    {
        let fighter = &scene.combat_components[c];
        let small = -COMBAT_LIMIT <= fighter.hp && fighter.hp <= COMBAT_LIMIT && -COMBAT_LIMIT
            <= fighter.base_defense && fighter.base_defense <= COMBAT_LIMIT && -COMBAT_LIMIT
            <= fighter.base_damage && fighter.base_damage <= COMBAT_LIMIT;
        if !small {
            return false;
        }
        c += 1;
    }
    let has_combat = find_component(scene.player_id, scene.combat_components.as_slice()).is_some();
    has_combat && scene.player_id < scene.combat_components.len()
}

/// A scene fit for a tick admits one, whatever the key.
pub proof fn lemma_scene_fit_ticks(scene: Scene, key: Key)
    requires
        scene_fit(scene),
    ensures
        fovs_safe(scene),
        !none_of(scene.position_components@, scene.player_id),
        scene_keys_safe(scene, key),
{
    let positions = scene.position_components@;
    let fighters = scene.combat_components@;
    assert forall|i: int| 0 <= i < scene.fov_components@.len() implies ({
        let fov = #[trigger] scene.fov_components@[i];
        &&& fov.fov_map.is_small_rectangle()
        &&& forall|p: int| #[trigger]
            first_of(positions, fov.entity, p) ==> fov.fov_map.has(
                positions[p].x as int,
                positions[p].y as int,
            )
    }) by {
        let fov = scene.fov_components@[i];
        assert forall|p: int| #[trigger] first_of(positions, fov.entity, p) implies fov.fov_map.has(
            positions[p].x as int,
            positions[p].y as int,
        ) by {
            assert(position_fit(scene, positions[p]));
        }
    }
    match scene_step(scene, key) {
        Some(step) => {
            assert(-1 <= step.0 <= 1 && -1 <= step.1 <= 1 && (step.0 != 0 || step.1 != 0));
            assert forall|p: int| #[trigger] first_of(positions, scene.player_id, p) implies ({
                let x = positions[p].x + step.0;
                let y = positions[p].y + step.1;
                &&& fits_i32(x)
                &&& fits_i32(y)
                &&& forall|target: int| #[trigger]
                    attacks(scene, x, y, target) ==> {
                        &&& target != scene.player_id
                        &&& scene.player_id < fighters.len()
                        &&& 0 <= target < fighters.len()
                        &&& fits_i32(fighters[scene.player_id as int].blow(fighters[target]))
                        &&& fighters[scene.player_id as int].blow(fighters[target]) > 0 ==> fits_i32(
                            fighters[target].hp - fighters[scene.player_id as int].blow(
                                fighters[target],
                            ),
                        )
                    }
                &&& (forall|target: int| !attacks(scene, x, y, target)) ==> on_map(scene.map, x, y)
            }) by {
                let x = positions[p].x + step.0;
                let y = positions[p].y + step.1;
                assert(position_fit(scene, positions[p]));
                assert(combat_small(fighters[scene.player_id as int]));
                assert forall|target: int| #[trigger] attacks(scene, x, y, target) implies ({
                    &&& target != scene.player_id
                    &&& 0 <= target < fighters.len()
                    &&& combat_small(fighters[target])
                }) by {
                    let t = choose|t: int| #[trigger]
                        first_standing_at(positions, x, y, t) && positions[t].entity == target
                            && !none_of(fighters, positions[t].entity);
                    assert(position_fit(scene, positions[t]));
                    if positions[t].entity == scene.player_id {
                        if t < p {
                            assert(!(positions[t].entity == scene.player_id && positions[p].entity
                                == scene.player_id));
                        } else if p < t {
                            assert(!(positions[p].entity == scene.player_id && positions[t].entity
                                == scene.player_id));
                        }
                    }
                }
            }
        },
        None => {},
    }
}

/// Lets the world have its tick as `tick` does, if the scene is fit for one;
/// else nothing is done and nothing returned.
pub fn try_tick(key: &Key, scene: &mut Scene, previous_player_position: &mut (i32, i32)) -> (done:
    Option<(Option<PlayerAction>, Option<(DeathCallback, usize)>)>)
    ensures
        done is Some == scene_fit(*old(scene)),
        done is None ==> *final(scene) == *old(scene) && *final(previous_player_position) == *old(
            previous_player_position,
        ),
        done is Some ==> {
            &&& fovs_renewed(*old(scene), with_fovs_of(*old(scene), *final(scene)))
            &&& (done->0).0 == if key.code == KeyCode::Escape {
                Some(PlayerAction::Exit)
            } else if scene_step(*old(scene), *key) is Some {
                Some(PlayerAction::Turn)
            } else {
                None
            }
            &&& match scene_step(*old(scene), *key) {
                Some(step) => scene_move_done(
                    *old(scene),
                    old(scene).player_id,
                    step.0 as int,
                    step.1 as int,
                    with_fovs_of(*final(scene), *old(scene)),
                    (done->0).1,
                ),
                None => with_fovs_of(*final(scene), *old(scene)) == *old(scene) && (done->0).1
                    is None,
            }
        },
{
    if !is_scene_fit(scene) {
        return None;
    }
    proof {
        lemma_scene_fit_ticks(*scene, *key);
    }
    Some(tick(key, scene, previous_player_position))
}

} // verus!
