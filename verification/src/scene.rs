//! The world as lists of facets, and looking a facet up by its entity.
use vstd::prelude::*;
use crate::colors::white;
use crate::components::combat::{Combat, DeathCallback};
use crate::components::fov::Fov;
use crate::components::position::{on_map, Position};
use crate::components::render::Render;
use crate::components::Component;
use crate::engine::get_unique_id;
use crate::fov::FovCell;
use crate::game::Grid;
use crate::map::{make_map, simple_level, simple_level_by};
use crate::room::{Rect, RoomDraw};

verus! {

/// The world: its tiles, the player's entity, and the facets of all entities.
#[derive(Debug)]
pub struct Scene {
    pub map: Grid,
    pub player_id: usize,
    pub render_components: Vec<Render>,
    pub position_components: Vec<Position>,
    pub combat_components: Vec<Combat>,
    pub fov_components: Vec<Fov>,
}

/// Whether the `i`-th facet of `collection` is the first that belongs to `id`.
pub open spec fn first_of<T: Component>(collection: Seq<T>, id: usize, i: int) -> bool {
    &&& 0 <= i < collection.len()
    &&& collection[i].entity() == id
    &&& forall|j: int| 0 <= j < i ==> (#[trigger] collection[j]).entity() != id
}

/// Whether no facet of `collection` belongs to `id`.
pub open spec fn none_of<T: Component>(collection: Seq<T>, id: usize) -> bool {
    forall|j: int| 0 <= j < collection.len() ==> (#[trigger] collection[j]).entity() != id
}

/// The first facet of `collection` that belongs to the entity `id`.
pub fn find_component<'a, T: Component>(id: usize, collection: &'a [T]) -> (found: Option<&'a T>)
    ensures
        match found {
            Some(facet) => exists|i: int| #[trigger]
                first_of(collection@, id, i) && *facet == collection@[i],
            None => none_of(collection@, id),
        },
{
    let mut i: usize = 0;
    while i < collection.len()
        invariant
            i <= collection@.len(),
            forall|j: int| 0 <= j < i ==> (#[trigger] collection@[j]).entity() != id,
        decreases collection@.len() - i,
    {
        if collection[i].get_entity() == id {
            assert(first_of(collection@, id, i as int));
            return Some(&collection[i]);
        }
        i += 1;
    }
    None
}

/// The first facet of `collection` that belongs to the entity `id`, to be changed
/// in place.
pub fn find_component_mut<'a, T: Component>(id: usize, collection: &'a mut [T]) -> (found: Option<
    &'a mut T,
>)
    ensures
        match found {
            Some(facet) => exists|i: int| #[trigger]
                first_of(old(collection)@, id, i) && *facet == old(collection)@[i]
                    && final(collection)@ == old(collection)@.update(i, *final(facet)),
            None => none_of(old(collection)@, id) && final(collection)@ == old(collection)@,
        },
{
    let mut i: usize = 0;
    let n = collection.len();
    while i < n
        invariant
            n == collection@.len(),
            i <= n,
            collection@ == old(collection)@,
            forall|j: int| 0 <= j < i ==> (#[trigger] collection@[j]).entity() != id,
        decreases n - i,
    {
        if collection[i].get_entity() == id {
            assert(first_of(old(collection)@, id, i as int));
            return Some(&mut collection[i]);
        }
        i += 1;
    }
    None
}

/// How far the player sees in a fresh scene.
pub const PLAYER_VIEW_RADIUS: i32 = 15;

impl Scene {
    /// A fresh world: a generated level and the player at the centre of its
    /// first room, alive, with 100 hit points, 100 defense and blows of 100,
    /// shown as a white `@`, and with a field of view in which nothing is
    /// seen yet. The player's entity is the next free one.
    pub fn new(next_id: &mut usize) -> (scene: Scene)
        ensures
            scene.player_id == *old(next_id),
            *final(next_id) == if *old(next_id) == usize::MAX {
                0
            } else {
                *old(next_id) + 1
            },
            scene.render_components@ == seq![
                Render { entity: scene.player_id, char: '@', color: white() },
            ],
            scene.combat_components@ == seq![
                Combat {
                    entity: scene.player_id,
                    alive: true,
                    base_max_hp: 100,
                    hp: 100,
                    base_defense: 100,
                    base_damage: 100,
                    on_death: Some(DeathCallback::Player),
                },
            ],
            exists|rooms: Seq<Rect>, turns: Seq<bool>| #[trigger]
                simple_level(
                    scene.map,
                    rooms,
                    turns,
                    scene.player_id,
                    seq![Position { entity: scene.player_id, x: 0, y: 0 }],
                    scene.position_components@,
                ),
            exists|draws: Seq<RoomDraw>| #[trigger]
                simple_level_by(
                    scene.map,
                    draws,
                    scene.player_id,
                    seq![Position { entity: scene.player_id, x: 0, y: 0 }],
                    scene.position_components@,
                ),
            scene.fov_components@.len() == 1,
            scene.fov_components@[0].entity == scene.player_id,
            scene.fov_components@[0].view_radius == PLAYER_VIEW_RADIUS,
            forall|x: int, y: int|
                on_map(scene.map, x, y) ==> #[trigger] scene.fov_components@[0].fov_map.cell(x, y)
                    == (FovCell {
                    transparent: !scene.map@[x]@[y].block_sight,
                    walkable: !scene.map@[x]@[y].blocked,
                    in_fov: false,
                }),
    {
        let player_id = get_unique_id(next_id);
        let player_position = Position::new(player_id, 0, 0);
        let player_max_hp: i32 = 100;
        let player_defense: i32 = 100;
        let player_damage: i32 = 100;
        let mut player_combat = Combat::new(
            player_id,
            player_max_hp,
            player_defense,
            player_damage,
        );
        player_combat.alive = true;
        player_combat.on_death = Some(DeathCallback::Player);
        let player_render = Render::new(player_id, '@', white());
        let render_components = vec![player_render];
        let mut position_components = vec![player_position];
        let combat_components = vec![player_combat];
        assert(position_components@ =~= seq![Position { entity: player_id, x: 0, y: 0 }]);
        let ghost start = position_components@;
        let map = make_map(player_id, &mut position_components);
        let ghost mut layout: (Seq<Rect>, Seq<bool>) = (Seq::empty(), Seq::empty());
        let ghost mut draws: Seq<RoomDraw> = Seq::empty();
        proof {
            draws = choose|draws: Seq<RoomDraw>| #[trigger]
                simple_level_by(map, draws, player_id, start, position_components@);
            let (rooms, turns) = choose|rooms: Seq<Rect>, turns: Seq<bool>| #[trigger]
                simple_level(map, rooms, turns, player_id, start, position_components@);
            layout = (rooms, turns);
        }
        let player_fov = Fov::new(player_id, PLAYER_VIEW_RADIUS, &map);
        let fov_components = vec![player_fov];
        let scene = Scene {
            map,
            player_id,
            render_components,
            position_components,
            combat_components,
            fov_components,
        };
        assert(simple_level(
            scene.map,
            layout.0,
            layout.1,
            scene.player_id,
            seq![Position { entity: scene.player_id, x: 0, y: 0 }],
            scene.position_components@,
        ));
        assert(simple_level_by(
            scene.map,
            draws,
            scene.player_id,
            seq![Position { entity: scene.player_id, x: 0, y: 0 }],
            scene.position_components@,
        ));
        scene
    }
}

} // verus!
