//! A bare level: rooms and the corridors between them, with the player put
//! into the first room.
use vstd::prelude::*;
use crate::components::position::Position;
use crate::game::{grid_wf, Grid};
use crate::room::{
    carved, connect, create_room as dig_room, drawn_room, dug_out, half, intersects_any, is_floor,
    layout_ok, lemma_center_inside, lemma_layout_grows, rejected, room_fits, rooms_apart,
    solid_rock, Rect, RoomDraw, MAX_ROOMS, ROOM_MAX_SIZE, ROOM_MIN_SIZE,
};
use crate::rng::{random_bool, random_range};
use crate::scene::{find_component_mut, first_of, none_of};

pub use crate::game::{Tile, MAP_HEIGHT, MAP_WIDTH};
pub use crate::room::{create_h_tunnel, create_v_tunnel};

verus! {

/// A room: an axis-aligned rectangle of tiles whose outermost tiles are walls.
#[derive(Clone, Copy, Debug, PartialEq, Eq, Structural)]
pub struct Room {
    pub x1: i32,
    pub y1: i32,
    pub x2: i32,
    pub y2: i32,
}

impl Room {
    /// The room with corner (`x`, `y`) and the given extent.
    pub fn new(x: i32, y: i32, width: i32, height: i32) -> (r: Room)
        requires
            i32::MIN <= x + width <= i32::MAX,
            i32::MIN <= y + height <= i32::MAX,
        ensures
            r == (Room { x1: x, y1: y, x2: (x + width) as i32, y2: (y + height) as i32 }),
    {
        Room { x1: x, y1: y, x2: x + width, y2: y + height }
    }

    /// Whether the two rooms share a tile, walls included.
    pub open spec fn spec_intersects(self, other: Room) -> bool {
        (self.x1 <= other.x2) && (self.x2 >= other.x1) && (self.y1 <= other.y2) && (self.y2
            >= other.y1)
    }

    /// Whether the two rooms share a tile, walls included.
    pub fn intersects(&self, other: &Room) -> (b: bool)
        ensures
            b == self.spec_intersects(*other),
    {
        (self.x1 <= other.x2) && (self.x2 >= other.x1) && (self.y1 <= other.y2) && (self.y2
            >= other.y1)
    }

    /// The tile in the middle of the room, each coordinate the mean of the
    /// two walls rounded towards zero.
    pub open spec fn spec_center(self) -> (int, int) {
        (half(self.x1 + self.x2), half(self.y1 + self.y2))
    }

    /// The tile in the middle of the room.
    pub fn center(&self) -> (c: (i32, i32))
        ensures
            (c.0 as int, c.1 as int) == self.spec_center(),
    {
        self.rect().center()
    }

    /// The room as a rectangle.
    pub open spec fn spec_rect(self) -> Rect {
        Rect { x1: self.x1, y1: self.y1, x2: self.x2, y2: self.y2 }
    }

    /// The room as a rectangle.
    pub fn rect(&self) -> (r: Rect)
        ensures
            r == self.spec_rect(),
    {
        Rect { x1: self.x1, y1: self.y1, x2: self.x2, y2: self.y2 }
    }
}

/// Digs out the floor of `room`, leaving its walls as they are.
pub fn create_room(room: &Room, map: &mut Grid)
    requires
        grid_wf(*old(map)),
        room.spec_rect().interior_in_bounds(),
    ensures
        carved(*old(map), *final(map), |x: int, y: int| room.spec_rect().inside(x, y)),
{
    dig_room(room.rect(), map);
}

/// Whether `after` is `before` with the first position of the entity
/// `player_id`, if it has one, moved to `tile`.
pub open spec fn player_put(
    before: Seq<Position>,
    after: Seq<Position>,
    player_id: usize,
    tile: (int, int),
) -> bool {
    &&& none_of(before, player_id) ==> after == before
    &&& forall|i: int| #[trigger]
        first_of(before, player_id, i) ==> after == before.update(
            i,
            Position { x: tile.0 as i32, y: tile.1 as i32, ..before[i] },
        )
}

/// The rooms that the draws `draws` lay out, in the order in which they are
/// accepted, and how the corridor to each starts out: a drawn room that
/// shares a tile with one accepted before is turned down.
pub open spec fn bare_rooms(draws: Seq<RoomDraw>) -> (Seq<Rect>, Seq<bool>)
    decreases draws.len(),
{
    if draws.len() == 0 {
        (Seq::empty(), Seq::empty())
    } else {
        let before = bare_rooms(draws.drop_last());
        let room = drawn_room(draws.last());
        if rejected(before.0, room) {
            before
        } else {
            (
                before.0.push(room),
                before.1.push(before.0.len() == 0 || draws.last().horizontal_first),
            )
        }
    }
}

/// Whether `draw` is one that the generator of bare levels may make: a room
/// of 6 to 10 tiles each way that keeps the last column and row of the level
/// free, and nothing to populate it.
pub open spec fn bare_draw_fits(draw: RoomDraw) -> bool {
    &&& ROOM_MIN_SIZE <= draw.w <= ROOM_MAX_SIZE
    &&& ROOM_MIN_SIZE <= draw.h <= ROOM_MAX_SIZE
    &&& 0 <= draw.x < MAP_WIDTH - draw.w
    &&& 0 <= draw.y < MAP_HEIGHT - draw.h
    &&& draw.monsters.len() == 0
    &&& draw.items.len() == 0
}

/// Whether `map` is the bare level that the generator builds when it draws
/// `draws`, and `after` is `before` with the player put at the centre of its
/// first room: `MAX_ROOMS` draws that it may make, the tiles dug out for the
/// rooms that they lay out and the corridors between them.
pub open spec fn simple_level_by(
    map: Grid,
    draws: Seq<RoomDraw>,
    player_id: usize,
    before: Seq<Position>,
    after: Seq<Position>,
) -> bool {
    &&& draws.len() == MAX_ROOMS
    &&& forall|i: int| 0 <= i < draws.len() ==> bare_draw_fits(#[trigger] draws[i])
    &&& bare_rooms(draws).0.len() >= 1
    &&& dug_out(map, bare_rooms(draws).0, bare_rooms(draws).1)
    &&& player_put(before, after, player_id, bare_rooms(draws).0[0].spec_center())
}

/// Whether `map` is the level made of `rooms`, a layout that the generator
/// may produce, and `after` is `before` with the player put at the centre of
/// the first room.
pub open spec fn simple_level(
    map: Grid,
    rooms: Seq<Rect>,
    turns: Seq<bool>,
    player_id: usize,
    before: Seq<Position>,
    after: Seq<Position>,
) -> bool {
    &&& layout_ok(rooms, turns)
    &&& dug_out(map, rooms, turns)
    &&& player_put(before, after, player_id, rooms[0].spec_center())
}

/// Builds a level: up to `MAX_ROOMS` rooms that share no tile, each joined to
/// the one accepted before it by an L-shaped corridor. The first position of
/// the entity `player_id` moves to the centre of the first room.
pub fn make_map(player_id: usize, position_components: &mut Vec<Position>) -> (map: Grid)
    ensures
        exists|rooms: Seq<Rect>, turns: Seq<bool>| #[trigger]
            simple_level(
                map,
                rooms,
                turns,
                player_id,
                old(position_components)@,
                final(position_components)@,
            ),
        exists|draws: Seq<RoomDraw>| #[trigger]
            simple_level_by(
                map,
                draws,
                player_id,
                old(position_components)@,
                final(position_components)@,
            ),
{
    let ghost before = position_components@;
    let mut map = solid_rock();
    let mut rooms: Vec<Rect> = Vec::new();
    let ghost mut turns: Seq<bool> = Seq::empty();
    let ghost mut draws: Seq<RoomDraw> = Seq::empty();
    let mut attempts: i32 = 0;
    proof {
        assert(rooms@ =~= Seq::<Rect>::empty());
        assert forall|x: int, y: int| !is_floor(rooms@, turns, x, y) by {}
    }
    while attempts < MAX_ROOMS
        invariant
            0 <= attempts <= MAX_ROOMS,
            rooms@.len() <= attempts,
            attempts >= 1 ==> rooms@.len() >= 1,
            turns.len() == rooms@.len(),
            dug_out(map, rooms@, turns),
            forall|i: int| 0 <= i < rooms@.len() ==> room_fits(#[trigger] rooms@[i]),
            rooms_apart(rooms@),
            draws.len() == attempts,
            forall|i: int| 0 <= i < draws.len() ==> bare_draw_fits(#[trigger] draws[i]),
            bare_rooms(draws) == (rooms@, turns),
            rooms@.len() == 0 ==> position_components@ == before,
            rooms@.len() >= 1 ==> player_put(
                before,
                position_components@,
                player_id,
                rooms@[0].spec_center(),
            ),
        decreases MAX_ROOMS - attempts,
    {
        attempts += 1;
        let w = random_range(ROOM_MIN_SIZE, ROOM_MAX_SIZE + 1);
        let h = random_range(ROOM_MIN_SIZE, ROOM_MAX_SIZE + 1);
        let x = random_range(0, MAP_WIDTH - w);
        let y = random_range(0, MAP_HEIGHT - h);
        let new_room = Room::new(x, y, w, h);
        let ghost rooms_before = rooms@;
        let ghost turns_before = turns;
        let ghost mut draw = RoomDraw {
            x: x as int,
            y: y as int,
            w: w as int,
            h: h as int,
            monsters: Seq::empty(),
            items: Seq::empty(),
            horizontal_first: false,
        };
        assert(drawn_room(draw) == new_room.spec_rect());
        let failed = intersects_any(&new_room.rect(), &rooms);
        if !failed {
            let ghost map_before = map;
            proof {
                lemma_center_inside(new_room.spec_rect());
            }
            create_room(&new_room, &mut map);
            let ghost map_with_room = map;
            let (new_x, new_y) = new_room.center();
            let ghost turn: bool = true;
            if rooms.is_empty() {
                let found = find_component_mut(player_id, position_components.as_mut_slice());
                if let Some(player_position) = found {
                    player_position.set_pos(new_x, new_y);
                }
                proof {
                    assert forall|i: int| #[trigger] first_of(before, player_id, i) implies position_components@
                        == before.update(
                        i,
                        Position { x: new_x, y: new_y, ..before[i] },
                    ) by {
                        if none_of(before, player_id) {
                            assert(before[i].entity != player_id);
                        } else {
                            let k = choose|k: int| #[trigger]
                                first_of(before, player_id, k) && position_components@
                                    == before.update(k, Position { x: new_x, y: new_y, ..before[k] });
                            if k < i {
                                assert(before[k].entity != player_id);
                            } else if i < k {
                                assert(before[i].entity != player_id);
                            }
                        }
                    }
                    if none_of(before, player_id) {
                        if found is Some {
                            let k = choose|k: int| #[trigger] first_of(before, player_id, k);
                            assert(before[k].entity != player_id);
                        }
                    }
                }
            } else {
                let (prev_x, prev_y) = rooms[rooms.len() - 1].center();
                proof {
                    lemma_center_inside(rooms@.last());
                }
                let horizontal_first = random_bool();
                proof {
                    turn = horizontal_first;
                }
                connect((prev_x, prev_y), (new_x, new_y), horizontal_first, &mut map);
            }
            rooms.push(new_room.rect());
            proof {
                draw = RoomDraw { horizontal_first: turn, ..draw };
                turns = turns.push(turn);
                assert(rooms@ =~= rooms_before.push(new_room.spec_rect()));
                lemma_layout_grows(
                    map_before,
                    map_with_room,
                    map,
                    rooms_before,
                    turns_before,
                    new_room.spec_rect(),
                    turn,
                );
            }
        }
        proof {
            let drawn = draws;
            draws = draws.push(draw);
            assert(draws.drop_last() =~= drawn);
            assert(bare_rooms(draws) == (rooms@, turns));
        }
    }
    proof {
        assert(simple_level(map, rooms@, turns, player_id, before, position_components@));
        assert(simple_level_by(map, draws, player_id, before, position_components@));
    }
    map
}

} // verus!
