//! Where an entity stands.
use vstd::prelude::*;
use crate::components::Component;
use crate::game::Grid;
use crate::object::{dist_sq, fits_i32};

verus! {

/// The tile that an entity stands on.
#[derive(Debug, PartialEq, Eq, Structural)]
pub struct Position {
    pub entity: usize,
    pub x: i32,
    pub y: i32,
}

impl Component for Position {
    open spec fn entity(&self) -> usize {
        self.entity
    }

    fn get_entity(&self) -> (id: usize) {
        self.entity
    }
}

/// Whether (`x`, `y`) addresses a tile of `map`, whatever its size.
pub open spec fn on_map(map: Grid, x: int, y: int) -> bool {
    0 <= x < map@.len() && 0 <= y < map@[x]@.len()
}

impl Position {
    /// The position of `entity` on tile (`x`, `y`).
    pub fn new(entity: usize, x: i32, y: i32) -> (p: Position)
        ensures
            p == (Position { entity, x, y }),
    {
        Position { entity, x, y }
    }

    /// Steps by (`dx`, `dy`) unless the tile stepped onto is rock.
    pub fn try_move(&mut self, map: &Grid, dx: i32, dy: i32)
        requires
            fits_i32(old(self).x + dx),
            fits_i32(old(self).y + dy),
            on_map(*map, old(self).x + dx, old(self).y + dy),
        ensures
            *final(self) == if map@[old(self).x + dx]@[old(self).y + dy].blocked {
                *old(self)
            } else {
                Position { x: (old(self).x + dx) as i32, y: (old(self).y + dy) as i32, ..*old(self) }
            },
    {
        let (x, y) = (self.x + dx, self.y + dy);
        if !map[x as usize][y as usize].blocked {
            self.set_pos(x, y);
        }
    }

    /// The tile stood on.
    pub fn pos(&self) -> (p: (i32, i32))
        ensures
            p == (self.x, self.y),
    {
        (self.x, self.y)
    }

    /// Moves to tile (`x`, `y`).
    pub fn set_pos(&mut self, x: i32, y: i32)
        ensures
            *final(self) == (Position { x, y, ..*old(self) }),
    {
        self.x = x;
        self.y = y;
    }

    /// The square of the distance to another position.
    pub fn distance_sq(&self, other: &Position) -> (d: i128)
        ensures
            d == dist_sq(self.x as int, self.y as int, other.x as int, other.y as int),
            d >= 0,
    {
        let dx: i128 = other.x as i128 - self.x as i128;
        let dy: i128 = other.y as i128 - self.y as i128;
        assert(0 <= dx * dx <= 0x1_0000_0000 * 0x1_0000_0000 && 0 <= dy * dy <= 0x1_0000_0000
            * 0x1_0000_0000) by (nonlinear_arith)
            requires
                -0x1_0000_0000 <= dx <= 0x1_0000_0000,
                -0x1_0000_0000 <= dy <= 0x1_0000_0000,
        ;
        dx * dx + dy * dy
    }
}

} // verus!
