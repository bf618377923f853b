//! What an entity sees.
use vstd::prelude::*;
use crate::components::position::on_map;
use crate::components::Component;
use crate::fov::{FovCell, FovMap};
use crate::game::Grid;

verus! {

/// The field of view of an entity.
#[derive(Debug)]
pub struct Fov {
    pub entity: usize,
    pub fov_map: FovMap,
    pub view_radius: i32,
}

impl Component for Fov {
    open spec fn entity(&self) -> usize {
        self.entity
    }

    fn get_entity(&self) -> (id: usize) {
        self.entity
    }
}

/// Whether `map` has at least one column and every column has the height of
/// the first, which is not zero; both numbers are values of `i32`.
pub open spec fn is_rectangle(map: Grid) -> bool {
    &&& 0 < map@.len() <= i32::MAX
    &&& 0 < map@[0]@.len() <= i32::MAX
    &&& forall|x: int| 0 <= x < map@.len() ==> (#[trigger] map@[x])@.len() == map@[0]@.len()
}

impl Fov {
    /// A field of view over `map` for `entity`, in which nothing is seen yet:
    /// light passes a tile unless it blocks sight, and one can walk on it
    /// unless it is rock.
    pub fn new(entity: usize, view_radius: i32, map: &Grid) -> (fov: Fov)
        requires
            is_rectangle(*map),
        ensures
            fov.entity == entity,
            fov.view_radius == view_radius,
            fov.fov_map.has_size(map@.len() as int, map@[0]@.len() as int),
            forall|x: int, y: int|
                on_map(*map, x, y) ==> #[trigger] fov.fov_map.cell(x, y) == (FovCell {
                    transparent: !map@[x]@[y].block_sight,
                    walkable: !map@[x]@[y].blocked,
                    in_fov: false,
                }),
    {
        let mut fov_map = FovMap::new(map.len() as i32, map[0].len() as i32);
        let width = map.len();
        let height = map[0].len();
        let mut x: usize = 0;
        while x < width
            invariant
                is_rectangle(*map),
                width == map@.len(),
                height == map@[0]@.len(),
                x <= width,
                fov_map.has_size(width as int, height as int),
                forall|i: int, j: int|
                    on_map(*map, i, j) ==> #[trigger] fov_map.cell(i, j) == if i < x {
                        FovCell {
                            transparent: !map@[i]@[j].block_sight,
                            walkable: !map@[i]@[j].blocked,
                            in_fov: false,
                        }
                    } else {
                        FovCell { transparent: false, walkable: false, in_fov: false }
                    },
            decreases width - x,
        {
            let mut y: usize = 0;
            while y < height
                invariant
                    is_rectangle(*map),
                    width == map@.len(),
                    height == map@[0]@.len(),
                    x < width,
                    y <= height,
                    fov_map.has_size(width as int, height as int),
                    forall|i: int, j: int|
                        on_map(*map, i, j) ==> #[trigger] fov_map.cell(i, j) == if i < x || (i == x
                            && j < y) {
                            FovCell {
                                transparent: !map@[i]@[j].block_sight,
                                walkable: !map@[i]@[j].blocked,
                                in_fov: false,
                            }
                        } else {
                            FovCell { transparent: false, walkable: false, in_fov: false }
                        },
                decreases height - y,
            {
                let ghost before = fov_map;
                assert(map@[x as int]@.len() == height);
                assert(before.has(x as int, y as int));
                fov_map.set(x as i32, y as i32, !map[x][y].block_sight, !map[x][y].blocked);
                assert forall|i: int, j: int| on_map(*map, i, j) implies #[trigger] fov_map.cell(
                    i,
                    j,
                ) == if i < x || (i == x && j < y + 1) {
                    FovCell {
                        transparent: !map@[i]@[j].block_sight,
                        walkable: !map@[i]@[j].blocked,
                        in_fov: false,
                    }
                } else {
                    FovCell { transparent: false, walkable: false, in_fov: false }
                } by {
                    assert(before.has(i, j));
                    assert(before.cell(i, j) == if i < x || (i == x && j < y) {
                        FovCell {
                            transparent: !map@[i]@[j].block_sight,
                            walkable: !map@[i]@[j].blocked,
                            in_fov: false,
                        }
                    } else {
                        FovCell { transparent: false, walkable: false, in_fov: false }
                    });
                }
                y += 1;
            }
            x += 1;
        }
        Fov { entity, fov_map, view_radius }
    }
}

} // verus!
