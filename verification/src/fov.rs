//! What an observer sees: for each tile whether light passes it, whether one
//! can walk on it, and whether the observer sees it at present.
use vstd::prelude::*;

verus! {

/// One tile as the field of view knows it.
#[derive(Clone, Copy, Debug, PartialEq, Eq, Structural)]
pub struct FovCell {
    pub transparent: bool,
    pub walkable: bool,
    pub in_fov: bool,
}

/// A field of view over a rectangle of tiles, addressed as `cells[x][y]`.
#[derive(Debug)]
pub struct FovMap {
    pub cells: Vec<Vec<FovCell>>,
}

impl FovMap {
    /// Whether (`x`, `y`) addresses a tile of this field of view.
    pub open spec fn has(self, x: int, y: int) -> bool {
        0 <= x < self.cells@.len() && 0 <= y < self.cells@[x]@.len()
    }

    /// The tile at (`x`, `y`).
    pub open spec fn cell(self, x: int, y: int) -> FovCell {
        self.cells@[x]@[y]
    }

    /// Whether every column has `height` tiles and there are `width` columns.
    pub open spec fn has_size(self, width: int, height: int) -> bool {
        &&& self.cells@.len() == width
        &&& forall|x: int| 0 <= x < width ==> (#[trigger] self.cells@[x])@.len() == height
    }

    /// Whether the observer sees tile (`x`, `y`); a tile outside is never seen.
    pub open spec fn spec_is_in_fov(self, x: int, y: int) -> bool {
        self.has(x, y) && self.cell(x, y).in_fov
    }

    /// A field of view of the given size in which light passes nowhere,
    /// nothing is walkable and nothing is seen.
    pub fn new(width: i32, height: i32) -> (fov: FovMap)
        requires
            width > 0,
            height > 0,
        ensures
            fov.has_size(width as int, height as int),
            forall|x: int, y: int|
                fov.has(x, y) ==> #[trigger] fov.cell(x, y) == (FovCell {
                    transparent: false,
                    walkable: false,
                    in_fov: false,
                }),
    {
        let column = vec![FovCell { transparent: false, walkable: false, in_fov: false }; height as usize];
        FovMap { cells: vec![column; width as usize] }
    }

    /// The number of columns and the height of the first of them.
    pub fn size(&self) -> (size: (usize, usize))
        ensures
            size.0 == self.cells@.len(),
            size.1 == if self.cells@.len() > 0 {
                self.cells@[0]@.len()
            } else {
                0
            },
    {
        if self.cells.len() > 0 {
            (self.cells.len(), self.cells[0].len())
        } else {
            (0, 0)
        }
    }

    /// Records whether light passes tile (`x`, `y`) and whether one can walk on it.
    pub fn set(&mut self, x: i32, y: i32, transparent: bool, walkable: bool)
        requires
            old(self).has(x as int, y as int),
        ensures
            forall|w: int, h: int| old(self).has_size(w, h) ==> final(self).has_size(w, h),
            forall|i: int, j: int| final(self).has(i, j) == old(self).has(i, j),
            forall|i: int, j: int|
                old(self).has(i, j) ==> #[trigger] final(self).cell(i, j) == if i == x && j == y {
                    FovCell { transparent, walkable, ..old(self).cell(i, j) }
                } else {
                    old(self).cell(i, j)
                },
    {
        let ghost before = *self;
        self.cells[x as usize][y as usize].transparent = transparent;
        self.cells[x as usize][y as usize].walkable = walkable;
        assert forall|i: int, j: int| before.has(i, j) implies #[trigger] self.cell(i, j) == if i == x
            && j == y {
            FovCell { transparent, walkable, ..before.cell(i, j) }
        } else {
            before.cell(i, j)
        } by {}
    }

    /// Records whether the observer sees tile (`x`, `y`).
    pub fn set_in_fov(&mut self, x: i32, y: i32, in_fov: bool)
        requires
            old(self).has(x as int, y as int),
        ensures
            forall|w: int, h: int| old(self).has_size(w, h) ==> final(self).has_size(w, h),
            forall|i: int, j: int| final(self).has(i, j) == old(self).has(i, j),
            forall|i: int, j: int|
                old(self).has(i, j) ==> #[trigger] final(self).cell(i, j) == if i == x && j == y {
                    FovCell { in_fov, ..old(self).cell(i, j) }
                } else {
                    old(self).cell(i, j)
                },
    {
        let ghost before = *self;
        self.cells[x as usize][y as usize].in_fov = in_fov;
        assert forall|i: int, j: int| before.has(i, j) implies #[trigger] self.cell(i, j) == if i == x
            && j == y {
            FovCell { in_fov, ..before.cell(i, j) }
        } else {
            before.cell(i, j)
        } by {}
    }

    /// Whether the observer sees tile (`x`, `y`); a tile outside is never seen.
    #[verifier::when_used_as_spec(spec_is_in_fov_exec)]
    pub fn is_in_fov(&self, x: i32, y: i32) -> (seen: bool)
        ensures
            seen == self.spec_is_in_fov(x as int, y as int),
    {
        if x < 0 || y < 0 {
            return false;
        }
        let column = x as usize;
        let row = y as usize;
        if column >= self.cells.len() {
            return false;
        }
        if row >= self.cells[column].len() {
            return false;
        }
        self.cells[column][row].in_fov
    }

    /// Whether the observer sees tile (`x`, `y`), for use in contracts.
    pub open spec fn spec_is_in_fov_exec(&self, x: i32, y: i32) -> bool {
        self.spec_is_in_fov(x as int, y as int)
    }
}

/// The largest width and height of a field of view that `compute_fov` looks
/// over: what keeps its arithmetic within 64 bits.
pub const FOV_LIMIT: i32 = 0x4000_0000;

/// The magnitude of `d`.
pub open spec fn magnitude(d: int) -> int {
    if d < 0 {
        -d
    } else {
        d
    }
}

/// The number of steps of the straight line over (`dx`, `dy`): the larger of
/// the two magnitudes.
pub open spec fn line_steps(dx: int, dy: int) -> int {
    if magnitude(dx) > magnitude(dy) {
        magnitude(dx)
    } else {
        magnitude(dy)
    }
}

/// How far along one axis the straight line of `steps` steps over the
/// distance `d` has come after `k` steps: `k` parts in `steps` of `d`,
/// rounded to the nearest whole, halves away from zero.
pub open spec fn line_offset(d: int, steps: int, k: int) -> int {
    let along = (2 * k * magnitude(d) + steps) / (2 * steps);
    if d < 0 {
        -along
    } else {
        along
    }
}

impl FovMap {
    /// Whether light passes tile (`x`, `y`); it passes no tile outside.
    pub open spec fn lets_light(self, x: int, y: int) -> bool {
        self.has(x, y) && self.cell(x, y).transparent
    }

    /// Whether the straight line from (`ox`, `oy`) to (`x`, `y`) is free:
    /// light passes every tile on it strictly between the two.
    pub open spec fn line_free(self, ox: int, oy: int, x: int, y: int) -> bool {
        let steps = line_steps(x - ox, y - oy);
        forall|k: int|
            0 < k < steps ==> self.lets_light(
                ox + #[trigger] line_offset(x - ox, steps, k),
                oy + line_offset(y - oy, steps, k),
            )
    }

    /// Whether an observer on (`ox`, `oy`) who sees `radius` tiles far sees
    /// tile (`x`, `y`): the tile is no farther than that and the straight
    /// line to it is free. A tile that stops the light is seen itself; what
    /// lies behind it is not.
    pub open spec fn sees(self, ox: int, oy: int, radius: int, x: int, y: int) -> bool {
        &&& radius >= 0
        &&& (x - ox) * (x - ox) + (y - oy) * (y - oy) <= radius * radius
        &&& self.line_free(ox, oy, x, y)
    }

    /// Whether `after` is this field of view looked over anew from (`ox`,
    /// `oy`) with sight `radius`: each tile is seen or not as `sees` says,
    /// and is otherwise as it was.
    pub open spec fn computed(self, ox: int, oy: int, radius: int, after: FovMap) -> bool {
        &&& forall|w: int, h: int| self.has_size(w, h) ==> after.has_size(w, h)
        &&& forall|x: int, y: int| after.has(x, y) == self.has(x, y)
        &&& forall|x: int, y: int|
            self.has(x, y) ==> #[trigger] after.cell(x, y) == (FovCell {
                in_fov: self.sees(ox, oy, radius, x, y),
                ..self.cell(x, y)
            })
    }

    /// Whether the field of view is a rectangle of no more than `FOV_LIMIT`
    /// tiles each way.
    pub open spec fn is_small_rectangle(self) -> bool {
        &&& self.cells@.len() <= FOV_LIMIT
        &&& forall|x: int|
            0 <= x < self.cells@.len() ==> (#[trigger] self.cells@[x])@.len() == self.height()
        &&& self.height() <= FOV_LIMIT
    }

    /// The height of the first column, 0 where there is none.
    pub open spec fn height(self) -> int {
        if self.cells@.len() > 0 {
            self.cells@[0]@.len() as int
        } else {
            0
        }
    }

    /// Whether light passes tile (`x`, `y`); it passes no tile outside.
    fn is_transparent(&self, x: i64, y: i64) -> (clear: bool)
        ensures
            clear == self.lets_light(x as int, y as int),
    {
        if x < 0 || y < 0 {
            return false;
        }
        if x as u64 >= self.cells.len() as u64 {
            return false;
        }
        let column = &self.cells[x as usize];
        if y as u64 >= column.len() as u64 {
            return false;
        }
        column[y as usize].transparent
    }

    /// Whether the straight line from (`ox`, `oy`) to (`x`, `y`) is free; see
    /// `line_free`.
    fn is_line_free(&self, ox: i32, oy: i32, x: i32, y: i32) -> (free: bool)
        requires
            -FOV_LIMIT <= x - ox <= FOV_LIMIT,
            -FOV_LIMIT <= y - oy <= FOV_LIMIT,
        ensures
            free == self.line_free(ox as int, oy as int, x as int, y as int),
    {
        let dx: i64 = x as i64 - ox as i64;
        let dy: i64 = y as i64 - oy as i64;
        let far_x: i64 = if dx < 0 {
            -dx
        } else {
            dx
        };
        let far_y: i64 = if dy < 0 {
            -dy
        } else {
            dy
        };
        let steps: i64 = if far_x > far_y {
            far_x
        } else {
            far_y
        };
        let mut k: i64 = 1;
        while k < steps
            invariant
                1 <= k,
                0 <= far_x <= steps <= FOV_LIMIT,
                0 <= far_y <= steps,
                dx == x - ox,
                dy == y - oy,
                far_x == magnitude(dx as int),
                far_y == magnitude(dy as int),
                steps == line_steps(dx as int, dy as int),
                forall|j: int|
                    0 < j < k ==> self.lets_light(
                        ox + #[trigger] line_offset(dx as int, steps as int, j),
                        oy + line_offset(dy as int, steps as int, j),
                    ),
            decreases steps - k,
        {
            assert(0 <= k * far_x <= FOV_LIMIT * FOV_LIMIT && 0 <= k * far_y <= FOV_LIMIT
                * FOV_LIMIT) by (nonlinear_arith)
                requires
                    0 <= k <= FOV_LIMIT,
                    0 <= far_x <= FOV_LIMIT,
                    0 <= far_y <= FOV_LIMIT,
            ;
            assert(2 * k * far_x == 2 * (k * far_x) && 2 * k * far_y == 2 * (k * far_y))
                by (nonlinear_arith);
            let along_x: i64 = (2 * (k * far_x) + steps) / (2 * steps);
            let along_y: i64 = (2 * (k * far_y) + steps) / (2 * steps);
            assert(0 <= along_x <= FOV_LIMIT * FOV_LIMIT + 1 && 0 <= along_y <= FOV_LIMIT
                * FOV_LIMIT + 1) by (nonlinear_arith)
                requires
                    along_x == (2 * (k * far_x) + steps) / (2 * steps),
                    along_y == (2 * (k * far_y) + steps) / (2 * steps),
                    0 <= k * far_x <= FOV_LIMIT * FOV_LIMIT,
                    0 <= k * far_y <= FOV_LIMIT * FOV_LIMIT,
                    1 <= steps <= FOV_LIMIT,
            ;
            let step_x: i64 = if dx < 0 {
                -along_x
            } else {
                along_x
            };
            let step_y: i64 = if dy < 0 {
                -along_y
            } else {
                along_y
            };
            assert(step_x == line_offset(dx as int, steps as int, k as int));
            assert(step_y == line_offset(dy as int, steps as int, k as int));
            if !self.is_transparent(ox as i64 + step_x, oy as i64 + step_y) {
                return false;
            }
            k += 1;
        }
        true
    }

    /// Looks over the field of view anew from (`ox`, `oy`) with sight
    /// `radius`; see `sees`.
    pub fn compute_fov(&mut self, ox: i32, oy: i32, radius: i32)
        requires
            old(self).is_small_rectangle(),
            old(self).has(ox as int, oy as int),
        ensures
            old(self).computed(ox as int, oy as int, radius as int, *final(self)),
    {
        let ghost before = *self;
        let width = self.cells.len();
        let height = self.cells[0].len();
        let reach: i64 = radius as i64;
        assert(0 <= reach * reach <= 0x8000_0000 * 0x8000_0000) by (nonlinear_arith)
            requires
                -0x8000_0000 <= reach <= 0x8000_0000,
        ;
        let reach_sq: i64 = reach * reach;
        let mut x: usize = 0;
        while x < width
            invariant
                x <= width,
                width == before.cells@.len(),
                height == before.height(),
                before.is_small_rectangle(),
                before.has(ox as int, oy as int),
                reach_sq == radius * radius,
                forall|w: int, h: int| before.has_size(w, h) ==> self.has_size(w, h),
                forall|i: int, j: int| self.has(i, j) == before.has(i, j),
                forall|i: int, j: int|
                    before.has(i, j) ==> #[trigger] self.cell(i, j) == if i < x {
                        FovCell {
                            in_fov: before.sees(ox as int, oy as int, radius as int, i, j),
                            ..before.cell(i, j)
                        }
                    } else {
                        before.cell(i, j)
                    },
            decreases width - x,
        {
            let mut y: usize = 0;
            while y < height
                invariant
                    x < width,
                    y <= height,
                    width == before.cells@.len(),
                    height == before.height(),
                    before.is_small_rectangle(),
                    before.has(ox as int, oy as int),
                    reach_sq == radius * radius,
                    forall|w: int, h: int| before.has_size(w, h) ==> self.has_size(w, h),
                    forall|i: int, j: int| self.has(i, j) == before.has(i, j),
                    forall|i: int, j: int|
                        before.has(i, j) ==> #[trigger] self.cell(i, j) == if i < x || (i == x && j
                            < y) {
                            FovCell {
                                in_fov: before.sees(ox as int, oy as int, radius as int, i, j),
                                ..before.cell(i, j)
                            }
                        } else {
                            before.cell(i, j)
                        },
                decreases height - y,
            {
                let ghost so_far = *self;
                assert(before.has(x as int, y as int));
                let dx: i64 = x as i64 - ox as i64;
                let dy: i64 = y as i64 - oy as i64;
                assert(0 <= dx * dx <= FOV_LIMIT * FOV_LIMIT && 0 <= dy * dy <= FOV_LIMIT
                    * FOV_LIMIT) by (nonlinear_arith)
                    requires
                        -FOV_LIMIT <= dx <= FOV_LIMIT,
                        -FOV_LIMIT <= dy <= FOV_LIMIT,
                ;
                let near = radius >= 0 && dx * dx + dy * dy <= reach_sq;
                let free = self.is_line_free(ox, oy, x as i32, y as i32);
                proof {
                    assert forall|i: int, j: int| so_far.lets_light(i, j) == before.lets_light(
                        i,
                        j,
                    ) by {
                        if before.has(i, j) {
                            assert(so_far.cell(i, j).transparent == before.cell(i, j).transparent);
                        }
                    }
                    assert(so_far.line_free(ox as int, oy as int, x as int, y as int)
                        == before.line_free(ox as int, oy as int, x as int, y as int));
                }
                self.set_in_fov(x as i32, y as i32, near && free);
                proof {
                    assert forall|i: int, j: int| before.has(i, j) implies #[trigger] self.cell(
                        i,
                        j,
                    ) == if i < x || (i == x && j < y + 1) {
                        FovCell {
                            in_fov: before.sees(ox as int, oy as int, radius as int, i, j),
                            ..before.cell(i, j)
                        }
                    } else {
                        before.cell(i, j)
                    } by {
                        assert(so_far.has(i, j));
                        assert(so_far.cell(i, j) == if i < x || (i == x && j < y) {
                            FovCell {
                                in_fov: before.sees(ox as int, oy as int, radius as int, i, j),
                                ..before.cell(i, j)
                            }
                        } else {
                            before.cell(i, j)
                        });
                    }
                }
                y += 1;
            }
            x += 1;
        }
    }
}

/// Seeing farther never hides a tile: what an observer sees with one radius
/// it sees with every larger one.
pub proof fn lemma_sight_grows_with_radius(
    fov: FovMap,
    ox: int,
    oy: int,
    radius: int,
    larger: int,
    x: int,
    y: int,
)
    requires
        radius <= larger,
        fov.sees(ox, oy, radius, x, y),
    ensures
        fov.sees(ox, oy, larger, x, y),
{
    assert(radius * radius <= larger * larger) by (nonlinear_arith)
        requires
            0 <= radius <= larger,
    ;
}

/// An observer who sees at all sees the tile it stands on and every tile
/// next to it that is within its radius, walls included.
pub proof fn lemma_sees_around(fov: FovMap, ox: int, oy: int, radius: int, x: int, y: int)
    requires
        radius >= 0,
        -1 <= x - ox <= 1,
        -1 <= y - oy <= 1,
        (x - ox) * (x - ox) + (y - oy) * (y - oy) <= radius * radius,
    ensures
        fov.sees(ox, oy, radius, x, y),
{
}

} // verus!
