//! Axis-aligned boxes over fixed-point coordinates.
use vstd::prelude::*;

verus! {

/// Number of coordinate units in one pixel.
pub const UNITS_PER_PIXEL: i64 = 1000;

/// Largest magnitude a sample coordinate may have.
pub const COORD_MAX: i64 = 0x100_0000_0000;

/// A point in fixed-point units.
#[derive(Clone, Copy, Debug, PartialEq, Eq, Structural)]
pub struct Point {
    pub x: i64,
    pub y: i64,
}

/// An axis-aligned box; valid when `mins` is below and left of `maxs`.
#[derive(Clone, Copy, Debug, PartialEq, Eq, Structural)]
pub struct Aabb {
    pub mins: Point,
    pub maxs: Point,
}

pub open spec fn min_int(a: int, b: int) -> int {
    if a <= b { a } else { b }
}

pub open spec fn max_int(a: int, b: int) -> int {
    if a >= b { a } else { b }
}

/// Coordinates small enough that sums and differences of a few of them fit.
pub open spec fn point_in_range(p: Point) -> bool {
    -COORD_MAX <= p.x <= COORD_MAX && -COORD_MAX <= p.y <= COORD_MAX
}

impl Aabb {
    pub open spec fn is_valid(self) -> bool {
        self.mins.x <= self.maxs.x && self.mins.y <= self.maxs.y
    }

    pub open spec fn contains_point(self, p: Point) -> bool {
        self.mins.x <= p.x <= self.maxs.x && self.mins.y <= p.y <= self.maxs.y
    }

    pub open spec fn contains_box(self, o: Aabb) -> bool {
        self.mins.x <= o.mins.x && self.mins.y <= o.mins.y && o.maxs.x <= self.maxs.x
            && o.maxs.y <= self.maxs.y
    }

    /// The smallest box holding both boxes.
    pub open spec fn union(self, o: Aabb) -> Aabb {
        Aabb {
            mins: Point {
                x: min_int(self.mins.x as int, o.mins.x as int) as i64,
                y: min_int(self.mins.y as int, o.mins.y as int) as i64,
            },
            maxs: Point {
                x: max_int(self.maxs.x as int, o.maxs.x as int) as i64,
                y: max_int(self.maxs.y as int, o.maxs.y as int) as i64,
            },
        }
    }

    /// The box spanned by two corners given in any order.
    pub open spec fn spanned(a: Point, b: Point) -> Aabb {
        Aabb {
            mins: Point { x: min_int(a.x as int, b.x as int) as i64, y: min_int(a.y as int, b.y as int) as i64 },
            maxs: Point { x: max_int(a.x as int, b.x as int) as i64, y: max_int(a.y as int, b.y as int) as i64 },
        }
    }

    /// The square of half-side `r` around `c`.
    pub open spec fn around(c: Point, r: int) -> Aabb {
        Aabb {
            mins: Point { x: (c.x - r) as i64, y: (c.y - r) as i64 },
            maxs: Point { x: (c.x + r) as i64, y: (c.y + r) as i64 },
        }
    }

    /// The box grown by `r` on every side.
    pub open spec fn loosened(self, r: int) -> Aabb {
        Aabb {
            mins: Point { x: (self.mins.x - r) as i64, y: (self.mins.y - r) as i64 },
            maxs: Point { x: (self.maxs.x + r) as i64, y: (self.maxs.y + r) as i64 },
        }
    }

    /// The box with its sides moved outward onto the pixel grid.
    pub open spec fn on_grid(self) -> Aabb {
        Aabb {
            mins: Point { x: floor_to_grid(self.mins.x as int) as i64, y: floor_to_grid(self.mins.y as int) as i64 },
            maxs: Point { x: ceil_to_grid(self.maxs.x as int) as i64, y: ceil_to_grid(self.maxs.y as int) as i64 },
        }
    }

    pub open spec fn translated(self, dx: int, dy: int) -> Aabb {
        Aabb {
            mins: Point { x: (self.mins.x + dx) as i64, y: (self.mins.y + dy) as i64 },
            maxs: Point { x: (self.maxs.x + dx) as i64, y: (self.maxs.y + dy) as i64 },
        }
    }

    /// Builds the box spanned by two corners given in any order.
    pub fn new_positive(a: Point, b: Point) -> (r: Aabb)
        ensures
            r == Aabb::spanned(a, b),
            r.is_valid(),
    {
        Aabb {
            mins: Point { x: if a.x <= b.x { a.x } else { b.x }, y: if a.y <= b.y { a.y } else { b.y } },
            maxs: Point { x: if a.x >= b.x { a.x } else { b.x }, y: if a.y >= b.y { a.y } else { b.y } },
        }
    }

    /// The smallest box holding both boxes.
    pub fn merged(&self, o: &Aabb) -> (r: Aabb)
        ensures
            r == self.union(*o),
    {
        Aabb {
            mins: Point {
                x: if self.mins.x <= o.mins.x { self.mins.x } else { o.mins.x },
                y: if self.mins.y <= o.mins.y { self.mins.y } else { o.mins.y },
            },
            maxs: Point {
                x: if self.maxs.x >= o.maxs.x { self.maxs.x } else { o.maxs.x },
                y: if self.maxs.y >= o.maxs.y { self.maxs.y } else { o.maxs.y },
            },
        }
    }

    /// Grows the box by `r` on every side.
    pub fn loosen(&self, r: i64) -> (res: Aabb)
        requires
            0 <= r <= COORD_MAX,
            -4 * COORD_MAX <= self.mins.x <= 4 * COORD_MAX,
            -4 * COORD_MAX <= self.mins.y <= 4 * COORD_MAX,
            -4 * COORD_MAX <= self.maxs.x <= 4 * COORD_MAX,
            -4 * COORD_MAX <= self.maxs.y <= 4 * COORD_MAX,
        ensures
            res == self.loosened(r as int),
    {
        Aabb {
            mins: Point { x: self.mins.x - r, y: self.mins.y - r },
            maxs: Point { x: self.maxs.x + r, y: self.maxs.y + r },
        }
    }

    /// Moves each side outward to the nearest pixel boundary.
    pub fn ceil_to_grid(&self) -> (r: Aabb)
        requires
            -5 * COORD_MAX <= self.mins.x <= 5 * COORD_MAX,
            -5 * COORD_MAX <= self.mins.y <= 5 * COORD_MAX,
            -5 * COORD_MAX <= self.maxs.x <= 5 * COORD_MAX,
            -5 * COORD_MAX <= self.maxs.y <= 5 * COORD_MAX,
        ensures
            r == self.on_grid(),
            r.contains_box(*self),
    {
        Aabb {
            mins: Point { x: grid_floor(self.mins.x), y: grid_floor(self.mins.y) },
            maxs: Point { x: grid_ceil(self.maxs.x), y: grid_ceil(self.maxs.y) },
        }
    }
}

/// The largest multiple of a pixel not above `v`.
pub open spec fn floor_to_grid(v: int) -> int {
    (v / UNITS_PER_PIXEL as int) * UNITS_PER_PIXEL as int
}

/// The smallest multiple of a pixel not below `v`.
pub open spec fn ceil_to_grid(v: int) -> int {
    -floor_to_grid(-v)
}

pub proof fn lemma_floor_to_grid(v: int)
    ensures
        floor_to_grid(v) <= v < floor_to_grid(v) + UNITS_PER_PIXEL,
{
    assert(floor_to_grid(v) <= v < floor_to_grid(v) + UNITS_PER_PIXEL) by (nonlinear_arith)
        requires
            v == (v / 1000) * 1000 + v % 1000,
            0 <= v % 1000 < 1000,
            floor_to_grid(v) == (v / 1000) * 1000,
    ;
}

fn grid_floor(v: i64) -> (r: i64)
    requires
        -5 * COORD_MAX <= v <= 5 * COORD_MAX,
    ensures
        r == floor_to_grid(v as int),
        r <= v,
        -6 * COORD_MAX <= r,
{
    proof {
        lemma_floor_to_grid(v as int);
    }
    let q = v.checked_div_euclid(UNITS_PER_PIXEL).unwrap();
    q * UNITS_PER_PIXEL
}

fn grid_ceil(v: i64) -> (r: i64)
    requires
        -5 * COORD_MAX <= v <= 5 * COORD_MAX,
    ensures
        r == ceil_to_grid(v as int),
        v <= r,
        r <= 6 * COORD_MAX,
{
    proof {
        lemma_floor_to_grid(-v);
    }
    -grid_floor(-v)
}

} // verus!
