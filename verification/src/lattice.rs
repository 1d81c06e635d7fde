//! Fixed-point coordinates and the tolerances of the kernel.

use vstd::prelude::*;

verus! {

/// A point of a cube face, in lattice steps.
pub type Point2 = (i64, i64);

/// A point in space, in lattice steps.
pub type Point3 = (i64, i64, i64);

/// Lattice steps per world unit.
pub const UNIT: i64 = 1_000_000;

/// Half the side of a unit cell: the faces of a centred unit cube lie at
/// `-HALF` and `HALF`.
pub const HALF: i64 = 500_000;

/// The coordinate of the lower faces of a centred unit cube.
pub const NEG_HALF: i64 = -500_000;

/// The coincidence tolerance, a hundred-thousandth of a world unit.
pub const EPSILON: i64 = 10;

/// The coarser tolerance used when snapping vertices onto slice planes and
/// when collapsing short edges, a thousandth of a world unit.
pub const SNAP: i64 = 1_000;

/// Largest coordinate magnitude of a mesh, five hundred world units: within
/// it every sum over the faces of a mesh is computed without overflow.
pub const COORD_MAX: i64 = 500_000_000;

/// Largest number of faces of a mesh: the corners of the faces can be
/// counted in 32 bits.
pub const FACES_MAX: usize = 0x5555_5555;

pub open spec fn coord_ok(c: i64) -> bool {
    -COORD_MAX <= c <= COORD_MAX
}

pub open spec fn point3_ok(p: Point3) -> bool {
    coord_ok(p.0) && coord_ok(p.1) && coord_ok(p.2)
}

pub fn is_point3_ok(p: Point3) -> (r: bool)
    ensures
        r == point3_ok(p),
{
    -COORD_MAX <= p.0 && p.0 <= COORD_MAX && -COORD_MAX <= p.1 && p.1 <= COORD_MAX && -COORD_MAX
        <= p.2 && p.2 <= COORD_MAX
}

/// The point lies in the closed centred unit square.
pub open spec fn in_square(p: Point2) -> bool {
    -HALF <= p.0 <= HALF && -HALF <= p.1 <= HALF
}

/// The point lies on the outline of the centred unit square.
pub open spec fn on_outline(p: Point2) -> bool {
    p.0 == HALF || p.0 == -HALF || p.1 == HALF || p.1 == -HALF
}

pub fn is_on_outline(p: Point2) -> (r: bool)
    ensures
        r == on_outline(p),
{
    p.0 == HALF || p.0 == -HALF || p.1 == HALF || p.1 == -HALF
}

/// `n / d` rounded to the nearest whole number, halves away from zero.
pub open spec fn rounded(n: int, d: int) -> int {
    if n >= 0 {
        (2 * n + d) / (2 * d)
    } else {
        -((-2 * n + d) / (2 * d))
    }
}

/// The multiple of `spacing` nearest to `c`, of two equally near the one
/// further from zero.
pub open spec fn nearest_plane(c: int, spacing: int) -> int {
    rounded(c, spacing) * spacing
}

/// `c`, moved onto the nearest slice plane where that is less than `SNAP`
/// away and within the range of coordinates.
pub open spec fn snapped(c: i64, spacing: int) -> i64 {
    let plane = nearest_plane(c as int, spacing);
    if -SNAP < plane - c < SNAP && -COORD_MAX <= plane <= COORD_MAX {
        plane as i64
    } else {
        c
    }
}

/// `snapped`, for a coordinate within range.
pub fn snap(c: i64, spacing: i64) -> (r: i64)
    requires
        spacing > 0,
        coord_ok(c),
    ensures
        r == snapped(c, spacing as int),
        coord_ok(r),
{
    let d: i128 = spacing as i128;
    let twice: i128 = 2 * (c as i128);
    let q: i128 = if c >= 0 {
        let up: i128 = (twice + d) / (2 * d);
        assert(0 <= up && 0 <= up * d <= twice + d) by (nonlinear_arith)
            requires
                up == (twice + d) / (2 * d),
                d > 0,
                twice + d >= 0,
        ;
        up
    } else {
        let up: i128 = (d - twice) / (2 * d);
        assert(0 <= up && 0 <= up * d <= d - twice) by (nonlinear_arith)
            requires
                up == (d - twice) / (2 * d),
                d > 0,
                d - twice >= 0,
        ;
        assert((-up) * d == -(up * d)) by (nonlinear_arith);
        -up
    };
    assert(q == rounded(c as int, spacing as int));
    assert(-10_000_000_000_000_000_000_000 <= q * d <= 10_000_000_000_000_000_000_000);
    let plane: i128 = q * d;
    let c_wide: i128 = c as i128;
    if plane - c_wide < SNAP as i128 && c_wide - plane < SNAP as i128 && plane >= -(COORD_MAX as i128)
        && plane <= COORD_MAX as i128 {
        plane as i64
    } else {
        c
    }
}

} // verus!
