//! Mapping between continuous world positions and discrete grid cells.
//!
//! World positions are fixed-point integers in a unit chosen by the host; the
//! tile edge length is given in the same unit.
use vstd::prelude::*;

verus! {

/// A tile cell of the grid.
#[derive(Clone, Copy, Debug, PartialEq, Eq, Structural, Hash)]
pub struct GridCoord {
    pub x: i32,
    pub y: i32,
}

/// A position in the world, in fixed-point units.
#[derive(Clone, Copy, Debug, PartialEq, Eq, Structural, Hash)]
pub struct WorldPos {
    pub x: i64,
    pub y: i64,
}

/// The viewpoint to stream around: the camera's position, or the origin when
/// there is no camera.
pub fn viewpoint_or_origin(camera: Option<WorldPos>) -> (r: WorldPos)
    ensures
        r == (match camera {
            Some(p) => p,
            None => WorldPos { x: 0, y: 0 },
        }),
{
    match camera {
        Some(p) => p,
        None => WorldPos { x: 0, y: 0 },
    }
}

/// `n / d` rounded to the nearest integer, halves away from zero.
pub open spec fn round_div(n: int, d: int) -> int {
    if n >= 0 {
        (2 * n + d) / (2 * d)
    } else {
        -((-2 * n + d) / (2 * d))
    }
}

/// `v` held to the range of `i32`.
pub open spec fn clamp_i32(v: int) -> int {
    if v < i32::MIN {
        i32::MIN as int
    } else if v > i32::MAX {
        i32::MAX as int
    } else {
        v
    }
}

pub open spec fn spec_to_grid(p: WorldPos, edge: u32) -> GridCoord {
    GridCoord {
        x: clamp_i32(round_div(p.x as int, edge as int)) as i32,
        y: clamp_i32(round_div(p.y as int, edge as int)) as i32,
    }
}

pub open spec fn spec_to_world(c: GridCoord, edge: u32) -> WorldPos {
    WorldPos { x: (c.x * edge) as i64, y: (c.y * edge) as i64 }
}

proof fn lemma_product_fits(c: int, edge: int)
    requires
        i32::MIN <= c <= i32::MAX,
        0 <= edge <= u32::MAX,
    ensures
        i64::MIN <= c * edge <= i64::MAX,
{
    assert(i64::MIN <= c * edge <= i64::MAX) by (nonlinear_arith)
        requires
            -0x8000_0000 <= c <= 0x7fff_ffff,
            0 <= edge <= 0xffff_ffff,
    ;
}

/// The cell index of `n` on one axis: `n / edge` rounded, held to `i32`.
fn axis_to_grid(n: i64, edge: u32) -> (r: i32)
    requires
        edge > 0,
    ensures
        r == clamp_i32(round_div(n as int, edge as int)),
{
    let d: u128 = 2 * (edge as u128);
    let q: i128 = if n >= 0 {
        let m: u128 = n as u128;
        ((2 * m + edge as u128) / d) as i128
    } else {
        let m: u128 = (-(n as i128)) as u128;
        -(((2 * m + edge as u128) / d) as i128)
    };
    proof {
        let m = if n >= 0 { n as int } else { -n };
        assert(0 <= (2 * m + edge) / (2 * edge) <= 2 * m + edge) by {
            vstd::arithmetic::div_mod::lemma_div_is_ordered_by_denominator(2 * m + edge, 1, 2 * edge);
            vstd::arithmetic::div_mod::lemma_div_pos_is_pos(2 * m + edge, 2 * edge);
        }
    }
    if q < i32::MIN as i128 {
        i32::MIN
    } else if q > i32::MAX as i128 {
        i32::MAX
    } else {
        q as i32
    }
}

/// The cell that holds world position `p`, for tiles of edge length `edge`.
///
/// Each axis is divided by `edge` and rounded to the nearest integer (halves
/// away from zero); a result beyond the range of `i32` is held to its bound.
pub fn to_grid(p: WorldPos, edge: u32) -> (r: GridCoord)
    requires
        edge > 0,
    ensures
        r == spec_to_grid(p, edge),
{
    GridCoord { x: axis_to_grid(p.x, edge), y: axis_to_grid(p.y, edge) }
}

/// The anchor of cell `c` in the world: each axis times `edge`.
pub fn to_world(c: GridCoord, edge: u32) -> (r: WorldPos)
    ensures
        r == spec_to_world(c, edge),
        r.x == c.x * edge,
        r.y == c.y * edge,
{
    proof {
        lemma_product_fits(c.x as int, edge as int);
        lemma_product_fits(c.y as int, edge as int);
    }
    WorldPos { x: c.x as i64 * edge as i64, y: c.y as i64 * edge as i64 }
}

proof fn lemma_round_div_multiple(c: int, d: int)
    requires
        d > 0,
    ensures
        round_div(c * d, d) == c,
{
    if c >= 0 {
        assert(c * d >= 0) by (nonlinear_arith)
            requires
                c >= 0,
                d > 0,
        ;
        assert(2 * (c * d) + d == c * (2 * d) + d) by (nonlinear_arith);
        vstd::arithmetic::div_mod::lemma_fundamental_div_mod_converse(2 * (c * d) + d, 2 * d, c, d);
    } else {
        assert(c * d < 0) by (nonlinear_arith)
            requires
                c < 0,
                d > 0,
        ;
        assert(-2 * (c * d) + d == (-c) * (2 * d) + d) by (nonlinear_arith);
        vstd::arithmetic::div_mod::lemma_fundamental_div_mod_converse(-2 * (c * d) + d, 2 * d, -c, d);
    }
}

/// Mapping a cell to the world and back gives the same cell.
pub proof fn lemma_grid_world_round_trip(c: GridCoord, edge: u32)
    requires
        edge > 0,
    ensures
        spec_to_grid(spec_to_world(c, edge), edge) == c,
{
    lemma_product_fits(c.x as int, edge as int);
    lemma_product_fits(c.y as int, edge as int);
    lemma_round_div_multiple(c.x as int, edge as int);
    lemma_round_div_multiple(c.y as int, edge as int);
}

} // verus!
