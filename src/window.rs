//! The visibility window: the square of cells within a Chebyshev radius of a
//! centre cell.
use vstd::prelude::*;
use crate::grid::GridCoord;

verus! {

/// The largest radius a window may have, so that its cell count fits in memory
/// counters on every target.
pub const MAX_RADIUS: u32 = 16383;

/// Whether `c` lies within Chebyshev distance `radius` of `center`; cells at
/// exactly that distance are included.
pub open spec fn in_window(center: GridCoord, radius: u32, c: GridCoord) -> bool {
    &&& center.x - radius <= c.x <= center.x + radius
    &&& center.y - radius <= c.y <= center.y + radius
}

pub open spec fn abs(v: int) -> int {
    if v < 0 {
        -v
    } else {
        v
    }
}

/// The window is the closed Chebyshev ball: a cell lies in it exactly when the
/// larger of its distances to the centre along the two axes is at most the
/// radius.
pub proof fn lemma_window_is_chebyshev_ball(center: GridCoord, radius: u32, c: GridCoord)
    ensures
        window_set(center, radius).contains(c) <==> vstd::math::max(
            abs(c.x - center.x),
            abs(c.y - center.y),
        ) <= radius,
{
}

pub open spec fn window_set(center: GridCoord, radius: u32) -> Set<GridCoord> {
    Set::new(|c: GridCoord| in_window(center, radius, c))
}

/// Whether every cell of the window has coordinates within `i32`.
pub open spec fn window_fits(center: GridCoord, radius: u32) -> bool {
    &&& radius <= MAX_RADIUS
    &&& i32::MIN <= center.x - radius
    &&& center.x + radius <= i32::MAX
    &&& i32::MIN <= center.y - radius
    &&& center.y + radius <= i32::MAX
}

/// Side length of a window of radius `radius`.
pub open spec fn side(radius: u32) -> int {
    2 * radius + 1
}

/// Whether `c` lies in the window of `radius` around `center`.
pub fn contains(center: GridCoord, radius: u32, c: GridCoord) -> (r: bool)
    ensures
        r == in_window(center, radius, c),
{
    let r: i64 = radius as i64;
    let dx: i64 = c.x as i64 - center.x as i64;
    let dy: i64 = c.y as i64 - center.y as i64;
    -r <= dx && dx <= r && -r <= dy && dy <= r
}

/// One axis of a centre held so that a window of `radius` around it fits in `i32`.
pub open spec fn clamp_axis(v: int, radius: u32) -> int {
    if v < i32::MIN + radius {
        i32::MIN + radius
    } else if v > i32::MAX - radius {
        i32::MAX - radius
    } else {
        v
    }
}

pub open spec fn spec_clamp_center(c: GridCoord, radius: u32) -> GridCoord {
    GridCoord { x: clamp_axis(c.x as int, radius) as i32, y: clamp_axis(c.y as int, radius) as i32 }
}

fn clamp_axis_exec(v: i32, radius: u32) -> (r: i32)
    requires
        radius <= MAX_RADIUS,
    ensures
        r == clamp_axis(v as int, radius),
{
    let lo: i64 = i32::MIN as i64 + radius as i64;
    let hi: i64 = i32::MAX as i64 - radius as i64;
    let v64: i64 = v as i64;
    if v64 < lo {
        lo as i32
    } else if v64 > hi {
        hi as i32
    } else {
        v
    }
}

/// The cell nearest to `c` around which a window of `radius` fits in `i32`:
/// `c` itself unless it lies within `radius` of the edge of the range.
pub fn clamp_center(c: GridCoord, radius: u32) -> (r: GridCoord)
    requires
        radius <= MAX_RADIUS,
    ensures
        r == spec_clamp_center(c, radius),
        window_fits(r, radius),
{
    GridCoord { x: clamp_axis_exec(c.x, radius), y: clamp_axis_exec(c.y, radius) }
}

/// The cells of the window of `radius` around `center`, row by row from the
/// lowest `y`, each row from the lowest `x`.
///
/// Each cell of the window appears exactly once, so the window has
/// `(2 * radius + 1)²` cells.
pub fn window_tiles(center: GridCoord, radius: u32) -> (r: Vec<GridCoord>)
    requires
        window_fits(center, radius),
    ensures
        r@.no_duplicates(),
        forall|c: GridCoord| r@.contains(c) <==> in_window(center, radius, c),
        r@.to_set() == window_set(center, radius),
        r@.len() == side(radius) * side(radius),
        window_set(center, radius).len() == side(radius) * side(radius),
{
    let w: i64 = 2 * radius as i64 + 1;
    let x0: i64 = center.x as i64 - radius as i64;
    let x1: i64 = center.x as i64 + radius as i64;
    let y0: i64 = center.y as i64 - radius as i64;
    let y1: i64 = center.y as i64 + radius as i64;
    let mut out: Vec<GridCoord> = Vec::new();
    let mut y: i64 = y0;
    while y <= y1
        invariant
            window_fits(center, radius),
            w == side(radius),
            x0 == center.x - radius,
            x1 == center.x + radius,
            y0 == center.y - radius,
            y1 == center.y + radius,
            y0 <= y <= y1 + 1,
            out@.no_duplicates(),
            forall|c: GridCoord| out@.contains(c) <==> (in_window(center, radius, c) && c.y < y),
            out@.len() == (y - y0) * w,
        decreases y1 + 1 - y,
    {
        let mut x: i64 = x0;
        while x <= x1
            invariant
                window_fits(center, radius),
                w == side(radius),
                x0 == center.x - radius,
                x1 == center.x + radius,
                y0 == center.y - radius,
                y1 == center.y + radius,
                y0 <= y <= y1,
                x0 <= x <= x1 + 1,
                out@.no_duplicates(),
                forall|c: GridCoord|
                    out@.contains(c) <==> (in_window(center, radius, c) && (c.y < y || (c.y == y
                        && c.x < x))),
                out@.len() == (y - y0) * w + (x - x0),
            decreases x1 + 1 - x,
        {
            let c = GridCoord { x: x as i32, y: y as i32 };
            let ghost before = out@;
            assert(!before.contains(c));
            out.push(c);
            proof {
                assert forall|i: int, j: int|
                    0 <= i < out@.len() && 0 <= j < out@.len() && i != j implies out@[i]
                    != out@[j] by {
                    if i < before.len() && j < before.len() {
                        assert(out@[i] == before[i] && out@[j] == before[j]);
                    } else if i < before.len() {
                        assert(before.contains(out@[i]));
                    } else {
                        assert(before.contains(out@[j]));
                    }
                }
                assert forall|d: GridCoord| #[trigger] out@.contains(d) implies (in_window(center, radius, d)
                    && (d.y < y || (d.y == y && d.x < x + 1))) by {
                    if d != c {
                        let i = choose|i: int| 0 <= i < out@.len() && out@[i] == d;
                        assert(before[i] == d);
                    }
                }
                assert forall|d: GridCoord| (in_window(center, radius, d)
                    && (d.y < y || (d.y == y && d.x < x + 1))) implies #[trigger] out@.contains(d) by {
                    if d != c {
                        assert(before.contains(d));
                        let i = choose|i: int| 0 <= i < before.len() && before[i] == d;
                        assert(out@[i] == d);
                    } else {
                        assert(out@[before.len() as int] == c);
                    }
                }
            }
            x = x + 1;
        }
        assert((y + 1 - y0) * w == (y - y0) * w + w) by (nonlinear_arith);
        y = y + 1;
    }
    proof {
        assert(out@.to_set() =~= window_set(center, radius));
        out@.unique_seq_to_set();
        assert((y1 + 1 - y0) * w == w * w);
    }
    out
}

} // verus!
