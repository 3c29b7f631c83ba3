//! The scalar fields behind the patterns: where a pixel lies relative to the
//! centre of the frame, and the wave that each pattern puts there.
use crate::common::WindowDimensions;
use crate::fixed::{
    atan2, atan2_spec, div_floor, isqrt, isqrt_spec, multiply, multiply_spec, sin, sin_spec, ONE,
    PI,
};
use vstd::prelude::*;

verus! {

/// Where a pixel lies relative to the centre of the frame, in units of half
/// the shorter side.
#[derive(Debug, Clone, Copy, PartialEq, Eq, Structural)]
pub struct Position {
    /// Horizontal offset from the centre.
    pub x: i64,
    /// Vertical offset from the centre.
    pub y: i64,
    /// Euclidean distance from the centre.
    pub dist: i64,
    /// Angle of the offset against the positive x axis, in radians.
    pub angle: i64,
}

/// The mathematical content of a [`Position`].
pub struct Place {
    pub x: int,
    pub y: int,
    pub dist: int,
    pub angle: int,
}

impl View for Position {
    type V = Place;

    open spec fn view(&self) -> Place {
        Place { x: self.x as int, y: self.y as int, dist: self.dist as int, angle: self.angle as int }
    }
}

/// The shorter side of a frame.
pub open spec fn shorter_side(width: int, height: int) -> int {
    if width <= height {
        width
    } else {
        height
    }
}

/// The place of the pixel in column `col` and row `row` of a frame.
///
/// The centre of the frame lies at half its width and height, so the doubled
/// offsets `2 col - width` and `2 row - height` are whole numbers; dividing
/// them by the shorter side measures in units of half that side. The
/// distance is the integer square root of the squared doubled offsets,
/// carried to 16 fractional bits before the division.
pub open spec fn place_spec(width: int, height: int, col: int, row: int) -> Place {
    let cx = 2 * col - width;
    let cy = 2 * row - height;
    let m = shorter_side(width, height);
    Place {
        x: (cx * ONE) / m,
        y: (cy * ONE) / m,
        dist: isqrt_spec(((cx * cx + cy * cy) * ONE * ONE) as nat) as int / m,
        angle: atan2_spec(cy, cx),
    }
}

proof fn lemma_offset_bounds(c: int, m: int)
    by (nonlinear_arith)
    requires
        -0x1_0000_0000 <= c <= 0x1_0000_0000,
        1 <= m,
    ensures
        -0x1_0000_0000_0000 <= (c * ONE) / m <= 0x1_0000_0000_0000,
        0 <= c * c <= 0x1_0000_0000_0000_0000,
{
    let a = c * ONE;
    assert(a == m * (a / m) + a % m && 0 <= a % m < m);
    if a / m > 0x1_0000_0000_0000 {
        assert(m * (a / m) >= a / m);
    }
    if a / m < -0x1_0000_0000_0000 {
        assert(m * (a / m) <= a / m);
    }
}

proof fn lemma_root_bounds(n: int, root: int, m: int)
    by (nonlinear_arith)
    requires
        0 <= n <= 0x4_0000_0000_0000_0000_0000_0000,
        0 <= root,
        root * root <= n,
        1 <= m,
    ensures
        root <= 0x2_0000_0000_0000,
        0 <= root / m <= 0x2_0000_0000_0000,
{
    if root > 0x2_0000_0000_0000 {
        assert(root * root >= 0x2_0000_0000_0001 * 0x2_0000_0000_0001);
    }
    assert(root == m * (root / m) + root % m && 0 <= root % m < m);
    if root / m > root {
        assert(m * (root / m) >= root / m);
    }
    if root / m < 0 {
        assert(m * (root / m) <= -m);
    }
}

/// Locates the pixel in column `col` and row `row` of a frame.
pub fn position(dim: &WindowDimensions, col: usize, row: usize) -> (p: Position)
    requires
        dim.wf(),
        col < dim.width,
        row < dim.height,
    ensures
        p@ == place_spec(dim.width as int, dim.height as int, col as int, row as int),
        0 <= p.dist,
        -PI <= p.angle <= PI,
{
    let w: i128 = dim.width as i128;
    let h: i128 = dim.height as i128;
    let cx: i128 = 2 * (col as i128) - w;
    let cy: i128 = 2 * (row as i128) - h;
    let m: i128 = if w <= h { w } else { h };
    proof {
        lemma_offset_bounds(cx as int, m as int);
        lemma_offset_bounds(cy as int, m as int);
    }
    let x: i128 = div_floor(cx * (ONE as i128), m);
    let y: i128 = div_floor(cy * (ONE as i128), m);
    let squares: i128 = cx * cx + cy * cy;
    let n: u128 = (squares as u128) * 0x1_0000_0000;
    assert(n == (cx * cx + cy * cy) * ONE * ONE);
    let root: u128 = isqrt(n);
    proof {
        lemma_root_bounds(n as int, root as int, m as int);
    }
    let dist: i128 = div_floor(root as i128, m);
    let angle: i64 = atan2(cy as i64, cx as i64);
    Position { x: x as i64, y: y as i64, dist: dist as i64, angle }
}

/// Concentric waves that travel outward: `sin(dist * scale - 2 time)`.
pub open spec fn ripple_spec(dist: int, scale: int, time: int) -> int {
    sin_spec(multiply_spec(dist, scale) - 2 * time)
}

/// A three-armed rotating spiral: `sin(dist * scale + 3 angle + time)`.
pub open spec fn spiral_spec(dist: int, angle: int, scale: int, time: int) -> int {
    sin_spec(multiply_spec(dist, scale) + 3 * angle + time)
}

/// Rings crossed by two rotating lobes:
/// `sin(dist * scale + time) + sin(2 angle + time)`.
pub open spec fn circle_spec(dist: int, angle: int, scale: int, time: int) -> int {
    sin_spec(multiply_spec(dist, scale) + time) + sin_spec(2 * angle + time)
}

/// A grid of drifting cells: `sin(x * scale + time) * sin(y * scale + time)`.
pub open spec fn square_spec(x: int, y: int, scale: int, time: int) -> int {
    multiply_spec(
        sin_spec(multiply_spec(x, scale) + time),
        sin_spec(multiply_spec(y, scale) + time),
    )
}

/// A fixed grid overlaid with a coarser drifting one:
/// `sin(10 x) * sin(10 y) + sin(5 (x + time)) * sin(5 (y + time))`.
pub open spec fn checkerboard_spec(x: int, y: int, time: int) -> int {
    multiply_spec(sin_spec(10 * x), sin_spec(10 * y)) + multiply_spec(
        sin_spec(5 * (x + time)),
        sin_spec(5 * (y + time)),
    )
}

/// The product of two numbers between minus one and one lies there too.
proof fn lemma_unit_product(a: int, b: int)
    by (nonlinear_arith)
    requires
        -ONE <= a <= ONE,
        -ONE <= b <= ONE,
    ensures
        -ONE <= multiply_spec(a, b) <= ONE,
{
    let p = a * b;
    assert(-ONE * ONE <= p <= ONE * ONE);
    assert(p == ONE * (p / (ONE as int)) + p % (ONE as int) && 0 <= p % (ONE as int) < ONE);
}

/// At scale zero the place no longer matters to the ripple and the square,
/// which become functions of the time alone, and matters to the spiral and
/// the circle through the angle only.
pub proof fn lemma_zero_scale(place: Place, time: int)
    ensures
        ripple_spec(place.dist, 0, time) == sin_spec(-2 * time),
        spiral_spec(place.dist, place.angle, 0, time) == sin_spec(3 * place.angle + time),
        circle_spec(place.dist, place.angle, 0, time) == sin_spec(time) + sin_spec(
            2 * place.angle + time,
        ),
        square_spec(place.x, place.y, 0, time) == multiply_spec(sin_spec(time), sin_spec(time)),
{
    assert(place.dist * 0 == 0 && place.x * 0 == 0 && place.y * 0 == 0) by (nonlinear_arith);
}

/// The ripple pattern at a distance from the centre.
pub fn ripple(dist: i64, scale: i64, time: i64) -> (v: i64)
    ensures
        v == ripple_spec(dist as int, scale as int, time as int),
        -ONE <= v <= ONE,
{
    sin(multiply(dist, scale) - 2 * (time as i128))
}

/// The spiral pattern at a distance and an angle.
pub fn spiral(dist: i64, angle: i64, scale: i64, time: i64) -> (v: i64)
    ensures
        v == spiral_spec(dist as int, angle as int, scale as int, time as int),
        -ONE <= v <= ONE,
{
    sin(multiply(dist, scale) + 3 * (angle as i128) + (time as i128))
}

/// The circle pattern at a distance and an angle.
pub fn circle(dist: i64, angle: i64, scale: i64, time: i64) -> (v: i64)
    ensures
        v == circle_spec(dist as int, angle as int, scale as int, time as int),
        -2 * ONE <= v <= 2 * ONE,
{
    let rings: i64 = sin(multiply(dist, scale) + (time as i128));
    let lobes: i64 = sin(2 * (angle as i128) + (time as i128));
    rings + lobes
}

/// The square pattern at a horizontal and a vertical offset.
pub fn square(x: i64, y: i64, scale: i64, time: i64) -> (v: i64)
    ensures
        v == square_spec(x as int, y as int, scale as int, time as int),
        -ONE <= v <= ONE,
{
    let across: i64 = sin(multiply(x, scale) + (time as i128));
    let down: i64 = sin(multiply(y, scale) + (time as i128));
    proof {
        lemma_unit_product(across as int, down as int);
    }
    multiply(across, down) as i64
}

/// The checkerboard pattern at a horizontal and a vertical offset.
pub fn checkerboard(x: i64, y: i64, time: i64) -> (v: i64)
    ensures
        v == checkerboard_spec(x as int, y as int, time as int),
        -2 * ONE <= v <= 2 * ONE,
{
    let fine_across: i64 = sin(10 * (x as i128));
    let fine_down: i64 = sin(10 * (y as i128));
    let coarse_across: i64 = sin(5 * ((x as i128) + (time as i128)));
    let coarse_down: i64 = sin(5 * ((y as i128) + (time as i128)));
    proof {
        lemma_unit_product(fine_across as int, fine_down as int);
        lemma_unit_product(coarse_across as int, coarse_down as int);
    }
    (multiply(fine_across, fine_down) + multiply(coarse_across, coarse_down)) as i64
}

/// Brings a field value from `-ONE..=ONE` into `0..=ONE`: half the value
/// plus one half, rounded toward negative infinity.
pub open spec fn normalize_spec(v: int) -> int {
    (v + ONE) / 2
}

/// Brings a field value from `-ONE..=ONE` into `0..=ONE`.
///
/// A sum of two waves may leave the range on either side; it is mapped by
/// the same line and left outside `0..=ONE`.
pub fn normalize(v: i64) -> (n: i64)
    ensures
        n == normalize_spec(v as int),
{
    div_floor((v as i128) + (ONE as i128), 2) as i64
}

} // verus!
