//! What every effect shares: frame dimensions and their validation, the
//! effect trait, colour conversion and pixel packing.
use crate::fixed::{magnitude, ONE};
use vstd::arithmetic::div_mod::{lemma_fundamental_div_mod_converse, lemma_mod_multiples_vanish};
use vstd::prelude::*;

verus! {

/// The largest width or height that a frame may have.
pub const MAX_DIMENSION: usize = 0xffff_ffff;

/// Sixty degrees of hue: the width of one sector of the colour hexagon.
pub const SECTOR: i64 = 3932160;

/// The denominator of exact colour components: `ONE * ONE * SECTOR`.
pub const COMPONENT_UNIT: u64 = 16888498602639360;

/// The full circle of hues, 360 degrees.
pub const HUE_CIRCLE: i64 = 23592960;

/// Why a pair of dimensions cannot be rendered into.
#[derive(Debug, Clone, Copy, PartialEq, Eq, Structural)]
pub enum ConfigurationError {
    /// The width or the height is zero.
    EmptyDimension,
    /// The width or the height exceeds [`MAX_DIMENSION`], or the number of
    /// pixels does not fit the address space.
    DimensionTooLarge,
}

/// A buffer was offered whose length is not the number of pixels of the frame.
#[derive(Debug, Clone, Copy, PartialEq, Eq, Structural)]
pub struct BufferSizeMismatch {
    /// The number of pixels of the frame.
    pub expected: usize,
    /// The length of the buffer that was offered.
    pub actual: usize,
}

/// Represents the dimensions of a window or buffer.
#[derive(Debug, Clone, Copy, PartialEq, Eq, Structural)]
pub struct WindowDimensions {
    /// The width of the window or buffer in pixels
    pub width: usize,
    /// The height of the window or buffer in pixels
    pub height: usize,
}

/// The verdict on a pair of dimensions: the reason they are refused, if any.
pub open spec fn dimension_fault(width: int, height: int) -> Option<ConfigurationError> {
    if width <= 0 || height <= 0 {
        Some(ConfigurationError::EmptyDimension)
    } else if width > MAX_DIMENSION || height > MAX_DIMENSION || width * height > usize::MAX {
        Some(ConfigurationError::DimensionTooLarge)
    } else {
        None
    }
}

impl WindowDimensions {
    /// Neither side is zero or over the limit, and the pixel count fits.
    pub open spec fn wf(&self) -> bool {
        dimension_fault(self.width as int, self.height as int) is None
    }

    /// The number of pixels of a frame, which is the length of its buffer.
    pub open spec fn pixels_spec(&self) -> nat {
        (self.width * self.height) as nat
    }

    /// The number of pixels of a frame.
    pub fn pixels(&self) -> (n: usize)
        requires
            self.wf(),
        ensures
            n == self.pixels_spec(),
            n > 0,
    {
        assert(self.width * self.height > 0) by (nonlinear_arith)
            requires
                self.width > 0,
                self.height > 0,
        ;
        self.width * self.height
    }
}

/// Accepts a width and a height that a frame can have, and says why the
/// others are refused.
pub fn check_dimensions(width: usize, height: usize) -> (r: Result<
    WindowDimensions,
    ConfigurationError,
>)
    ensures
        match r {
            Ok(dim) => dimension_fault(width as int, height as int) is None && dim.width == width
                && dim.height == height && dim.wf(),
            Err(e) => dimension_fault(width as int, height as int) == Some(e),
        },
{
    if width == 0 || height == 0 {
        return Err(ConfigurationError::EmptyDimension);
    }
    if width > MAX_DIMENSION || height > MAX_DIMENSION {
        return Err(ConfigurationError::DimensionTooLarge);
    }
    match width.checked_mul(height) {
        Some(_) => Ok(WindowDimensions { width, height }),
        None => Err(ConfigurationError::DimensionTooLarge),
    }
}

/// Base structure for demo effects: what every effect is configured with
#[derive(Debug, Clone, Copy, PartialEq, Eq, Structural)]
pub struct DemoBase {
    pub dim: WindowDimensions,
}

impl DemoBase {
    /// The base of an effect over a frame of the given size; fails on a size
    /// that no frame can have.
    pub fn new(width: usize, height: usize) -> (r: Result<Self, ConfigurationError>)
        ensures
            match r {
                Ok(base) => dimension_fault(width as int, height as int) is None && base.dim.width
                    == width && base.dim.height == height && base.dim.wf(),
                Err(e) => dimension_fault(width as int, height as int) == Some(e),
            },
    {
        match check_dimensions(width, height) {
            Ok(dim) => Ok(Self { dim }),
            Err(e) => Err(e),
        }
    }
}

/// Trait for implementing demo effects that can be rendered to a buffer
pub trait DemoEffect {
    /// The frame that the effect shows at `time`: one ARGB pixel per
    /// position, row by row.
    spec fn frame(&self, time: int) -> Seq<u32>;

    /// Draws the demo effect into the provided buffer
    ///
    /// # Arguments
    ///
    /// * `buffer` - Mutable slice of 32-bit unsigned integers representing the pixel buffer
    /// * `time` - Current time in seconds since the start of the demo, in 16.16 fixed point
    ///
    /// A buffer of the wrong length is refused and left as it was; any other
    /// buffer is overwritten in full.
    fn draw(&self, buffer: &mut [u32], time: i64) -> (r: Result<(), BufferSizeMismatch>)
        ensures
            r is Ok <==> old(buffer)@.len() == self.frame(time as int).len(),
            r is Ok ==> final(buffer)@ == self.frame(time as int),
            r matches Err(e) ==> final(buffer)@ == old(buffer)@ && e.expected == self.frame(
                time as int,
            ).len() && e.actual == old(buffer)@.len(),
    ;
}

/// The frame of `width` by `height` pixels whose pixel in column `col` and
/// row `row` is `pixel(col, row)`: the rows one after another, each from
/// left to right.
pub open spec fn raster(width: nat, height: nat, pixel: spec_fn(int, int) -> u32) -> Seq<u32> {
    Seq::new(width * height, |i: int| pixel(i % (width as int), i / (width as int)))
}

/// The first `count` slots of `buffer` hold the pixels of the frame.
pub(crate) open spec fn drawn(
    buffer: Seq<u32>,
    width: nat,
    count: int,
    pixel: spec_fn(int, int) -> u32,
) -> bool {
    forall|i: int|
        0 <= i < count ==> #[trigger] buffer[i] == pixel(i % (width as int), i / (width as int))
}

/// In a frame laid out row by row, the pixel in column `col` of row `row`
/// has the index `row * width + col`, and no other pixel has it.
pub proof fn lemma_row_major(width: int, height: int, col: int, row: int)
    requires
        0 <= col < width,
        0 <= row < height,
    ensures
        0 <= row * width + col < width * height,
        (row * width + col) % width == col,
        (row * width + col) / width == row,
{
    assert(0 <= row * width && row * width + width <= height * width && height * width == width
        * height) by (nonlinear_arith)
        requires
            0 <= row < height,
            0 < width,
    ;
    lemma_fundamental_div_mod_converse(row * width + col, width, row, col);
}

/// A frame has one pixel for every position and nothing else: its length
/// is `width * height`, and the slot of column `col` in row `row` holds
/// `pixel(col, row)`.
pub proof fn lemma_raster_covers(
    width: nat,
    height: nat,
    pixel: spec_fn(int, int) -> u32,
    col: int,
    row: int,
)
    requires
        0 <= col < width,
        0 <= row < height,
    ensures
        raster(width, height, pixel).len() == width * height,
        0 <= row * width + col < width * height,
        raster(width, height, pixel)[row * width + col] == pixel(col, row),
{
    lemma_row_major(width as int, height as int, col, row);
}

/// The 8-bit level of the fraction `num / den` of full intensity:
/// `255 * num / den` rounded to the nearest integer, halves upward, and
/// limited to `0..=255`.
///
/// This is the one narrowing policy of the crate: every colour component
/// becomes a channel through it.
pub open spec fn level_spec(num: int, den: int) -> u8 {
    let q = (510 * num + den) / (den + den);
    if q < 0 {
        0u8
    } else if q > 255 {
        255u8
    } else {
        q as u8
    }
}

/// Far enough outside the unit range the level no longer moves: a fraction
/// of two or more is level 255, a negative one of a hundredth or more is
/// level 0.
proof fn lemma_level_saturates(num: int, den: int)
    by (nonlinear_arith)
    requires
        den > 0,
    ensures
        num >= den + den ==> (510 * num + den) / (den + den) > 255,
        510 * num + den < 0 ==> (510 * num + den) / (den + den) < 0,
{
    let d = den + den;
    let a = 510 * num + den;
    assert(a == d * (a / d) + a % d && 0 <= a % d < d);
    if num >= d && a / d <= 255 {
        assert(d * (a / d) <= d * 255);
    }
    if a < 0 && a / d >= 0 {
        assert(d * (a / d) >= 0);
    }
}

/// The 8-bit level of `num / den`.
///
/// A fraction outside the unit range is settled by comparison alone; for
/// one inside it, and a denominator below `2^54`, the quotient fits 64 bits.
pub fn level(num: i128, den: u64) -> (q: u8)
    requires
        den > 0,
    ensures
        q == level_spec(num as int, den as int),
{
    proof {
        lemma_level_saturates(num as int, den as int);
    }
    let unit: i128 = den as i128;
    if num >= 2 * unit {
        255
    } else if num <= -unit || 510 * num + unit < 0 {
        0
    } else if den < 0x40_0000_0000_0000 {
        let top: u64 = (510 * num + unit) as u64;
        let q: u64 = top / (2 * den);
        if q > 255 {
            255
        } else {
            q as u8
        }
    } else {
        let q: i128 = (510 * num + unit) / (2 * unit);
        if q > 255 {
            255
        } else {
            q as u8
        }
    }
}

/// How far into the rising or falling ramp of its pair of sectors a
/// normalized hue lies: zero at 0 and 120 degrees, [`SECTOR`] at 60.
pub open spec fn ramp_spec(hue: int) -> int {
    SECTOR - magnitude(hue % (SECTOR + SECTOR) - SECTOR)
}

/// The colour of a hue in degrees, a saturation and a value.
///
/// The hue is normalized into `0..360` degrees. With the chroma
/// `c = value * saturation`, the secondary component `x = c * ramp` and the
/// offset `m = value - c`, the sector of the hue picks the place of
/// `c`, `x` and zero among red, green and blue; each channel is the level of
/// its component plus `m`. The components are kept exact over the common
/// denominator `ONE * ONE * SECTOR`, so the only rounding is the final one.
pub open spec fn hsv_to_rgb_spec(h: int, s: int, v: int) -> (u8, u8, u8) {
    let hue = h % (HUE_CIRCLE as int);
    let c = v * s * SECTOR;
    let x = v * (s * ramp_spec(hue));
    let m = (v * ONE - v * s) * SECTOR;
    let den = COMPONENT_UNIT as int;
    let sector = hue / (SECTOR as int);
    let (r, g, b): (int, int, int) = if sector == 0 {
        (c, x, 0)
    } else if sector == 1 {
        (x, c, 0)
    } else if sector == 2 {
        (0, c, x)
    } else if sector == 3 {
        (0, x, c)
    } else if sector == 4 {
        (x, 0, c)
    } else {
        (c, 0, x)
    };
    (level_spec(r + m, den), level_spec(g + m, den), level_spec(b + m, den))
}

/// A product has the sign that its factors give it.
proof fn lemma_product_sign(a: int, b: int)
    by (nonlinear_arith)
    ensures
        (a < 0) == (b < 0) ==> a * b >= 0,
        (a < 0) != (b < 0) ==> a * b <= 0,
{
}

/// The level of the component `v * weight`, over the common denominator.
/// The product is formed with a check: where it does not fit, the level is
/// saturated on the side of its sign.
fn weighted_level(v: i64, weight: i128) -> (q: u8)
    ensures
        q == level_spec(v * weight, COMPONENT_UNIT as int),
{
    proof {
        lemma_level_saturates(v * weight, COMPONENT_UNIT as int);
        lemma_product_sign(v as int, weight as int);
    }
    match (v as i128).checked_mul(weight) {
        Some(product) => level(product, COMPONENT_UNIT),
        None => {
            if (v < 0) == (weight < 0) {
                255
            } else {
                0
            }
        },
    }
}

/// Each component plus the offset is the value times a weight that depends
/// on the saturation and the ramp alone.
proof fn lemma_component_weights(s: int, v: int, ramp: int)
    by (nonlinear_arith)
    ensures
        v * s * SECTOR + (v * ONE - v * s) * SECTOR == v * (ONE * SECTOR),
        v * (s * ramp) + (v * ONE - v * s) * SECTOR == v * (s * ramp + (ONE - s) * SECTOR),
        0 + (v * ONE - v * s) * SECTOR == v * ((ONE - s) * SECTOR),
{
}

proof fn lemma_weight_bounds(s: int, ramp: int)
    by (nonlinear_arith)
    requires
        -0x8000_0000_0000_0000 <= s < 0x8000_0000_0000_0000,
        0 <= ramp <= SECTOR,
    ensures
        -0x8000_0000_0000_0000 * SECTOR <= s * ramp <= 0x8000_0000_0000_0000 * SECTOR,
        -0x8000_0000_0001_0000 * SECTOR <= (ONE - s) * SECTOR <= 0x8000_0000_0001_0000 * SECTOR,
{
}

/// Converts HSV (Hue, Saturation, Value) color values to RGB (Red, Green, Blue)
///
/// # Arguments
///
/// * `h` - Hue angle in degrees, any number of turns away from `0..360`
/// * `s` - Saturation, nominally in `0..=ONE`
/// * `v` - Value/brightness, nominally in `0..=ONE`
///
/// All three are 16.16 fixed-point numbers. A saturation or value outside
/// its nominal range is computed with as it stands, and each channel is
/// limited to `0..=255` at the end.
///
/// # Returns
///
/// A tuple of (red, green, blue) values as 8-bit unsigned integers [0, 255]
pub fn hsv_to_rgb(h: i64, s: i64, v: i64) -> (rgb: (u8, u8, u8))
    ensures
        rgb == hsv_to_rgb_spec(h as int, s as int, v as int),
        s == 0 ==> rgb.0 == rgb.1 && rgb.1 == rgb.2 && rgb.2 == level_spec(v as int, ONE as int),
        v == 0 ==> rgb == (0u8, 0u8, 0u8),
{
    proof {
        lemma_hsv_unsaturated_is_gray(h as int, v as int);
        lemma_hsv_black(h as int, s as int);
    }
    let hue: i64 = crate::fixed::rem_floor(h as i128, HUE_CIRCLE as i128) as i64;
    let fold: i64 = hue % (2 * SECTOR) - SECTOR;
    let ramp: i64 = if fold < 0 { SECTOR + fold } else { SECTOR - fold };
    proof {
        lemma_weight_bounds(s as int, ramp as int);
        lemma_component_weights(s as int, v as int, ramp as int);
    }
    let low_weight: i128 = ((ONE as i128) - (s as i128)) * (SECTOR as i128);
    let mid_weight: i128 = (s as i128) * (ramp as i128) + low_weight;
    let high: u8 = weighted_level(v, (ONE as i128) * (SECTOR as i128));
    let mid: u8 = weighted_level(v, mid_weight);
    let low: u8 = weighted_level(v, low_weight);
    let sector: i64 = hue / SECTOR;
    if sector == 0 {
        (high, mid, low)
    } else if sector == 1 {
        (mid, high, low)
    } else if sector == 2 {
        (low, high, mid)
    } else if sector == 3 {
        (low, mid, high)
    } else if sector == 4 {
        (mid, low, high)
    } else {
        (high, low, mid)
    }
}

/// Without saturation every hue is a grey: all three channels are the level
/// of the value.
pub proof fn lemma_hsv_unsaturated_is_gray(h: int, v: int)
    ensures
        hsv_to_rgb_spec(h, 0, v) == (
            level_spec(v, ONE as int),
            level_spec(v, ONE as int),
            level_spec(v, ONE as int),
        ),
{
    let k = ONE * SECTOR;
    let den = COMPONENT_UNIT as int;
    assert(v * 0 == 0 && v * 0 * SECTOR == 0 && v * (0 * ramp_spec(h % (HUE_CIRCLE as int)))
        == 0) by (nonlinear_arith);
    assert((v * ONE - v * 0) * SECTOR == v * k && den == ONE * k && den + den == (ONE + ONE) * k
        && (510 * v + ONE) * k == 510 * (v * k) + den) by (nonlinear_arith)
        requires
            k == ONE * SECTOR,
            ONE == 65536,
            SECTOR == 3932160,
            den == 16888498602639360,
    ;
    lemma_scaled_quotient(510 * v + ONE, ONE + ONE, k);
}

/// A common positive factor of numerator and denominator cancels.
proof fn lemma_scaled_quotient(n: int, d: int, k: int)
    by (nonlinear_arith)
    requires
        d > 0,
        k > 0,
    ensures
        (n * k) / (d * k) == n / d,
{
    let q = n / d;
    let r = n % d;
    assert(n == d * q + r && 0 <= r < d);
    let big = n * k;
    let wide = d * k;
    assert(big == wide * q + r * k);
    assert(0 <= r * k < wide);
    assert(big == wide * (big / wide) + big % wide && 0 <= big % wide < wide);
    assert(wide * (q - big / wide) == big % wide - r * k);
    if q - big / wide > 0 {
        assert(wide * (q - big / wide) >= wide);
    }
    if q - big / wide < 0 {
        assert(wide * (q - big / wide) <= -wide);
    }
}

/// Value zero is black, whatever the hue and the saturation.
pub proof fn lemma_hsv_black(h: int, s: int)
    ensures
        hsv_to_rgb_spec(h, s, 0) == (0u8, 0u8, 0u8),
{
    let ramp = ramp_spec(h % (HUE_CIRCLE as int));
    assert(0 * s == 0 && 0 * s * SECTOR == 0 && 0 * (s * ramp) == 0 && (0 * ONE - 0 * s)
        * SECTOR == 0) by (nonlinear_arith);
    lemma_level_ends(COMPONENT_UNIT as int);
}

/// Full value without saturation is white, whatever the hue.
pub proof fn lemma_hsv_white(h: int)
    ensures
        hsv_to_rgb_spec(h, 0, ONE as int) == (255u8, 255u8, 255u8),
{
    lemma_hsv_unsaturated_is_gray(h, ONE as int);
    lemma_level_ends(ONE as int);
}

/// Hues a whole number of turns apart give the same colour.
pub proof fn lemma_hue_periodic(h: int, s: int, v: int, turns: int)
    ensures
        hsv_to_rgb_spec(h + turns * HUE_CIRCLE, s, v) == hsv_to_rgb_spec(h, s, v),
{
    lemma_mod_multiples_vanish(turns, h, HUE_CIRCLE as int);
    assert(turns * HUE_CIRCLE == HUE_CIRCLE * turns) by (nonlinear_arith);
}

/// Nothing of full intensity is level 0, and all of it is level 255.
proof fn lemma_level_ends(den: int)
    by (nonlinear_arith)
    requires
        den > 0,
    ensures
        (510 * 0 + den) / (den + den) == 0,
        (510 * den + den) / (den + den) == 255,
{
    let d = den + den;
    let a = 510 * 0 + den;
    assert(a == d * (a / d) + a % d && 0 <= a % d < d);
    if a / d > 0 {
        assert(d * (a / d) >= d);
    }
    if a / d < 0 {
        assert(d * (a / d) <= -d);
    }
    let b = 510 * den + den;
    assert(b == d * (b / d) + b % d && 0 <= b % d < d);
    assert(b == d * 255 + den);
    assert(d * (b / d - 255) == den - b % d);
    if b / d - 255 > 0 {
        assert(d * (b / d - 255) >= d);
    }
    if b / d - 255 < 0 {
        assert(d * (b / d - 255) <= -d);
    }
}

/// The colour at `corner` sixths of the hue circle, at full saturation and
/// value: its strongest channels are full, the others empty, and the
/// secondary component is full at the odd corners.
proof fn lemma_corner(corner: int)
    requires
        0 <= corner < 6,
    ensures
        hsv_to_rgb_spec(corner * SECTOR, ONE as int, ONE as int) == if corner == 0 {
            (255u8, 0u8, 0u8)
        } else if corner == 1 {
            (255u8, 255u8, 0u8)
        } else if corner == 2 {
            (0u8, 255u8, 0u8)
        } else if corner == 3 {
            (0u8, 255u8, 255u8)
        } else if corner == 4 {
            (0u8, 0u8, 255u8)
        } else {
            (255u8, 0u8, 255u8)
        },
{
    let h = corner * SECTOR;
    let hue = h % (HUE_CIRCLE as int);
    assert(hue == h);
    assert(hue / (SECTOR as int) == corner);
    let ramp = ramp_spec(hue);
    assert(ramp == if corner % 2 == 0 { 0 } else { SECTOR as int });
    let full = COMPONENT_UNIT as int;
    assert(ONE * ONE * SECTOR == full && ONE * (ONE * 0) == 0 && ONE * (ONE * SECTOR) == full && (
    ONE * ONE - ONE * ONE) * SECTOR == 0) by (nonlinear_arith)
        requires
            ONE == 65536,
            SECTOR == 3932160,
            full == 16888498602639360,
    ;
    lemma_level_ends(full);
    assert(level_spec(0, full) == 0);
    assert(level_spec(full, full) == 255);
}

/// At full saturation and value, the six corners of the colour hexagon are
/// the pure colours: red at 0 degrees, then yellow, green, cyan, blue and
/// magenta, sixty degrees apart.
pub proof fn lemma_hsv_hexagon_corners()
    ensures
        hsv_to_rgb_spec(0, ONE as int, ONE as int) == (255u8, 0u8, 0u8),
        hsv_to_rgb_spec(60 * ONE, ONE as int, ONE as int) == (255u8, 255u8, 0u8),
        hsv_to_rgb_spec(120 * ONE, ONE as int, ONE as int) == (0u8, 255u8, 0u8),
        hsv_to_rgb_spec(180 * ONE, ONE as int, ONE as int) == (0u8, 255u8, 255u8),
        hsv_to_rgb_spec(240 * ONE, ONE as int, ONE as int) == (0u8, 0u8, 255u8),
        hsv_to_rgb_spec(300 * ONE, ONE as int, ONE as int) == (255u8, 0u8, 255u8),
{
    lemma_corner(0);
    lemma_corner(1);
    lemma_corner(2);
    lemma_corner(3);
    lemma_corner(4);
    lemma_corner(5);
}

/// The ARGB pixel of a colour: opaque alpha in the top byte, then red,
/// green and blue.
pub open spec fn pack_argb_spec(r: u8, g: u8, b: u8) -> u32 {
    (0xff00_0000 + r * 0x1_0000 + g * 0x100 + b) as u32
}

/// Packs a colour into an opaque ARGB pixel.
pub fn pack_argb(r: u8, g: u8, b: u8) -> (pixel: u32)
    ensures
        pixel == pack_argb_spec(r, g, b),
        pixel >> 24 == 0xff,
{
    let pixel: u32 = 0xff00_0000u32 | ((r as u32) << 16) | ((g as u32) << 8) | (b as u32);
    assert(pixel == 0xff00_0000 + r * 0x1_0000 + g * 0x100 + b && pixel >> 24 == 0xff)
        by (bit_vector)
        requires
            pixel == 0xff00_0000u32 | ((r as u32) << 16) | ((g as u32) << 8) | (b as u32),
    ;
    pixel
}

/// Every packed pixel is opaque, and its colour can be read back from its
/// three lower bytes.
pub proof fn lemma_pack_argb_bytes(r: u8, g: u8, b: u8)
    ensures
        pack_argb_spec(r, g, b) >> 24 == 0xff,
        (pack_argb_spec(r, g, b) >> 16) & 0xff == r,
        (pack_argb_spec(r, g, b) >> 8) & 0xff == g,
        pack_argb_spec(r, g, b) & 0xff == b,
{
    let pixel = pack_argb_spec(r, g, b);
    assert(pixel >> 24 == 0xff && (pixel >> 16) & 0xff == r && (pixel >> 8) & 0xff == g && pixel
        & 0xff == b) by (bit_vector)
        requires
            pixel == (0xff00_0000 + r * 0x1_0000 + g * 0x100 + b) as u32,
    ;
}

} // verus!
