//! A classic plasma demo effect with various shape patterns and color palettes
//!
//! This module implements a configurable plasma effect that can render different
//! patterns including ripples, spirals, circles, squares, and checkerboards.
//! Each pattern can be displayed using different color palettes such as rainbow,
//! hot colors, or cool colors.
use crate::common::{
    dimension_fault, drawn, lemma_pack_argb_bytes, lemma_raster_covers, lemma_row_major,
    pack_argb, pack_argb_spec, raster,
    BufferSizeMismatch, ConfigurationError, DemoBase, DemoEffect,
};
use crate::field::{
    checkerboard, checkerboard_spec, circle, circle_spec, normalize, normalize_spec, place_spec,
    position, ripple, ripple_spec, spiral, spiral_spec, square, square_spec, Place, Position,
};
use crate::palette::{
    blue_cyan, blue_cyan_spec, hot, hot_spec, purple_pink, purple_pink_spec, rainbow,
    rainbow_spec,
};
use vstd::prelude::*;

verus! {

/// The spatial frequency of every pattern of this effect: ten, in 16.16
/// fixed point.
pub const FREQUENCY: i64 = 655360;

/// Defines the available shape patterns for the plasma effect
#[derive(Debug, PartialEq, Eq, Clone, Copy, Structural)]
pub enum Shape {
    /// Creates concentric wave patterns that ripple outward from the center,
    /// producing a water-like effect
    Ripple,
    /// Generates rotating spiral patterns that create a hypnotic swirling effect
    Spiral,
    /// Renders circular patterns that expand and contract from multiple center points
    Circle,
    /// Produces geometric patterns based on square shapes with hard edges
    Square,
    /// Creates an alternating pattern of squares resembling a chess board
    Checkerboard,
}

/// Available color palettes for rendering the plasma effect
#[derive(Debug, PartialEq, Eq, Clone, Copy, Structural)]
pub enum Palette {
    /// Full spectrum color cycling through all hues of the rainbow
    Rainbow,
    /// Cool colors focusing on blues and cyans, creating a calm, oceanic feel
    BlueCyan,
    /// Warm colors using reds, oranges and yellows, resembling fire or heat
    Hot,
    /// Vibrant colors cycling through purples, magentas and pinks
    PurplePink,
}

impl Shape {
    /// The value of this shape's scalar field at a place.
    pub open spec fn field_spec(self, place: Place, time: int) -> int {
        match self {
            Shape::Ripple => ripple_spec(place.dist, FREQUENCY as int, time),
            Shape::Spiral => spiral_spec(place.dist, place.angle, FREQUENCY as int, time),
            Shape::Circle => circle_spec(place.dist, place.angle, FREQUENCY as int, time),
            Shape::Square => square_spec(place.x, place.y, FREQUENCY as int, time),
            Shape::Checkerboard => checkerboard_spec(place.x, place.y, time),
        }
    }

    /// Evaluates this shape's scalar field at a position.
    pub fn field(&self, at: &Position, time: i64) -> (v: i64)
        ensures
            v == self.field_spec(at@, time as int),
    {
        match self {
            Shape::Ripple => ripple(at.dist, FREQUENCY, time),
            Shape::Spiral => spiral(at.dist, at.angle, FREQUENCY, time),
            Shape::Circle => circle(at.dist, at.angle, FREQUENCY, time),
            Shape::Square => square(at.x, at.y, FREQUENCY, time),
            Shape::Checkerboard => checkerboard(at.x, at.y, time),
        }
    }
}

impl Palette {
    /// The colour that this palette gives a normalized field value.
    pub open spec fn shade_spec(self, v: int) -> (u8, u8, u8) {
        match self {
            Palette::Rainbow => rainbow_spec(v),
            Palette::BlueCyan => blue_cyan_spec(v),
            Palette::Hot => hot_spec(v),
            Palette::PurplePink => purple_pink_spec(v),
        }
    }

    /// Colours a normalized field value.
    pub fn shade(&self, v: i64) -> (rgb: (u8, u8, u8))
        ensures
            rgb == self.shade_spec(v as int),
    {
        match self {
            Palette::Rainbow => rainbow(v),
            Palette::BlueCyan => blue_cyan(v),
            Palette::Hot => hot(v),
            Palette::PurplePink => purple_pink(v),
        }
    }
}

/// Configuration for the plasma effect
pub struct Config {
    base: DemoBase,
    plasma_type: Shape,
    palette: Palette,
}

/// A [`Config`] as plain mathematical values.
pub struct ConfigView {
    pub width: nat,
    pub height: nat,
    pub plasma_type: Shape,
    pub palette: Palette,
}

impl ConfigView {
    /// A frame of these dimensions can exist.
    pub open spec fn wf(self) -> bool {
        dimension_fault(self.width as int, self.height as int) is None
    }

    /// The pixel in column `col` and row `row` at `time`: the shape's field
    /// at that place, normalized, coloured by the palette and packed.
    pub open spec fn pixel(self, col: int, row: int, time: int) -> u32 {
        let place = place_spec(self.width as int, self.height as int, col, row);
        let v = normalize_spec(self.plasma_type.field_spec(place, time));
        let (r, g, b) = self.palette.shade_spec(v);
        pack_argb_spec(r, g, b)
    }

    /// The whole frame at `time`, row by row.
    pub open spec fn frame(self, time: int) -> Seq<u32> {
        raster(self.width, self.height, |col: int, row: int| self.pixel(col, row, time))
    }
}

impl View for Config {
    type V = ConfigView;

    closed spec fn view(&self) -> ConfigView {
        ConfigView {
            width: self.base.dim.width as nat,
            height: self.base.dim.height as nat,
            plasma_type: self.plasma_type,
            palette: self.palette,
        }
    }
}

impl Config {
    #[verifier::type_invariant]
    spec fn inv(&self) -> bool {
        self@.wf()
    }

    /// A plasma over a frame of `width` by `height` pixels, with the given
    /// shape and palette; fails on dimensions that no frame can have.
    pub fn new(width: usize, height: usize, plasma_type: Shape, palette: Palette) -> (r: Result<
        Self,
        ConfigurationError,
    >)
        ensures
            match r {
                Ok(config) => dimension_fault(width as int, height as int) is None && config@ == (
                ConfigView { width: width as nat, height: height as nat, plasma_type, palette })
                    && config@.wf(),
                Err(e) => dimension_fault(width as int, height as int) == Some(e),
            },
    {
        match DemoBase::new(width, height) {
            Ok(base) => Ok(Self { base, plasma_type, palette }),
            Err(e) => Err(e),
        }
    }

    /// Width of the frame in pixels.
    pub fn width(&self) -> (w: usize)
        ensures
            w == self@.width,
    {
        self.base.dim.width
    }

    /// Height of the frame in pixels.
    pub fn height(&self) -> (h: usize)
        ensures
            h == self@.height,
    {
        self.base.dim.height
    }

    /// The shape of the pattern.
    pub fn plasma_type(&self) -> (s: Shape)
        ensures
            s == self@.plasma_type,
    {
        self.plasma_type
    }

    /// The palette of the pattern.
    pub fn palette(&self) -> (p: Palette)
        ensures
            p == self@.palette,
    {
        self.palette
    }
}

impl DemoEffect for Config {
    open spec fn frame(&self, time: int) -> Seq<u32> {
        self@.frame(time)
    }

    fn draw(&self, buffer: &mut [u32], time: i64) -> (r: Result<(), BufferSizeMismatch>) {
        proof {
            use_type_invariant(self);
        }
        let dim = self.base.dim;
        let expected: usize = dim.pixels();
        if buffer.len() != expected {
            return Err(BufferSizeMismatch { expected, actual: buffer.len() });
        }
        let ghost pixel = |col: int, row: int| self@.pixel(col, row, time as int);
        let mut row: usize = 0;
        while row < dim.height
            invariant
                dim.wf(),
                dim == self.base.dim,
                row <= dim.height,
                buffer@.len() == dim.width * dim.height,
                pixel == |col: int, row: int| self@.pixel(col, row, time as int),
                drawn(buffer@, dim.width as nat, row as int * dim.width, pixel),
            decreases dim.height - row,
        {
            let mut col: usize = 0;
            while col < dim.width
                invariant
                    dim.wf(),
                    dim == self.base.dim,
                    row < dim.height,
                    col <= dim.width,
                    buffer@.len() == dim.width * dim.height,
                    pixel == |col: int, row: int| self@.pixel(col, row, time as int),
                    drawn(buffer@, dim.width as nat, row as int * dim.width + col, pixel),
                decreases dim.width - col,
            {
                proof {
                    lemma_row_major(dim.width as int, dim.height as int, col as int, row as int);
                }
                let at = position(&dim, col, row);
                let v = normalize(self.plasma_type.field(&at, time));
                let (r, g, b) = self.palette.shade(v);
                let index: usize = row * dim.width + col;
                buffer[index] = pack_argb(r, g, b);
                col += 1;
            }
            proof {
                assert((row + 1) * dim.width == row * dim.width + dim.width) by (nonlinear_arith);
            }
            row += 1;
        }
        proof {
            let frame = self@.frame(time as int);
            assert(row * dim.width == dim.width * dim.height) by (nonlinear_arith)
                requires
                    row == dim.height,
            ;
            assert forall|i: int| 0 <= i < buffer@.len() implies buffer@[i] == frame[i] by {
                assert(buffer@[i] == pixel(i % (dim.width as int), i / (dim.width as int)));
            }
            assert(buffer@ =~= frame);
        }
        Ok(())
    }
}

/// A frame is a function of the configuration and the time alone: equal
/// configurations show equal frames at equal times.
pub proof fn lemma_frame_deterministic(first: ConfigView, second: ConfigView, time: int)
    requires
        first == second,
    ensures
        first.frame(time) == second.frame(time),
{
}

/// A frame leaves no position out: it has `width * height` pixels, and the
/// one in column `col` of row `row` is the pixel that the configuration
/// shows there, fully opaque.
pub proof fn lemma_frame_covers(config: ConfigView, time: int, col: int, row: int)
    requires
        config.wf(),
        0 <= col < config.width,
        0 <= row < config.height,
    ensures
        config.frame(time).len() == config.width * config.height,
        0 <= row * config.width + col < config.width * config.height,
        config.frame(time)[row * config.width + col] == config.pixel(col, row, time),
        config.pixel(col, row, time) >> 24 == 0xff,
{
    lemma_raster_covers(
        config.width,
        config.height,
        |col: int, row: int| config.pixel(col, row, time),
        col,
        row,
    );
    let place = place_spec(config.width as int, config.height as int, col, row);
    let v = normalize_spec(config.plasma_type.field_spec(place, time));
    let (r, g, b) = config.palette.shade_spec(v);
    lemma_pack_argb_bytes(r, g, b);
}

} // verus!
