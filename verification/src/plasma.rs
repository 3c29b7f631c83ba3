//! A module for generating animated plasma effects with various patterns and color palettes.
//!
//! The plasma effect combines a geometric pattern (ripples, spirals, circles,
//! squares) with a colour ramp; shape, palette and the density of the
//! pattern can be changed between frames.
use crate::common::{
    check_dimensions, dimension_fault, drawn, hsv_to_rgb_spec, lemma_pack_argb_bytes,
    lemma_raster_covers, lemma_row_major, pack_argb, pack_argb_spec, raster, BufferSizeMismatch,
    ConfigurationError, WindowDimensions,
};
use crate::field::{
    circle, circle_spec, normalize, normalize_spec, place_spec, position, ripple, ripple_spec,
    spiral, spiral_spec, square, square_spec, Place, Position,
};
use crate::palette::{
    black_white, black_white_spec, blue_cyan, blue_cyan_spec, hot, hot_spec, purple_pink,
    purple_pink_spec, rainbow, rainbow_spec,
};
use vstd::prelude::*;

verus! {

/// Scale factor change for increasing or decreasing the plasma pattern
/// density: ten, in 16.16 fixed point.
pub const SCALE_DELTA: i64 = 655360;

/// Defines the available shape patterns for the plasma effect
#[derive(Debug, PartialEq, Eq, Clone, Copy, Structural)]
pub enum Shape {
    Ripple,
    Spiral,
    Circle,
    Square,
}

/// Available color palettes for rendering the plasma effect
#[derive(Debug, PartialEq, Eq, Clone, Copy, Structural)]
pub enum Palette {
    Rainbow,
    BlueCyan,
    Hot,
    PurplePink,
    BlackWhite,
}

impl Shape {
    /// The shape that follows this one, the first after the last.
    pub open spec fn next_spec(self) -> Shape {
        match self {
            Shape::Ripple => Shape::Spiral,
            Shape::Spiral => Shape::Circle,
            Shape::Circle => Shape::Square,
            Shape::Square => Shape::Ripple,
        }
    }

    /// The shape that precedes this one, the last before the first.
    pub open spec fn prev_spec(self) -> Shape {
        match self {
            Shape::Ripple => Shape::Square,
            Shape::Spiral => Shape::Ripple,
            Shape::Circle => Shape::Spiral,
            Shape::Square => Shape::Circle,
        }
    }

    /// The value of this shape's scalar field at a place.
    pub open spec fn field_spec(self, place: Place, scale: int, time: int) -> int {
        match self {
            Shape::Ripple => ripple_spec(place.dist, scale, time),
            Shape::Spiral => spiral_spec(place.dist, place.angle, scale, time),
            Shape::Circle => circle_spec(place.dist, place.angle, scale, time),
            Shape::Square => square_spec(place.x, place.y, scale, time),
        }
    }

    /// Evaluates this shape's scalar field at a position.
    pub fn field(&self, at: &Position, scale: i64, time: i64) -> (v: i64)
        ensures
            v == self.field_spec(at@, scale as int, time as int),
    {
        match self {
            Shape::Ripple => ripple(at.dist, scale, time),
            Shape::Spiral => spiral(at.dist, at.angle, scale, time),
            Shape::Circle => circle(at.dist, at.angle, scale, time),
            Shape::Square => square(at.x, at.y, scale, time),
        }
    }
}

impl Palette {
    /// The palette that follows this one, the first after the last.
    pub open spec fn next_spec(self) -> Palette {
        match self {
            Palette::Rainbow => Palette::BlueCyan,
            Palette::BlueCyan => Palette::Hot,
            Palette::Hot => Palette::PurplePink,
            Palette::PurplePink => Palette::BlackWhite,
            Palette::BlackWhite => Palette::Rainbow,
        }
    }

    /// The colour that this palette gives a normalized field value.
    pub open spec fn shade_spec(self, v: int) -> (u8, u8, u8) {
        match self {
            Palette::Rainbow => rainbow_spec(v),
            Palette::BlueCyan => blue_cyan_spec(v),
            Palette::Hot => hot_spec(v),
            Palette::PurplePink => purple_pink_spec(v),
            Palette::BlackWhite => black_white_spec(v),
        }
    }

    /// Colours a normalized field value.
    pub fn shade(&self, v: i64) -> (rgb: (u8, u8, u8))
        ensures
            rgb == self.shade_spec(v as int),
    {
        match self {
            Palette::Rainbow => rainbow(v),
            Palette::BlueCyan => blue_cyan(v),
            Palette::Hot => hot(v),
            Palette::PurplePink => purple_pink(v),
            Palette::BlackWhite => black_white(v),
        }
    }
}

/// The scale after one step up: larger by [`SCALE_DELTA`], or the largest
/// representable scale where that is nearer.
pub open spec fn raised(scale: int) -> int {
    if scale + SCALE_DELTA > i64::MAX {
        i64::MAX as int
    } else {
        scale + SCALE_DELTA
    }
}

/// The scale after one step down: smaller by [`SCALE_DELTA`], or the
/// smallest representable scale where that is nearer.
pub open spec fn lowered(scale: int) -> int {
    if scale - SCALE_DELTA < i64::MIN {
        i64::MIN as int
    } else {
        scale - SCALE_DELTA
    }
}

/// A plasma effect generator that creates colorful animated patterns
pub struct Plasma {
    /// Width of the plasma effect in pixels
    width: usize,
    /// Height of the plasma effect in pixels
    height: usize,
    /// The geometric shape used to generate the plasma pattern
    shape: Shape,
    /// Color palette used for rendering the plasma effect
    palette: Palette,
    /// Scale factor that controls the density/size of the plasma patterns
    scale: i64,
}

/// The configuration of a [`Plasma`] as plain mathematical values.
pub struct PlasmaView {
    pub width: nat,
    pub height: nat,
    pub shape: Shape,
    pub palette: Palette,
    pub scale: int,
}

impl PlasmaView {
    /// A frame of these dimensions can exist.
    pub open spec fn wf(self) -> bool {
        dimension_fault(self.width as int, self.height as int) is None
    }

    /// The pixel in column `col` and row `row` at `time`: the shape's field
    /// at that place, normalized, coloured by the palette and packed.
    pub open spec fn pixel(self, col: int, row: int, time: int) -> u32 {
        let place = place_spec(self.width as int, self.height as int, col, row);
        let v = normalize_spec(self.shape.field_spec(place, self.scale, time));
        let (r, g, b) = self.palette.shade_spec(v);
        pack_argb_spec(r, g, b)
    }

    /// The whole frame at `time`, row by row.
    pub open spec fn frame(self, time: int) -> Seq<u32> {
        raster(self.width, self.height, |col: int, row: int| self.pixel(col, row, time))
    }
}

impl View for Plasma {
    type V = PlasmaView;

    closed spec fn view(&self) -> PlasmaView {
        PlasmaView {
            width: self.width as nat,
            height: self.height as nat,
            shape: self.shape,
            palette: self.palette,
            scale: self.scale as int,
        }
    }
}

impl Plasma {
    #[verifier::type_invariant]
    spec fn inv(&self) -> bool {
        self@.wf()
    }

    /// A plasma over a frame of `width` by `height` pixels, with the given
    /// shape, palette and scale; fails on dimensions that no frame can have.
    pub fn new(width: usize, height: usize, shape: Shape, palette: Palette, scale: i64) -> (r:
        Result<Self, ConfigurationError>)
        ensures
            match r {
                Ok(plasma) => dimension_fault(width as int, height as int) is None && plasma@ == (
                PlasmaView {
                    width: width as nat,
                    height: height as nat,
                    shape,
                    palette,
                    scale: scale as int,
                }) && plasma@.wf(),
                Err(e) => dimension_fault(width as int, height as int) == Some(e),
            },
    {
        match check_dimensions(width, height) {
            Ok(dim) => Ok(Self { width: dim.width, height: dim.height, shape, palette, scale }),
            Err(e) => Err(e),
        }
    }

    /// Width of the frame in pixels.
    pub fn width(&self) -> (w: usize)
        ensures
            w == self@.width,
    {
        self.width
    }

    /// Height of the frame in pixels.
    pub fn height(&self) -> (h: usize)
        ensures
            h == self@.height,
    {
        self.height
    }

    /// The current shape.
    pub fn shape(&self) -> (s: Shape)
        ensures
            s == self@.shape,
    {
        self.shape
    }

    /// The current palette.
    pub fn palette(&self) -> (p: Palette)
        ensures
            p == self@.palette,
    {
        self.palette
    }

    /// The current scale, in 16.16 fixed point.
    pub fn scale(&self) -> (s: i64)
        ensures
            s == self@.scale,
    {
        self.scale
    }

    /// Increases the scale factor of the plasma patterns by SCALE_DELTA.
    pub fn increase_scale(&mut self)
        ensures
            final(self)@ == (PlasmaView { scale: raised(old(self)@.scale), ..old(self)@ }),
    {
        proof {
            use_type_invariant(&*self);
        }
        if self.scale > i64::MAX - SCALE_DELTA {
            self.scale = i64::MAX;
        } else {
            self.scale = self.scale + SCALE_DELTA;
        }
    }

    /// Decreases the scale factor of the plasma patterns by SCALE_DELTA.
    pub fn decrease_scale(&mut self)
        ensures
            final(self)@ == (PlasmaView { scale: lowered(old(self)@.scale), ..old(self)@ }),
    {
        proof {
            use_type_invariant(&*self);
        }
        if self.scale < i64::MIN + SCALE_DELTA {
            self.scale = i64::MIN;
        } else {
            self.scale = self.scale - SCALE_DELTA;
        }
    }

    /// Cycles to the next color palette in the sequence.
    pub fn next_palette(&mut self)
        ensures
            final(self)@ == (PlasmaView { palette: old(self)@.palette.next_spec(), ..old(self)@ }),
    {
        proof {
            use_type_invariant(&*self);
        }
        self.palette = match self.palette {
            Palette::Rainbow => Palette::BlueCyan,
            Palette::BlueCyan => Palette::Hot,
            Palette::Hot => Palette::PurplePink,
            Palette::PurplePink => Palette::BlackWhite,
            Palette::BlackWhite => Palette::Rainbow,
        };
    }

    /// Cycles to the next shape pattern in the sequence.
    pub fn next_shape(&mut self)
        ensures
            final(self)@ == (PlasmaView { shape: old(self)@.shape.next_spec(), ..old(self)@ }),
    {
        proof {
            use_type_invariant(&*self);
        }
        self.shape = match self.shape {
            Shape::Ripple => Shape::Spiral,
            Shape::Spiral => Shape::Circle,
            Shape::Circle => Shape::Square,
            Shape::Square => Shape::Ripple,
        };
    }

    /// Cycles to the previous shape pattern in the sequence.
    pub fn prev_shape(&mut self)
        ensures
            final(self)@ == (PlasmaView { shape: old(self)@.shape.prev_spec(), ..old(self)@ }),
    {
        proof {
            use_type_invariant(&*self);
        }
        self.shape = match self.shape {
            Shape::Ripple => Shape::Square,
            Shape::Spiral => Shape::Ripple,
            Shape::Circle => Shape::Spiral,
            Shape::Square => Shape::Circle,
        };
    }

    /// Converts HSV (Hue, Saturation, Value) color values to RGB (Red, Green, Blue)
    ///
    /// # Arguments
    ///
    /// * `h` - Hue angle in degrees
    /// * `s` - Saturation value [0, 1]
    /// * `v` - Value/brightness [0, 1]
    ///
    /// # Returns
    ///
    /// A tuple of (red, green, blue) values as 8-bit unsigned integers [0, 255]
    pub fn hsv_to_rgb(&self, h: i64, s: i64, v: i64) -> (rgb: (u8, u8, u8))
        ensures
            rgb == hsv_to_rgb_spec(h as int, s as int, v as int),
    {
        crate::common::hsv_to_rgb(h, s, v)
    }

    /// Renders the plasma effect into the provided pixel buffer.
    ///
    /// # Arguments
    /// * `buffer` - Mutable slice of u32 values representing the pixel buffer
    /// * `time` - Current time value in seconds, in 16.16 fixed point
    ///
    /// Each pixel in the buffer is updated with a color value based on the current
    /// shape, palette, and time parameters. The color values are packed into 32-bit
    /// ARGB format. A buffer whose length is not the number of pixels is
    /// refused and left as it was.
    pub fn draw(&self, buffer: &mut [u32], time: i64) -> (r: Result<(), BufferSizeMismatch>)
        ensures
            r is Ok <==> old(buffer)@.len() == self@.width * self@.height,
            r is Ok ==> final(buffer)@ == self@.frame(time as int),
            r matches Err(e) ==> final(buffer)@ == old(buffer)@ && e.expected == self@.width
                * self@.height && e.actual == old(buffer)@.len(),
    {
        proof {
            use_type_invariant(self);
        }
        let dim = WindowDimensions { width: self.width, height: self.height };
        let expected: usize = dim.pixels();
        if buffer.len() != expected {
            return Err(BufferSizeMismatch { expected, actual: buffer.len() });
        }
        let ghost pixel = |col: int, row: int| self@.pixel(col, row, time as int);
        let mut row: usize = 0;
        while row < self.height
            invariant
                dim.wf(),
                dim.width == self.width,
                dim.height == self.height,
                row <= self.height,
                buffer@.len() == self.width * self.height,
                pixel == |col: int, row: int| self@.pixel(col, row, time as int),
                drawn(buffer@, dim.width as nat, row as int * dim.width, pixel),
            decreases self.height - row,
        {
            let mut col: usize = 0;
            while col < self.width
                invariant
                    dim.wf(),
                    dim.width == self.width,
                    dim.height == self.height,
                    row < self.height,
                    col <= self.width,
                    buffer@.len() == self.width * self.height,
                    pixel == |col: int, row: int| self@.pixel(col, row, time as int),
                    drawn(
                        buffer@,
                        dim.width as nat,
                        row as int * dim.width + col,
                        pixel,
                    ),
                decreases self.width - col,
            {
                proof {
                    lemma_row_major(
                        dim.width as int,
                        dim.height as int,
                        col as int,
                        row as int,
                    );
                }
                let at = position(&dim, col, row);
                let v = normalize(self.shape.field(&at, self.scale, time));
                let (r, g, b) = self.palette.shade(v);
                let index: usize = row * self.width + col;
                buffer[index] = pack_argb(r, g, b);
                col += 1;
            }
            proof {
                assert((row + 1) * dim.width == row * dim.width + dim.width) by (nonlinear_arith);
            }
            row += 1;
        }
        proof {
            let frame = self@.frame(time as int);
            assert(row * dim.width == dim.width * dim.height) by (nonlinear_arith)
                requires
                    row == dim.height,
            ;
            assert(frame.len() == buffer@.len());
            assert forall|i: int| 0 <= i < buffer@.len() implies buffer@[i] == frame[i] by {
                assert(buffer@[i] == pixel(i % (dim.width as int), i / (dim.width as int)));
            }
            assert(buffer@ =~= frame);
        }
        Ok(())
    }
}

/// The shapes form one cycle of four: four steps forward lead home, and so
/// do four steps back; no step stays in place; a step back undoes a step
/// forward and the other way round.
pub proof fn lemma_shape_cycle(s: Shape)
    ensures
        s.next_spec().next_spec().next_spec().next_spec() == s,
        s.prev_spec().prev_spec().prev_spec().prev_spec() == s,
        s.next_spec() != s,
        s.prev_spec() != s,
        s.next_spec().prev_spec() == s,
        s.prev_spec().next_spec() == s,
{
}

/// The palettes form one cycle of five: five steps lead home, and no step
/// stays in place.
pub proof fn lemma_palette_cycle(p: Palette)
    ensures
        p.next_spec().next_spec().next_spec().next_spec().next_spec() == p,
        p.next_spec() != p,
{
}

/// A step up and a step down of the scale cancel, in either order, as long
/// as the first step does not run into the end of the representable range.
pub proof fn lemma_scale_round_trip(scale: int)
    requires
        i64::MIN <= scale <= i64::MAX,
    ensures
        scale + SCALE_DELTA <= i64::MAX ==> lowered(raised(scale)) == scale,
        scale - SCALE_DELTA >= i64::MIN ==> raised(lowered(scale)) == scale,
{
}

/// A frame is a function of the configuration and the time alone: equal
/// configurations show equal frames at equal times.
pub proof fn lemma_frame_deterministic(first: PlasmaView, second: PlasmaView, time: int)
    requires
        first == second,
    ensures
        first.frame(time) == second.frame(time),
{
}

/// A frame leaves no position out: it has `width * height` pixels, and the
/// one in column `col` of row `row` is the pixel that the configuration
/// shows there, fully opaque.
pub proof fn lemma_frame_covers(plasma: PlasmaView, time: int, col: int, row: int)
    requires
        plasma.wf(),
        0 <= col < plasma.width,
        0 <= row < plasma.height,
    ensures
        plasma.frame(time).len() == plasma.width * plasma.height,
        0 <= row * plasma.width + col < plasma.width * plasma.height,
        plasma.frame(time)[row * plasma.width + col] == plasma.pixel(col, row, time),
        plasma.pixel(col, row, time) >> 24 == 0xff,
{
    lemma_raster_covers(
        plasma.width,
        plasma.height,
        |col: int, row: int| plasma.pixel(col, row, time),
        col,
        row,
    );
    let place = place_spec(plasma.width as int, plasma.height as int, col, row);
    let v = normalize_spec(plasma.shape.field_spec(place, plasma.scale, time));
    let (r, g, b) = plasma.palette.shade_spec(v);
    lemma_pack_argb_bytes(r, g, b);
}

} // verus!
