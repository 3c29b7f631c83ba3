//! Animated plasma patterns rendered into ARGB pixel buffers.
//!
//! Every quantity that is fractional by nature (angles, time, scale, colour
//! components) is a signed 16.16 fixed-point number held in an `i64`, so that
//! each frame is a pure integer function of the renderer's configuration and
//! the time, and every function is total on its argument types.
//!
//! - [`fixed`]: the arithmetic, with square root, sine and arctangent
//! - [`field`]: the place of a pixel and the scalar field of each pattern
//! - [`palette`]: the colour ramps
//! - [`common`]: dimensions, the effect trait, colour conversion, packing
//! - [`plasma`]: the interactive renderer
//! - [`effects`]: the effects with a fixed configuration
pub mod common;
pub mod effects;
pub mod field;
pub mod fixed;
pub mod palette;
pub mod plasma;
