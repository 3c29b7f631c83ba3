//! The colour ramps: each maps a normalized field value to a colour.
use crate::common::{hsv_to_rgb, hsv_to_rgb_spec, level, level_spec, HUE_CIRCLE};
use crate::fixed::{rem_floor, ONE};
use vstd::prelude::*;

verus! {

/// The saturation of the blue-cyan ramp, eight tenths.
pub const COOL_SATURATION: i64 = 52429;

/// The saturation of the purple-pink ramp, seven tenths.
pub const PASTEL_SATURATION: i64 = 45875;

/// All hues once around: hue `360 v` degrees at full saturation.
pub open spec fn rainbow_spec(v: int) -> (u8, u8, u8) {
    hsv_to_rgb_spec(360 * v, ONE as int, ONE as int)
}

/// From cyan to blue and on to magenta: hue `120 v + 180` degrees at
/// saturation 0.8.
pub open spec fn blue_cyan_spec(v: int) -> (u8, u8, u8) {
    hsv_to_rgb_spec(120 * v + 180 * ONE, COOL_SATURATION as int, ONE as int)
}

/// From red to yellow: hue `60 v` degrees at full saturation.
pub open spec fn hot_spec(v: int) -> (u8, u8, u8) {
    hsv_to_rgb_spec(60 * v, ONE as int, ONE as int)
}

/// From violet to pink: hue `60 v + 270` degrees at saturation 0.7.
pub open spec fn purple_pink_spec(v: int) -> (u8, u8, u8) {
    hsv_to_rgb_spec(60 * v + 270 * ONE, PASTEL_SATURATION as int, ONE as int)
}

/// From black to white: all three channels at the level of `v`, so a value
/// below zero is black and one above one is white.
pub open spec fn black_white_spec(v: int) -> (u8, u8, u8) {
    (level_spec(v, ONE as int), level_spec(v, ONE as int), level_spec(v, ONE as int))
}

/// The colour of the hue `span * v + base` degrees at the given saturation
/// and full value. The hue is brought into one turn first, which does not
/// change the colour.
fn tint(v: i64, span: i64, base: i64, saturation: i64) -> (rgb: (u8, u8, u8))
    requires
        0 <= span <= 360,
        0 <= base <= 360,
    ensures
        rgb == hsv_to_rgb_spec(span * v + base * ONE, saturation as int, ONE as int),
{
    assert(-360 * 0x8000_0000_0000_0000 <= span * v <= 360 * 0x8000_0000_0000_0000 && 0 <= base
        * ONE <= 360 * ONE) by (nonlinear_arith)
        requires
            0 <= span <= 360,
            0 <= base <= 360,
            -0x8000_0000_0000_0000 <= v < 0x8000_0000_0000_0000,
            ONE == 65536,
    ;
    let wide: i128 = (span as i128) * (v as i128) + (base as i128) * (ONE as i128);
    let hue: i64 = rem_floor(wide, HUE_CIRCLE as i128) as i64;
    assert(hue as int % (HUE_CIRCLE as int) == wide as int % (HUE_CIRCLE as int));
    hsv_to_rgb(hue, saturation, ONE)
}

/// The rainbow colour of a normalized field value.
pub fn rainbow(v: i64) -> (rgb: (u8, u8, u8))
    ensures
        rgb == rainbow_spec(v as int),
{
    tint(v, 360, 0, ONE)
}

/// The blue-cyan colour of a normalized field value.
pub fn blue_cyan(v: i64) -> (rgb: (u8, u8, u8))
    ensures
        rgb == blue_cyan_spec(v as int),
{
    tint(v, 120, 180, COOL_SATURATION)
}

/// The hot colour of a normalized field value.
pub fn hot(v: i64) -> (rgb: (u8, u8, u8))
    ensures
        rgb == hot_spec(v as int),
{
    tint(v, 60, 0, ONE)
}

/// The purple-pink colour of a normalized field value.
pub fn purple_pink(v: i64) -> (rgb: (u8, u8, u8))
    ensures
        rgb == purple_pink_spec(v as int),
{
    tint(v, 60, 270, PASTEL_SATURATION)
}

/// The grey of a normalized field value.
pub fn black_white(v: i64) -> (rgb: (u8, u8, u8))
    ensures
        rgb == black_white_spec(v as int),
{
    let gray: u8 = level(v as i128, ONE as u64);
    (gray, gray, gray)
}

} // verus!
