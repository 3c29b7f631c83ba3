//! Signed 16.16 fixed-point arithmetic: rounding division, products, and the
//! square root, sine and arctangent that the pattern functions are built from.
use vstd::arithmetic::div_mod::{lemma_div_multiples_vanish, lemma_mod_multiples_vanish};
use vstd::prelude::*;

verus! {

/// The number one: a value `v` of this format stands for `v / 65536`.
pub const ONE: i64 = 65536;

/// A quarter turn, half of [`PI`].
pub const HALF_PI: i64 = 102944;

/// Half a turn in radians, the nearest even value to pi * 65536.
pub const PI: i64 = 205888;

/// A full turn, twice [`PI`]: the period of [`sin`].
pub const TAU: i64 = 411776;

/// An eighth of a turn: the arctangent of one.
pub const QUARTER_PI: i64 = 51472;

/// Quotient of `a` by a positive `d`, rounded toward negative infinity.
///
/// Operands that fit 64 bits, as nearly all do, are divided in 64 bits.
pub fn div_floor(a: i128, d: i128) -> (q: i128)
    requires
        d > 0,
    ensures
        q == a / d,
{
    if -0x8000_0000_0000_0000 <= a && a <= 0x7fff_ffff_ffff_ffff && d <= 0x7fff_ffff_ffff_ffff {
        let n: i64 = a as i64;
        let m: i64 = d as i64;
        if n >= 0 {
            (n / m) as i128
        } else {
            let k: i64 = (-(n + 1)) / m;
            proof {
                lemma_floor_of_negative(a as int, d as int, k as int);
            }
            (-k - 1) as i128
        }
    } else if a >= 0 {
        a / d
    } else {
        let k: i128 = (-(a + 1)) / d;
        proof {
            lemma_floor_of_negative(a as int, d as int, k as int);
        }
        -k - 1
    }
}

/// Remainder of `a` by a positive `d`, always in `0..d`.
///
/// Operands that fit 64 bits, as nearly all do, are divided in 64 bits.
pub fn rem_floor(a: i128, d: i128) -> (r: i128)
    requires
        d > 0,
    ensures
        r == a % d,
        0 <= r < d,
{
    if -0x8000_0000_0000_0000 <= a && a <= 0x7fff_ffff_ffff_ffff && d <= 0x7fff_ffff_ffff_ffff {
        let n: i64 = a as i64;
        let m: i64 = d as i64;
        if n >= 0 {
            (n % m) as i128
        } else {
            let s: i64 = (-(n + 1)) % m;
            proof {
                lemma_floor_of_negative(a as int, d as int, (-(a + 1)) / (d as int));
            }
            (m - 1 - s) as i128
        }
    } else if a >= 0 {
        a % d
    } else {
        let s: i128 = (-(a + 1)) % d;
        proof {
            lemma_floor_of_negative(a as int, d as int, (-(a + 1)) / (d as int));
        }
        d - 1 - s
    }
}

/// For negative `a`, the floor quotient and remainder follow from those of
/// the non-negative number `-(a + 1)`.
proof fn lemma_floor_of_negative(a: int, d: int, k: int)
    by (nonlinear_arith)
    requires
        a < 0,
        d > 0,
        k == (-(a + 1)) / d,
    ensures
        a / d == -k - 1,
        a % d == d - 1 - (-(a + 1)) % d,
{
    let s = (-(a + 1)) % d;
    assert(-(a + 1) == d * k + s && 0 <= s < d);
    let q = -k - 1;
    let r = d - 1 - s;
    assert(a == d * q + r);
    assert(0 <= r < d);
    assert(a == d * (a / d) + a % d && 0 <= a % d < d);
    assert(d * (q - a / d) == a % d - r);
    assert(q - a / d == 0);
}

/// Product of two fixed-point values, rounded toward negative infinity.
pub open spec fn multiply_spec(a: int, b: int) -> int {
    (a * b) / (ONE as int)
}

/// Multiplies two fixed-point values; the wide result cannot overflow.
pub fn multiply(a: i64, b: i64) -> (r: i128)
    ensures
        r == multiply_spec(a as int, b as int),
        -0x4000_0000_0000_0000_0000_0000_0000 <= r <= 0x4000_0000_0000_0000_0000_0000_0000,
{
    assert(-0x4000_0000_0000_0000_0000_0000_0000_0000 <= a * b
        <= 0x4000_0000_0000_0000_0000_0000_0000_0000) by (nonlinear_arith)
        requires
            -0x8000_0000_0000_0000 <= a < 0x8000_0000_0000_0000,
            -0x8000_0000_0000_0000 <= b < 0x8000_0000_0000_0000,
    ;
    let wide: i128 = (a as i128) * (b as i128);
    div_floor(wide, ONE as i128)
}

/// Sine of an angle `u` of the first octant, `0..=QUARTER_PI`, by the
/// Taylor polynomial `u - u^3/6 + u^5/120`, nested as
/// `u (1 - u^2/6 (1 - u^2/20))`.
pub open spec fn sin_octant_spec(u: int) -> int {
    let w = (u * u) / (ONE as int);
    let inner = ONE - w / 20;
    let outer = ((w * inner) / (ONE as int)) / 6;
    u - (u * outer) / (ONE as int)
}

/// Cosine of an angle `u` of the first octant, `0..=QUARTER_PI`, by the
/// Taylor polynomial `1 - u^2/2 + u^4/24 - u^6/720`, nested as
/// `1 - u^2/2 (1 - u^2/12 (1 - u^2/30))`.
pub open spec fn cos_octant_spec(u: int) -> int {
    let w = (u * u) / (ONE as int);
    let inner = ONE - w / 30;
    let middle = ONE - ((w * inner) / (ONE as int)) / 12;
    ONE - ((w * middle) / (ONE as int)) / 2
}

/// Sine over the first quarter turn: the sine polynomial up to an eighth
/// turn, beyond it the cosine polynomial of the complementary angle.
pub open spec fn quarter_wave_spec(u: int) -> int {
    if u <= QUARTER_PI {
        sin_octant_spec(u)
    } else {
        cos_octant_spec(HALF_PI - u)
    }
}

/// Sine of an angle in radians. The angle is reduced modulo [`TAU`] and
/// folded into the first quarter turn: each half turn mirrors about its
/// middle, and the second half turn reverses the sign of the first.
pub open spec fn sin_spec(x: int) -> int {
    let t = x % (TAU as int);
    let h = t % (PI as int);
    let u = if h <= HALF_PI {
        h
    } else {
        PI - h
    };
    if t < PI {
        quarter_wave_spec(u)
    } else {
        -quarter_wave_spec(u)
    }
}

/// A quotient of a non-negative numerator that is at most `c` times the
/// positive denominator lies between zero and `c`.
proof fn lemma_quotient_bound(n: int, d: int, c: int)
    by (nonlinear_arith)
    requires
        d > 0,
        0 <= n <= c * d,
    ensures
        0 <= n / d <= c,
{
    assert(n == d * (n / d) + n % d && 0 <= n % d < d);
    if n / d > c {
        assert(d * (n / d) >= d * (c + 1));
    }
    if n / d < 0 {
        assert(d * (n / d) <= -d);
    }
}

/// A fraction `k / ONE` of `a`, for `k` in `0..=ONE`, lies between zero and
/// `a`.
proof fn lemma_fraction_bound(a: int, k: int)
    by (nonlinear_arith)
    requires
        0 <= a,
        0 <= k <= ONE,
    ensures
        0 <= a * k <= a * ONE,
        0 <= (a * k) / (ONE as int) <= a,
        k * a == a * k,
{
    lemma_quotient_bound(a * k, ONE as int, a);
}

/// In the first octant the squared angle is less than one, and both
/// polynomials stay between zero and one; the sine does not exceed its
/// angle.
proof fn lemma_octant_bounds(u: int)
    requires
        0 <= u <= QUARTER_PI,
    ensures
        0 <= u * u <= QUARTER_PI * QUARTER_PI,
        0 <= (u * u) / (ONE as int) <= 40426,
        0 <= sin_octant_spec(u) <= u,
        0 <= cos_octant_spec(u) <= ONE,
{
    assert(0 <= u * u <= QUARTER_PI * QUARTER_PI && QUARTER_PI * QUARTER_PI == 2649366784)
        by (nonlinear_arith)
        requires
            0 <= u <= QUARTER_PI,
            QUARTER_PI == 51472,
    ;
    let w = (u * u) / (ONE as int);
    assert(0 <= w <= 40426);
    lemma_fraction_bound(w, ONE - w / 20);
    lemma_fraction_bound(u, ((w * (ONE - w / 20)) / (ONE as int)) / 6);
    lemma_fraction_bound(w, ONE - w / 30);
    lemma_fraction_bound(w, ONE - ((w * (ONE - w / 30)) / (ONE as int)) / 12);
}

fn sin_octant(u: i64) -> (r: i64)
    requires
        0 <= u <= QUARTER_PI,
    ensures
        r == sin_octant_spec(u as int),
        0 <= r <= u,
{
    proof {
        lemma_octant_bounds(u as int);
    }
    let w: i64 = (u * u) / ONE;
    let inner: i64 = ONE - w / 20;
    proof {
        lemma_fraction_bound(w as int, inner as int);
    }
    let outer: i64 = ((w * inner) / ONE) / 6;
    proof {
        lemma_fraction_bound(u as int, outer as int);
    }
    u - (u * outer) / ONE
}

fn cos_octant(u: i64) -> (r: i64)
    requires
        0 <= u <= QUARTER_PI,
    ensures
        r == cos_octant_spec(u as int),
        0 <= r <= ONE,
{
    proof {
        lemma_octant_bounds(u as int);
    }
    let w: i64 = (u * u) / ONE;
    let inner: i64 = ONE - w / 30;
    proof {
        lemma_fraction_bound(w as int, inner as int);
    }
    let middle: i64 = ONE - ((w * inner) / ONE) / 12;
    proof {
        lemma_fraction_bound(w as int, middle as int);
    }
    ONE - ((w * middle) / ONE) / 2
}

/// Sine of the angle `x`, in radians.
///
/// The result is exact at every multiple of a quarter turn and within a
/// ten-thousandth of the true sine of an angle of a few turns; the period
/// is [`TAU`], which exceeds two pi by three parts in a million.
pub fn sin(x: i128) -> (r: i64)
    ensures
        r == sin_spec(x as int),
        -ONE <= r <= ONE,
{
    let t: i64 = rem_floor(x, TAU as i128) as i64;
    let h: i64 = if t < PI { t } else { t - PI };
    let u: i64 = if h <= HALF_PI { h } else { PI - h };
    let q: i64 = if u <= QUARTER_PI { sin_octant(u) } else { cos_octant(HALF_PI - u) };
    if t < PI {
        q
    } else {
        -q
    }
}

/// The sine repeats after every full turn.
pub proof fn lemma_sin_periodic(x: int, turns: int)
    ensures
        sin_spec(x + turns * TAU) == sin_spec(x),
{
    lemma_mod_multiples_vanish(turns, x, TAU as int);
    assert(turns * TAU == TAU * turns) by (nonlinear_arith);
}

/// Both polynomials take their exact values at the angle zero.
proof fn lemma_octant_origin()
    ensures
        sin_octant_spec(0) == 0,
        cos_octant_spec(0) == ONE,
{
    assert(0int * 0 == 0);
    assert(0int * (ONE - 0int / 20) == 0) by (nonlinear_arith);
    assert(0int * (ONE - 0int / 30) == 0) by (nonlinear_arith);
    assert(0int * (ONE - 0int / 12) == 0) by (nonlinear_arith);
    assert(0int * (0int / 6) == 0);
}

/// The sine is odd: reversing the angle reverses the sign.
pub proof fn lemma_sin_odd(x: int)
    ensures
        sin_spec(-x) == -sin_spec(x),
{
    let t = x % (TAU as int);
    lemma_octant_origin();
    if t == 0 {
        assert((-x) % (TAU as int) == 0);
    } else {
        assert((-x) % (TAU as int) == TAU - t);
    }
}

/// Over the first half turn the sine is not negative, over the second not
/// positive, and nowhere does it leave the range from minus one to one.
pub proof fn lemma_sin_sign(x: int)
    ensures
        x % (TAU as int) <= PI ==> 0 <= sin_spec(x) <= ONE,
        x % (TAU as int) >= PI ==> -ONE <= sin_spec(x) <= 0,
{
    let t = x % (TAU as int);
    let h = t % (PI as int);
    let u = if h <= HALF_PI { h } else { PI - h };
    if u <= QUARTER_PI {
        lemma_octant_bounds(u);
    } else {
        lemma_octant_bounds(HALF_PI - u);
    }
    lemma_octant_origin();
}

/// Within each half turn the sine is mirrored about the quarter turn.
pub proof fn lemma_sin_mirror(x: int)
    ensures
        sin_spec(PI - x) == sin_spec(x),
{
    let t = x % (TAU as int);
    lemma_octant_origin();
    if t <= PI {
        assert((PI - x) % (TAU as int) == PI - t);
    } else {
        assert((PI - x) % (TAU as int) == PI - t + TAU);
    }
}

/// At the quarter turns the sine takes its exact values: zero, one, zero
/// and minus one.
pub proof fn lemma_sin_quarter_turns()
    ensures
        sin_spec(0) == 0,
        sin_spec(HALF_PI as int) == ONE,
        sin_spec(PI as int) == 0,
        sin_spec(3 * HALF_PI) == -ONE,
{
    lemma_octant_origin();
}

/// Whether `r` is the integer square root of `n`: the largest number whose
/// square does not exceed `n`.
pub open spec fn is_isqrt(n: nat, r: nat) -> bool {
    r * r <= n < (r + 1) * (r + 1)
}

/// The integer square root of `n`.
pub open spec fn isqrt_spec(n: nat) -> nat {
    choose|r: nat| is_isqrt(n, r)
}

/// Squaring is monotonic, so at most one number is the integer square root.
proof fn lemma_isqrt_unique(n: nat, r: nat, s: nat)
    by (nonlinear_arith)
    requires
        r * r <= n < (r + 1) * (r + 1),
        s * s <= n < (s + 1) * (s + 1),
    ensures
        r == s,
{
    if r < s {
        assert((r + 1) * (r + 1) <= s * s);
    }
    if s < r {
        assert((s + 1) * (s + 1) <= r * r);
    }
}

/// The largest number whose square does not exceed `n` is unique, so any
/// number that is one is the integer square root.
pub proof fn lemma_isqrt_is(n: nat, r: nat)
    requires
        is_isqrt(n, r),
    ensures
        isqrt_spec(n) == r,
{
    let s = isqrt_spec(n);
    assert(is_isqrt(n, s));
    lemma_isqrt_unique(n, r, s);
}

proof fn lemma_square_bound(m: int, hi: int)
    by (nonlinear_arith)
    requires
        0 <= m < hi,
    ensures
        0 <= m * m,
        m * m <= (hi - 1) * (hi - 1),
        (m + 1) * (m + 1) <= hi * hi,
{
}

/// Integer square root of a number below `2^64`, by bisection in 64 bits.
fn isqrt_narrow(n: u64) -> (r: u64)
    ensures
        is_isqrt(n as nat, r as nat),
        r < 0x1_0000_0000,
{
    let mut lo: u64 = 0;
    let mut hi: u64 = 0x1_0000_0000;
    assert(n < hi * hi) by (nonlinear_arith)
        requires
            hi == 0x1_0000_0000,
            n <= u64::MAX,
    ;
    while hi - lo > 1
        invariant
            lo < hi <= 0x1_0000_0000,
            lo * lo <= n < hi * hi,
        decreases hi - lo,
    {
        let mid: u64 = lo + (hi - lo) / 2;
        proof {
            lemma_square_bound(mid as int, 0x1_0000_0000);
        }
        if mid * mid <= n {
            lo = mid;
        } else {
            hi = mid;
        }
    }
    lo
}

/// Integer square root, by bisection.
///
/// A number below `2^64` has its root below `2^32` and is handled in 64
/// bits; the root of any other lies from `2^32` upward.
pub fn isqrt(n: u128) -> (r: u128)
    ensures
        is_isqrt(n as nat, r as nat),
        r == isqrt_spec(n as nat),
        r < 0x1_0000_0000_0000_0000,
{
    if n <= 0xffff_ffff_ffff_ffff {
        let r: u64 = isqrt_narrow(n as u64);
        proof {
            lemma_isqrt_is(n as nat, r as nat);
        }
        return r as u128;
    }
    let mut lo: u128 = 0x1_0000_0000;
    let mut hi: u128 = 0x1_0000_0000_0000_0000;
    assert(lo * lo <= n < hi * hi) by (nonlinear_arith)
        requires
            lo == 0x1_0000_0000,
            hi == 0x1_0000_0000_0000_0000,
            0xffff_ffff_ffff_ffff < n <= u128::MAX,
    ;
    while hi - lo > 1
        invariant
            lo < hi <= 0x1_0000_0000_0000_0000,
            lo * lo <= n < hi * hi,
        decreases hi - lo,
    {
        let mid: u128 = lo + (hi - lo) / 2;
        proof {
            lemma_square_bound(mid as int, 0x1_0000_0000_0000_0000);
        }
        if mid * mid <= n {
            lo = mid;
        } else {
            hi = mid;
        }
    }
    proof {
        lemma_isqrt_is(n as nat, lo as nat);
    }
    lo
}

/// The tangent of a sixteenth of a turn: below this ratio the arctangent
/// series is used as it stands, above it on the complementary ratio.
pub const OCTANT_SPLIT: i64 = 27146;

/// Arctangent of a ratio `z` in `0..=ONE`, by the Taylor polynomial
/// `z - z^3/3 + z^5/5 - z^7/7`, nested as
/// `z (1 - z^2 (1/3 - z^2 (1/5 - z^2/7)))`.
pub open spec fn arctan_series_spec(z: int) -> int {
    let w = (z * z) / (ONE as int);
    let fifth = 13107 - w / 7;
    let third = 21845 - (w * fifth) / (ONE as int);
    z - (z * ((w * third) / (ONE as int))) / (ONE as int)
}

/// Arctangent of a ratio `r` in `0..=ONE`. Up to the tangent of a sixteenth
/// of a turn the series is applied to `r` itself; beyond it, to
/// `(1 - r) / (1 + r)`, whose arctangent is an eighth of a turn less that
/// of `r`.
pub open spec fn arctan_unit_spec(r: int) -> int {
    if r <= OCTANT_SPLIT {
        arctan_series_spec(r)
    } else {
        QUARTER_PI - arctan_series_spec(((ONE - r) * ONE) / (ONE + r))
    }
}

/// The series stays between zero and its ratio.
proof fn lemma_arctan_series_bound(z: int)
    requires
        0 <= z <= ONE,
    ensures
        0 <= z * z <= ONE * ONE,
        0 <= (z * z) / (ONE as int) <= ONE,
        0 <= arctan_series_spec(z) <= z,
{
    lemma_fraction_bound(z, z);
    let w = (z * z) / (ONE as int);
    let fifth = 13107 - w / 7;
    lemma_fraction_bound(fifth, w);
    let third = 21845 - (w * fifth) / (ONE as int);
    lemma_fraction_bound(third, w);
    lemma_fraction_bound(z, (w * third) / (ONE as int));
}

/// Beyond the split the complementary ratio lies below it.
proof fn lemma_complement_bound(r: int)
    by (nonlinear_arith)
    requires
        OCTANT_SPLIT < r <= ONE,
    ensures
        0 <= (ONE - r) * ONE <= OCTANT_SPLIT * (ONE + r),
        0 <= ((ONE - r) * ONE) / (ONE + r) <= OCTANT_SPLIT,
{
    lemma_quotient_bound((ONE - r) * ONE, ONE + r, OCTANT_SPLIT as int);
}

/// The arctangent of a ratio of at most one is at most an eighth turn.
proof fn lemma_arctan_unit_bound(r: int)
    requires
        0 <= r <= ONE,
    ensures
        0 <= arctan_unit_spec(r) <= QUARTER_PI,
{
    if r <= OCTANT_SPLIT {
        lemma_arctan_series_bound(r);
    } else {
        lemma_complement_bound(r);
        lemma_arctan_series_bound(((ONE - r) * ONE) / (ONE + r));
    }
}

fn arctan_series(z: i64) -> (a: i64)
    requires
        0 <= z <= ONE,
    ensures
        a == arctan_series_spec(z as int),
        0 <= a <= z,
{
    proof {
        lemma_arctan_series_bound(z as int);
    }
    let w: i64 = (z * z) / ONE;
    let fifth: i64 = 13107 - w / 7;
    proof {
        lemma_fraction_bound(fifth as int, w as int);
    }
    let third: i64 = 21845 - (w * fifth) / ONE;
    proof {
        lemma_fraction_bound(third as int, w as int);
    }
    let cut: i64 = (w * third) / ONE;
    proof {
        lemma_fraction_bound(z as int, cut as int);
    }
    z - (z * cut) / ONE
}

fn arctan_unit(r: i64) -> (a: i64)
    requires
        0 <= r <= ONE,
    ensures
        a == arctan_unit_spec(r as int),
        0 <= a <= QUARTER_PI,
{
    if r <= OCTANT_SPLIT {
        arctan_series(r)
    } else {
        proof {
            lemma_complement_bound(r as int);
        }
        QUARTER_PI - arctan_series(((ONE - r) * ONE) / (ONE + r))
    }
}

/// Magnitude of a number.
pub open spec fn magnitude(v: int) -> int {
    if v < 0 {
        -v
    } else {
        v
    }
}

/// Angle of the vector `(x, y)` against the positive x axis, in radians
/// between `-PI` and `PI`; zero for the null vector.
///
/// The vector is folded into the first octant, where the ratio of its
/// shorter to its longer side is at most one, and the angle is unfolded
/// again by the symmetries of the arctangent.
pub open spec fn atan2_spec(y: int, x: int) -> int {
    let a = magnitude(x);
    let b = magnitude(y);
    let octant = if a == 0 && b == 0 {
        0
    } else if b <= a {
        arctan_unit_spec((b * ONE) / a)
    } else {
        HALF_PI - arctan_unit_spec((a * ONE) / b)
    };
    let half = if x < 0 {
        PI - octant
    } else {
        octant
    };
    if y < 0 {
        -half
    } else {
        half
    }
}

proof fn lemma_ratio_bound(lo: int, hi: int)
    by (nonlinear_arith)
    requires
        0 <= lo <= hi,
        0 < hi,
    ensures
        0 <= (lo * ONE) / hi <= ONE,
        0 <= lo * ONE <= hi * ONE,
{
    lemma_quotient_bound(lo * ONE, hi, ONE as int);
}

/// Angle of the vector `(x, y)`, in radians.
///
/// The result is exact along the axes and the diagonals and within a
/// ten-thousandth of a radian of the true angle elsewhere.
pub fn atan2(y: i64, x: i64) -> (r: i64)
    ensures
        r == atan2_spec(y as int, x as int),
        -PI <= r <= PI,
{
    let a: i128 = if x < 0 { -(x as i128) } else { x as i128 };
    let b: i128 = if y < 0 { -(y as i128) } else { y as i128 };
    let octant: i64 = if a == 0 && b == 0 {
        0
    } else if b <= a {
        proof {
            lemma_ratio_bound(b as int, a as int);
        }
        arctan_unit(div_floor(b * (ONE as i128), a) as i64)
    } else {
        proof {
            lemma_ratio_bound(a as int, b as int);
        }
        HALF_PI - arctan_unit(div_floor(a * (ONE as i128), b) as i64)
    };
    let half: i64 = if x < 0 { PI - octant } else { octant };
    if y < 0 {
        -half
    } else {
        half
    }
}

/// Along the axes and the diagonal of the first quadrant the angle is
/// exact: zero to the right, a quarter turn upward, half a turn to the left,
/// minus a quarter turn downward, an eighth turn on the diagonal.
pub proof fn lemma_atan2_axes(d: int)
    requires
        d > 0,
    ensures
        atan2_spec(0, 0) == 0,
        atan2_spec(0, d) == 0,
        atan2_spec(d, 0) == HALF_PI,
        atan2_spec(0, -d) == PI,
        atan2_spec(-d, 0) == -HALF_PI,
        atan2_spec(d, d) == QUARTER_PI,
{
    assert((0 * ONE) / d == 0);
    lemma_div_multiples_vanish(ONE as int, d);
    assert(d * ONE == ONE * d) by (nonlinear_arith);
    lemma_arctan_series_bound(0);
    assert(arctan_unit_spec(0) == 0);
    assert(((ONE - ONE) * ONE) / (ONE + ONE) == 0);
    assert(arctan_unit_spec(ONE as int) == QUARTER_PI);
}

/// Mirroring a vector in the x axis reverses its angle, except on the
/// negative x axis itself, where the angle is half a turn either way.
pub proof fn lemma_atan2_odd(y: int, x: int)
    requires
        y != 0,
    ensures
        atan2_spec(-y, x) == -atan2_spec(y, x),
{
}

/// The angle lies in the octant of its vector: within an eighth turn of
/// the x axis where the vector is flatter than steep, within an eighth turn
/// of the y axis where it is steeper, and on the side of each axis on
/// which the vector lies.
pub proof fn lemma_atan2_octant(y: int, x: int)
    ensures
        x >= 0 && y >= 0 ==> 0 <= atan2_spec(y, x) <= HALF_PI,
        x < 0 && y >= 0 ==> HALF_PI <= atan2_spec(y, x) <= PI,
        x < 0 && y < 0 ==> -PI <= atan2_spec(y, x) <= -HALF_PI,
        x >= 0 && y < 0 ==> -HALF_PI <= atan2_spec(y, x) <= 0,
        magnitude(y) <= magnitude(x) ==> magnitude(atan2_spec(y, x)) <= QUARTER_PI || magnitude(
            atan2_spec(y, x),
        ) >= PI - QUARTER_PI,
        magnitude(y) > magnitude(x) ==> QUARTER_PI <= magnitude(atan2_spec(y, x)) <= PI
            - QUARTER_PI,
{
    let a = magnitude(x);
    let b = magnitude(y);
    if a == 0 && b == 0 {
    } else if b <= a {
        lemma_ratio_bound(b, a);
        lemma_arctan_unit_bound((b * ONE) / a);
    } else {
        lemma_ratio_bound(a, b);
        lemma_arctan_unit_bound((a * ONE) / b);
    }
}

} // verus!
