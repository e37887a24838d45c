//! Coordinate spaces and the affine maps between them.
//!
//! Strokes are stored in a normalized square canvas space so that they are
//! independent of the raster's resolution. A canvas coordinate is a
//! fixed-point integer: the span of the mapped rectangle corresponds to
//! `CANVAS_UNITS` canvas units. `to_canvas_axis` maps a pixel coordinate of a
//! rectangle into canvas units and `from_canvas_axis` maps it back; both
//! round to nearest (half up), and as long as the rectangle's side is shorter
//! than `CANVAS_UNITS` the round trip is exact (`lemma_axis_round_trip`).

use vstd::prelude::*;
use vstd::arithmetic::div_mod::{
    lemma_div_is_ordered, lemma_fundamental_div_mod, lemma_fundamental_div_mod_converse_div,
    lemma_mod_division_less_than_divisor,
};

verus! {

/// Number of fixed-point canvas units spanned by the mapped rectangle.
pub const CANVAS_UNITS: i64 = 1_000_000;

/// Largest width or height, in pixels, of any raster or panel rectangle.
pub const MAX_DIM: i64 = 65_535;

/// Canvas coordinates of stored stroke points stay within this magnitude.
pub const CANVAS_BOUND: i64 = 1_000_000_000;

/// Largest numerator magnitude accepted by `rdiv_exec`.
pub const RDIV_MAX_NUMER: i64 = 2_000_000_000_000_000;

/// Largest divisor accepted by `rdiv_exec`.
pub const RDIV_MAX_DENOM: i64 = 2_000_000_000;

/// Quotient `x / d` rounded to the nearest integer, halves rounded up;
/// meaningful for `d > 0`.
pub open spec fn rdiv(x: int, d: int) -> int {
    (2 * x + d) / (2 * d)
}

/// Canvas coordinate of pixel coordinate `v` inside a rectangle side of
/// length `len` pixels.
pub open spec fn to_canvas_spec(v: int, len: int) -> int {
    rdiv(v * CANVAS_UNITS as int, len)
}

/// Pixel coordinate, inside a rectangle side of length `len` pixels, of
/// canvas coordinate `c`.
pub open spec fn from_canvas_spec(c: int, len: int) -> int {
    rdiv(c * len, CANVAS_UNITS as int)
}

/// For a negative numerator, Euclidean division by a positive divisor equals
/// the negated rounded-up division of the magnitude.
proof fn lemma_neg_div(m: int, b: int)
    requires
        1 <= m,
        1 <= b,
    ensures
        (-m) / b == -((m + b - 1) / b),
{
    let q = (m + b - 1) / b;
    let r = (m + b - 1) % b;
    lemma_fundamental_div_mod(m + b - 1, b);
    lemma_mod_division_less_than_divisor(m + b - 1, b);
    assert(m + b - 1 == b * q + r);
    assert(-m == (-q) * b + (b - 1 - r)) by (nonlinear_arith)
        requires
            m + b - 1 == b * q + r,
    ;
    lemma_fundamental_div_mod_converse_div(-m, b, -q, b - 1 - r);
}

/// Rounded-to-nearest division `rdiv(x, d)`, computed without signed
/// division.
pub fn rdiv_exec(x: i64, d: i64) -> (q: i64)
    requires
        1 <= d <= RDIV_MAX_DENOM,
        -RDIV_MAX_NUMER <= x <= RDIV_MAX_NUMER,
    ensures
        q == rdiv(x as int, d as int),
{
    let a: i64 = 2 * x + d;
    let b: i64 = 2 * d;
    if a >= 0 {
        let q0: u64 = (a as u64) / (b as u64);
        q0 as i64
    } else {
        let m: i64 = -a;
        let n: u64 = (m as u64) + (b as u64) - 1;
        let q0: u64 = n / (b as u64);
        proof {
            lemma_neg_div(m as int, b as int);
        }
        -(q0 as i64)
    }
}

/// `v` clamped into `[lo, hi]`.
pub open spec fn clamp_spec(v: int, lo: int, hi: int) -> int {
    if v < lo {
        lo
    } else if v > hi {
        hi
    } else {
        v
    }
}

/// Clamp a coordinate into `[lo, hi]`.
pub fn clamp_i64(v: i64, lo: i64, hi: i64) -> (r: i64)
    requires
        lo <= hi,
    ensures
        r == clamp_spec(v as int, lo as int, hi as int),
        lo <= r <= hi,
{
    if v < lo {
        lo
    } else if v > hi {
        hi
    } else {
        v
    }
}

/// Map pixel coordinate `v` of a rectangle side of `len` pixels into canvas
/// units.
pub fn to_canvas_axis(v: i64, len: i64) -> (c: i64)
    requires
        1 <= len <= MAX_DIM,
        -CANVAS_BOUND <= v <= CANVAS_BOUND,
    ensures
        c == to_canvas_spec(v as int, len as int),
{
    rdiv_exec(v * CANVAS_UNITS, len)
}

/// Map canvas coordinate `c` back to a pixel coordinate of a rectangle side
/// of `len` pixels.
pub fn from_canvas_axis(c: i64, len: i64) -> (v: i64)
    requires
        1 <= len <= MAX_DIM,
        -CANVAS_BOUND <= c <= CANVAS_BOUND,
    ensures
        v == from_canvas_spec(c as int, len as int),
        -100_000_000 <= v <= 100_000_000,
{
    proof {
        assert(-100_000_000_000_000 <= (c as int) * (len as int) <= 100_000_000_000_000)
            by (nonlinear_arith)
            requires
                -1_000_000_000 <= c as int <= 1_000_000_000,
                1 <= len as int <= 100_000,
        ;
        lemma_div_is_ordered(
            2 * ((c as int) * (len as int)) + 1_000_000,
            200_000_001_000_000,
            2_000_000,
        );
        lemma_div_is_ordered(
            -200_000_000_000_000,
            2 * ((c as int) * (len as int)) + 1_000_000,
            2_000_000,
        );
    }
    rdiv_exec(c * len, CANVAS_UNITS)
}

/// A pixel coordinate inside the rectangle maps into `[0, CANVAS_UNITS]`.
pub proof fn lemma_to_canvas_range(v: int, len: int)
    requires
        0 <= v <= len,
        1 <= len,
    ensures
        0 <= to_canvas_spec(v, len) <= CANVAS_UNITS as int,
{
    let s = CANVAS_UNITS as int;
    assert(0 <= v * s <= len * s) by (nonlinear_arith)
        requires
            0 <= v <= len,
            0 < s,
    ;
    vstd::arithmetic::div_mod::lemma_div_pos_is_pos(2 * (v * s) + len, 2 * len);
    lemma_div_is_ordered(2 * (v * s) + len, 2 * (len * s) + len, 2 * len);
    assert(2 * (len * s) + len == s * (2 * len) + len) by (nonlinear_arith);
    lemma_fundamental_div_mod_converse_div(2 * (len * s) + len, 2 * len, s, len);
}

/// Round-tripping a pixel coordinate through canvas space is exact: mapping
/// any pixel coordinate of a rectangle side shorter than `CANVAS_UNITS`
/// into canvas units and back returns the same coordinate.
pub proof fn lemma_axis_round_trip(v: int, len: int)
    requires
        1 <= len < CANVAS_UNITS as int,
    ensures
        from_canvas_spec(to_canvas_spec(v, len), len) == v,
{
    let s = CANVAS_UNITS as int;
    let c = to_canvas_spec(v, len);
    let r = (2 * (v * s) + len) % (2 * len);
    lemma_fundamental_div_mod(2 * (v * s) + len, 2 * len);
    lemma_mod_division_less_than_divisor(2 * (v * s) + len, 2 * len);
    assert(2 * (v * s) + len == (2 * len) * c + r);
    let r2 = len - r + s;
    assert(0 <= r2 < 2 * s);
    assert(2 * (c * len) + s == v * (2 * s) + r2) by (nonlinear_arith)
        requires
            2 * (v * s) + len == (2 * len) * c + r,
            r2 == len - r + s,
    ;
    lemma_fundamental_div_mod_converse_div(2 * (c * len) + s, 2 * s, v, r2);
}

} // verus!
