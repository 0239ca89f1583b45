//! Fixed-point scalars.
//!
//! Every real-valued quantity of the simulation (canvas units, radians,
//! speeds, weights) is carried as an `i64` counting micro-units: the real
//! value times `SCALE`.  The full circle is the constant `TAU` micro-radians,
//! chosen divisible by four so that the quarter turns are exact.

use vstd::prelude::*;
use vstd::arithmetic::div_mod::lemma_fundamental_div_mod;
use vstd::arithmetic::div_mod::lemma_fundamental_div_mod_converse;
use vstd::arithmetic::div_mod::lemma_mod_bound;

verus! {

/// Micro-units in one unit: one canvas unit, one radian, one unit of speed.
pub const SCALE: i64 = 1_000_000;

/// One full turn, in micro-radians; divisible by four.
pub const TAU: i64 = 6_283_184;

/// Half a turn, in micro-radians.
pub const HALF_TURN: i64 = 3_141_592;

/// A quarter turn, in micro-radians.
pub const QUARTER_TURN: i64 = 1_570_796;

/// The sign of an integer: `1` above zero, `-1` below, `0` at zero.
pub open spec fn sgn(v: int) -> int {
    if v > 0 {
        1
    } else if v < 0 {
        -1
    } else {
        0
    }
}

/// `v` forced into `[lo, hi]`: the nearer bound when `v` lies outside.
pub open spec fn clamp_spec(v: int, lo: int, hi: int) -> int {
    if v > hi {
        hi
    } else if v < lo {
        lo
    } else {
        v
    }
}

/// The smaller of two integers.
pub open spec fn min_spec(a: int, b: int) -> int {
    if a <= b {
        a
    } else {
        b
    }
}

/// The absolute value of an integer.
pub open spec fn abs_spec(v: int) -> int {
    if v < 0 {
        -v
    } else {
        v
    }
}

/// The sign of a scalar.
pub fn sign_i64(v: i64) -> (r: i64)
    ensures
        r == sgn(v as int),
{
    if v > 0 {
        1
    } else if v < 0 {
        -1
    } else {
        0
    }
}

/// A scalar forced into `[lo, hi]`.
pub fn clamp_i64(v: i64, lo: i64, hi: i64) -> (r: i64)
    requires
        lo <= hi,
    ensures
        r == clamp_spec(v as int, lo as int, hi as int),
{
    if v > hi {
        hi
    } else if v < lo {
        lo
    } else {
        v
    }
}

/// The smaller of two scalars.
pub fn min_i64(a: i64, b: i64) -> (r: i64)
    ensures
        r == min_spec(a as int, b as int),
{
    if a <= b {
        a
    } else {
        b
    }
}

/// The absolute difference of two scalars.
pub fn abs_diff(a: i64, b: i64) -> (r: i64)
    requires
        -0x4000_0000_0000_0000 < a < 0x4000_0000_0000_0000,
        -0x4000_0000_0000_0000 < b < 0x4000_0000_0000_0000,
    ensures
        r == abs_spec(a - b),
{
    if a >= b {
        a - b
    } else {
        b - a
    }
}

/// Euclidean division of a negative dividend, written with non-negative
/// operands only; lets executable code use machine division, which truncates.
proof fn lemma_neg_div(p: int, m: int)
    requires
        p < 0,
        m > 0,
    ensures
        p / m == -((-p + m - 1) / m),
        0 <= -p + m - 1,
{
    let q = p / m;
    let r = p % m;
    lemma_fundamental_div_mod(p, m);
    lemma_mod_bound(p, m);
    assert(-p + m - 1 == (-q) * m + (m - 1 - r)) by {
        assert(p == q * m + r);
        assert((-q) * m == -(q * m)) by (nonlinear_arith);
    }
    lemma_fundamental_div_mod_converse(-p + m - 1, m, -q, m - 1 - r);
}

/// Floor division of an `i128` by a positive `i64`, agreeing with the
/// mathematical (Euclidean) quotient also when the dividend is negative.
fn div_floor_i128(p: i128, m: i64) -> (q: i128)
    requires
        m > 0,
        -0x4000_0000_0000_0000_0000_0000_0000_0000 <= p,
        p <= 0x4000_0000_0000_0000_0000_0000_0000_0000,
    ensures
        q == (p as int) / (m as int),
{
    if p >= 0 {
        p / (m as i128)
    } else {
        proof {
            lemma_neg_div(p as int, m as int);
        }
        let flipped: i128 = -p + (m as i128) - 1;
        -(flipped / (m as i128))
    }
}

/// The floor of `a * b / m`, the exact product divided with Euclidean
/// rounding; the work is done in 128 bits so the product never overflows.
pub fn mul_div_floor(a: i64, b: i64, m: i64) -> (r: i64)
    requires
        m > 0,
        -0x8000_0000_0000_0000 <= (a as int) * (b as int) / (m as int),
        (a as int) * (b as int) / (m as int) < 0x8000_0000_0000_0000,
    ensures
        r == (a as int) * (b as int) / (m as int),
{
    proof {
        assert(-0x4000_0000_0000_0000_0000_0000_0000_0000 <= (a as int) * (b as int)
            <= 0x4000_0000_0000_0000_0000_0000_0000_0000) by (nonlinear_arith)
            requires
                -0x8000_0000_0000_0000 <= a <= 0x7fff_ffff_ffff_ffff,
                -0x8000_0000_0000_0000 <= b <= 0x7fff_ffff_ffff_ffff,
        ;
    }
    let p: i128 = (a as i128) * (b as i128);
    let q: i128 = div_floor_i128(p, m);
    q as i64
}

/// The floor of `a * b * c / m` with the full triple product formed first;
/// 128-bit intermediates, so the caller only bounds the inputs.
pub fn mul3_div_floor(a: i64, b: i64, c: i64, m: i64) -> (r: i64)
    requires
        m > 0,
        abs_spec(a as int) <= 0x1_0000_0000_0000,
        abs_spec(b as int) <= 0x1_0000_0000_0000,
        abs_spec(c as int) <= 0x4000,
        -0x8000_0000_0000_0000 <= (a as int) * (b as int) * (c as int) / (m as int),
        (a as int) * (b as int) * (c as int) / (m as int) < 0x8000_0000_0000_0000,
    ensures
        r == (a as int) * (b as int) * (c as int) / (m as int),
{
    proof {
        assert(-0x4000_0000_0000_0000_0000_0000_0000_0000 <= (a as int) * (b as int) * (c as int)
            <= 0x4000_0000_0000_0000_0000_0000_0000_0000
            && -0x4000_0000_0000_0000_0000_0000_0000_0000 <= (a as int) * (b as int)
            <= 0x4000_0000_0000_0000_0000_0000_0000_0000) by (nonlinear_arith)
            requires
                abs_spec(a as int) <= 0x1_0000_0000_0000,
                abs_spec(b as int) <= 0x1_0000_0000_0000,
                abs_spec(c as int) <= 0x4000,
        ;
    }
    let p: i128 = (a as i128) * (b as i128) * (c as i128);
    let q: i128 = div_floor_i128(p, m);
    q as i64
}

} // verus!
