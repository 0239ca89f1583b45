//! Fixed-point circle functions.
//!
//! Sine and cosine use a quadratic rational approximation on each half
//! circle; it is exact at the quarter turns and stays within `SCALE` in
//! magnitude.  The arc tangent uses an octant reduction with a quadratic
//! correction, exact on the axes and the diagonals.  These are the
//! simulation's own trigonometry: every caller's contract is stated over
//! the spec functions below, which the executable code computes exactly.

use vstd::prelude::*;
use vstd::arithmetic::div_mod::lemma_div_is_ordered;
use vstd::arithmetic::div_mod::lemma_div_multiples_vanish;
use vstd::arithmetic::div_mod::lemma_div_pos_is_pos;
use crate::angle::Angle;
use crate::angle::norm;
use crate::fixed::SCALE;
use crate::fixed::TAU;
use crate::fixed::HALF_TURN;
use crate::fixed::QUARTER_TURN;
use crate::fixed::mul_div_floor;

verus! {

/// Slope of the arc-tangent approximation at the origin: an eighth of a
/// turn per unit of ratio.
pub const ATAN_COEF: i64 = 785_398;

/// Coefficient of the quadratic correction term of the arc tangent,
/// in micro-radians.
pub const ATAN_CURVE: i64 = 273_000;

/// Sine on the first half circle, `x` in `[0, HALF_TURN]`: the quadratic
/// rational approximation `16 t S / (5 H^2 - 4 t)` with `t = x (H - x)`.
pub open spec fn sin_half_spec(x: int) -> int {
    let t = x * (HALF_TURN as int - x);
    (16 * t * (SCALE as int)) / (5 * (HALF_TURN as int) * (HALF_TURN as int) - 4 * t)
}

/// Sine of a normalized angle, in micro-units of `[-SCALE, SCALE]`.
pub open spec fn sin_spec(a: int) -> int {
    if a <= HALF_TURN as int {
        sin_half_spec(a)
    } else {
        -sin_half_spec(a - HALF_TURN as int)
    }
}

/// Cosine of a normalized angle: the sine a quarter turn further on.
pub open spec fn cos_spec(a: int) -> int {
    sin_spec(norm(a + QUARTER_TURN as int))
}

/// The approximated sine lies in `[0, SCALE]` on the first half circle.
pub proof fn lemma_sin_half_bounds(x: int)
    requires
        0 <= x <= HALF_TURN as int,
    ensures
        0 <= sin_half_spec(x) <= SCALE as int,
{
    let h = HALF_TURN as int;
    let t = x * (h - x);
    let num = 16 * t * (SCALE as int);
    let den = 5 * h * h - 4 * t;
    assert(0 <= t && 4 * t <= h * h) by (nonlinear_arith)
        requires
            0 <= x <= h,
            t == x * (h - x),
    ;
    assert(den >= 4 * h * h);
    lemma_div_pos_is_pos(num, den);
    assert(num <= den * (SCALE as int)) by (nonlinear_arith)
        requires
            num == 16 * t * (SCALE as int),
            4 * t <= h * h,
            den >= 4 * h * h,
            h == HALF_TURN as int,
    ;
    lemma_div_is_ordered(num, den * (SCALE as int), den);
    lemma_div_multiples_vanish(SCALE as int, den);
}

/// The approximated sine lies in `[-SCALE, SCALE]` on the whole circle.
pub proof fn lemma_sin_bounds(a: int)
    requires
        0 <= a < TAU as int,
    ensures
        -(SCALE as int) <= sin_spec(a) <= SCALE as int,
{
    if a <= HALF_TURN as int {
        lemma_sin_half_bounds(a);
    } else {
        lemma_sin_half_bounds(a - HALF_TURN as int);
    }
}

/// Sine on the first half circle.
fn sin_half(x: i64) -> (r: i64)
    requires
        0 <= x <= HALF_TURN,
    ensures
        r == sin_half_spec(x as int),
        0 <= r <= SCALE,
{
    proof {
        lemma_sin_half_bounds(x as int);
        assert(0 <= (x as int) * (HALF_TURN as int - x)
            && 4 * ((x as int) * (HALF_TURN as int - x))
            <= (HALF_TURN as int) * (HALF_TURN as int)) by (nonlinear_arith)
            requires
                0 <= x <= HALF_TURN as int,
        ;
        assert((HALF_TURN as int) * (HALF_TURN as int) < 0x2400_0000_0000_0000) by (nonlinear_arith)
            requires
                HALF_TURN == 3_141_592,
        ;
    }
    let t: i64 = x * (HALF_TURN - x);
    let den: i64 = 5 * HALF_TURN * HALF_TURN - 4 * t;
    let num: i128 = 16 * (t as i128) * (SCALE as i128);
    (num / (den as i128)) as i64
}

/// Arc tangent of a ratio `z` in `[0, SCALE]` (the first octant): the
/// linear term plus a quadratic correction, exact at `0` and at `SCALE`.
pub open spec fn atan_unit_spec(z: int) -> int {
    let t = z * (SCALE as int - z);
    (z * (ATAN_COEF as int)) / (SCALE as int) + ((ATAN_CURVE as int) * t) / (
    (SCALE as int) * (SCALE as int))
}

/// Arc tangent of the direction `(y, x)` for `y >= 0`, in `[0, HALF_TURN]`;
/// `0` along the positive `x` axis, growing toward the negative `x` axis.
pub open spec fn atan2_upper_spec(y: int, x: int) -> int {
    if x >= 0 {
        if y <= x {
            if x == 0 {
                0
            } else {
                atan_unit_spec(y * (SCALE as int) / x)
            }
        } else {
            QUARTER_TURN as int - atan_unit_spec(x * (SCALE as int) / y)
        }
    } else {
        if y <= -x {
            HALF_TURN as int - atan_unit_spec(y * (SCALE as int) / (-x))
        } else {
            QUARTER_TURN as int + atan_unit_spec((-x) * (SCALE as int) / y)
        }
    }
}

/// Arc tangent of a direction `(y, x)`, in `[-HALF_TURN, HALF_TURN]`;
/// odd in `y`, and `0` when both arguments are zero.
pub open spec fn atan2_spec(y: int, x: int) -> int {
    if y >= 0 {
        atan2_upper_spec(y, x)
    } else {
        -atan2_upper_spec(-y, x)
    }
}

/// A ratio of ordered non-negative scalars scaled to `[0, SCALE]`.
pub proof fn lemma_ratio_unit(y: int, x: int)
    requires
        0 <= y <= x,
        x > 0,
    ensures
        0 <= y * (SCALE as int) / x <= SCALE as int,
{
    lemma_div_pos_is_pos(y * (SCALE as int), x);
    assert(y * (SCALE as int) <= x * (SCALE as int)) by (nonlinear_arith)
        requires
            0 <= y <= x,
    ;
    lemma_div_is_ordered(y * (SCALE as int), x * (SCALE as int), x);
    lemma_div_multiples_vanish(SCALE as int, x);
}

/// The octant arc tangent lies in `[0, ATAN_COEF + ATAN_CURVE / 4]`.
pub proof fn lemma_atan_unit_bounds(z: int)
    requires
        0 <= z <= SCALE as int,
    ensures
        0 <= atan_unit_spec(z) <= 853_648,
{
    let s = SCALE as int;
    let t = z * (s - z);
    assert(0 <= t && 4 * t <= s * s) by (nonlinear_arith)
        requires
            0 <= z <= s,
            t == z * (s - z),
    ;
    lemma_div_pos_is_pos(z * (ATAN_COEF as int), s);
    assert(z * (ATAN_COEF as int) <= s * (ATAN_COEF as int)) by (nonlinear_arith)
        requires
            0 <= z <= s,
    ;
    lemma_div_is_ordered(z * (ATAN_COEF as int), s * (ATAN_COEF as int), s);
    lemma_div_multiples_vanish(ATAN_COEF as int, s);
    lemma_div_pos_is_pos((ATAN_CURVE as int) * t, s * s);
    assert((ATAN_CURVE as int) * t <= (s * s) * 68_250) by (nonlinear_arith)
        requires
            4 * t <= s * s,
            0 <= t,
            s == SCALE as int,
            SCALE == 1_000_000,
            ATAN_CURVE == 273_000,
    ;
    assert((s * s) * 68_250 == 68_250 * (s * s)) by (nonlinear_arith);
    lemma_div_is_ordered((ATAN_CURVE as int) * t, 68_250 * (s * s), s * s);
    assert(s * s > 0) by (nonlinear_arith)
        requires
            s == 1_000_000,
    ;
    lemma_div_multiples_vanish(68_250, s * s);
}

/// The half-plane arc tangent lies in `[0, HALF_TURN]`.
pub proof fn lemma_atan2_upper_bounds(y: int, x: int)
    requires
        y >= 0,
    ensures
        0 <= atan2_upper_spec(y, x) <= HALF_TURN as int,
{
    if x >= 0 {
        if y <= x {
            if x != 0 {
                lemma_ratio_unit(y, x);
                lemma_atan_unit_bounds(y * (SCALE as int) / x);
            }
        } else {
            lemma_ratio_unit(x, y);
            lemma_atan_unit_bounds(x * (SCALE as int) / y);
        }
    } else {
        if y <= -x {
            lemma_ratio_unit(y, -x);
            lemma_atan_unit_bounds(y * (SCALE as int) / (-x));
        } else {
            lemma_ratio_unit(-x, y);
            lemma_atan_unit_bounds((-x) * (SCALE as int) / y);
        }
    }
}

/// Arc tangent of a ratio in the first octant.
fn atan_unit(z: i64) -> (r: i64)
    requires
        0 <= z <= SCALE,
    ensures
        r == atan_unit_spec(z as int),
        0 <= r <= 853_648,
{
    proof {
        lemma_atan_unit_bounds(z as int);
        assert(0 <= (z as int) * (SCALE as int - z) <= 0x4_0000_0000_0000) by (nonlinear_arith)
            requires
                0 <= z <= SCALE as int,
                SCALE == 1_000_000,
        ;
        assert((SCALE as int) * (SCALE as int) == 1_000_000_000_000);
    }
    let t: i64 = z * (SCALE - z);
    let linear = mul_div_floor(z, ATAN_COEF, SCALE);
    let curve = mul_div_floor(ATAN_CURVE, t, 1_000_000_000_000);
    linear + curve
}

/// Arc tangent of a direction, in `[-HALF_TURN, HALF_TURN]` micro-radians;
/// `0` along the positive `x` axis, positive for positive `y`.
pub fn atan2(y: i64, x: i64) -> (r: i64)
    requires
        -4_000_000_000_000 <= y <= 4_000_000_000_000,
        -4_000_000_000_000 <= x <= 4_000_000_000_000,
    ensures
        r == atan2_spec(y as int, x as int),
        -HALF_TURN <= r <= HALF_TURN,
{
    proof {
        if y >= 0 {
            lemma_atan2_upper_bounds(y as int, x as int);
        } else {
            lemma_atan2_upper_bounds(-y as int, x as int);
        }
    }
    if y >= 0 {
        atan2_upper(y, x)
    } else {
        -atan2_upper(-y, x)
    }
}

/// Arc tangent on the closed upper half plane.
fn atan2_upper(y: i64, x: i64) -> (r: i64)
    requires
        0 <= y <= 4_000_000_000_000,
        -4_000_000_000_000 <= x <= 4_000_000_000_000,
    ensures
        r == atan2_upper_spec(y as int, x as int),
        0 <= r <= HALF_TURN,
{
    proof {
        lemma_atan2_upper_bounds(y as int, x as int);
    }
    if x >= 0 {
        if y <= x {
            if x == 0 {
                0
            } else {
                proof {
                    lemma_ratio_unit(y as int, x as int);
                }
                atan_unit(mul_div_floor(y, SCALE, x))
            }
        } else {
            proof {
                lemma_ratio_unit(x as int, y as int);
            }
            QUARTER_TURN - atan_unit(mul_div_floor(x, SCALE, y))
        }
    } else {
        if y <= -x {
            proof {
                lemma_ratio_unit(y as int, -x as int);
            }
            HALF_TURN - atan_unit(mul_div_floor(y, SCALE, -x))
        } else {
            proof {
                lemma_ratio_unit(-x as int, y as int);
            }
            QUARTER_TURN + atan_unit(mul_div_floor(-x, SCALE, y))
        }
    }
}

/// The integer square root: the largest `s` with `s * s <= n`.
pub open spec fn sqrt_floor(n: nat) -> nat
    decreases n,
{
    if n == 0 {
        0
    } else {
        let s = sqrt_floor((n - 1) as nat);
        if (s + 1) * (s + 1) <= n {
            s + 1
        } else {
            s
        }
    }
}

/// The integer square root is characterized by its bracketing squares.
pub proof fn lemma_sqrt_floor(n: nat)
    ensures
        sqrt_floor(n) * sqrt_floor(n) <= n,
        n < (sqrt_floor(n) + 1) * (sqrt_floor(n) + 1),
    decreases n,
{
    let r = sqrt_floor(n);
    if n > 0 {
        lemma_sqrt_floor((n - 1) as nat);
        let s = sqrt_floor((n - 1) as nat);
        if (s + 1) * (s + 1) <= n {
            assert(r == s + 1);
            assert(r * r <= n && n < (r + 1) * (r + 1)) by (nonlinear_arith)
                requires
                    r == s + 1,
                    (s + 1) * (s + 1) <= n,
                    n - 1 < (s + 1) * (s + 1),
            ;
        } else {
            assert(r == s);
            assert(r * r <= n && n < (r + 1) * (r + 1)) by (nonlinear_arith)
                requires
                    r == s,
                    s * s <= n - 1,
                    !((s + 1) * (s + 1) <= n),
                    n >= 1,
            ;
        }
    } else {
        assert(r == 0);
        assert(r * r <= n && n < (r + 1) * (r + 1)) by (nonlinear_arith)
            requires
                r == 0,
                n == 0,
        ;
    }
}

/// Two brackets around the same value name the same root.
proof fn lemma_sqrt_unique(n: nat, a: nat)
    requires
        a * a <= n,
        n < (a + 1) * (a + 1),
    ensures
        a == sqrt_floor(n),
{
    lemma_sqrt_floor(n);
    let b = sqrt_floor(n);
    assert(a == b) by (nonlinear_arith)
        requires
            a * a <= n,
            n < (a + 1) * (a + 1),
            b * b <= n,
            n < (b + 1) * (b + 1),
    ;
}

/// The integer square root, by bisection.
pub fn isqrt(n: u64) -> (r: u64)
    ensures
        r == sqrt_floor(n as nat),
{
    let mut lo: u64 = 0;
    let mut hi: u64 = 4_294_967_296;
    proof {
        assert((hi as int) * (hi as int) > n as int) by (nonlinear_arith)
            requires
                hi == 4_294_967_296,
                n <= 0xffff_ffff_ffff_ffff,
        ;
    }
    while lo + 1 < hi
        invariant
            lo < hi,
            hi <= 4_294_967_296,
            (lo as int) * (lo as int) <= n as int,
            (n as int) < (hi as int) * (hi as int),
        decreases hi - lo,
    {
        let mid: u64 = lo + (hi - lo) / 2;
        proof {
            assert((mid as int) * (mid as int) <= 0x1_0000_0000_0000_0000) by (nonlinear_arith)
                requires
                    0 <= mid <= 4_294_967_296,
            ;
        }
        if (mid as u128) * (mid as u128) <= n as u128 {
            lo = mid;
        } else {
            hi = mid;
        }
    }
    proof {
        lemma_sqrt_unique(n as nat, lo as nat);
    }
    lo
}

/// Arc sine of a ratio in `[0, SCALE]`: the arc tangent of the ratio
/// against the root of its complement.
pub open spec fn asin_unit_spec(z: int) -> int {
    atan2_spec(z, sqrt_floor(((SCALE as int) * (SCALE as int) - z * z) as nat) as int)
}

/// Arc sine of a ratio in the first quadrant, in micro-radians.
pub fn asin_unit(z: i64) -> (r: i64)
    requires
        0 <= z <= SCALE,
    ensures
        r == asin_unit_spec(z as int),
        0 <= r <= HALF_TURN,
{
    proof {
        assert(0 <= (z as int) * (z as int) <= (SCALE as int) * (SCALE as int))
            by (nonlinear_arith)
            requires
                0 <= z <= SCALE,
        ;
    }
    let complement: u64 = ((SCALE as i128 * SCALE as i128 - z as i128 * z as i128)) as u64;
    let c = isqrt(complement);
    proof {
        lemma_sqrt_floor(complement as nat);
        assert(sqrt_floor(complement as nat) <= 1_000_000) by {
            let s = sqrt_floor(complement as nat);
            assert(s <= 1_000_000) by (nonlinear_arith)
                requires
                    s * s <= 1_000_000_000_000,
            ;
        }
        lemma_atan2_upper_bounds(z as int, c as int);
    }
    atan2(z, c as i64)
}

impl Angle {
    /// Fixed-point sine of the angle, in `[-SCALE, SCALE]`.
    pub fn sin(&self) -> (r: i64)
        requires
            self.wf(),
        ensures
            r == sin_spec(self@),
            -SCALE <= r <= SCALE,
    {
        proof {
            lemma_sin_bounds(self@);
        }
        let raw = self.get();
        if raw <= HALF_TURN {
            sin_half(raw)
        } else {
            -sin_half(raw - HALF_TURN)
        }
    }

    /// Fixed-point cosine of the angle, in `[-SCALE, SCALE]`.
    pub fn cos(&self) -> (r: i64)
        requires
            self.wf(),
        ensures
            r == cos_spec(self@),
            -SCALE <= r <= SCALE,
    {
        let shifted = self.add_i64(QUARTER_TURN);
        proof {
            lemma_sin_bounds(shifted@);
        }
        shifted.sin()
    }
}

} // verus!
