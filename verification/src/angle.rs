//! A scalar on the circle `[0, TAU)`.
//!
//! Values are normalized on construction and after every operation.  The
//! heading convention of the simulation: `0` points up-screen and the angle
//! grows clockwise in screen coordinates.

use vstd::prelude::*;
use vstd::arithmetic::div_mod::lemma_fundamental_div_mod;
use vstd::arithmetic::div_mod::lemma_fundamental_div_mod_converse;
use vstd::arithmetic::div_mod::lemma_mod_bound;
use vstd::arithmetic::div_mod::lemma_small_mod;
use crate::fixed::TAU;
use crate::fixed::HALF_TURN;

verus! {

/// The unique representative of `v` in `[0, TAU)`: for `v >= 0` the
/// remainder of `v` by `TAU`, shifted up by one turn for negative `v`.
pub open spec fn norm(v: int) -> int {
    v % (TAU as int)
}

/// The sign of the shortest signed arc from `0` to a normalized angle:
/// `0` at `0` and at the half turn, `1` on the upper half circle,
/// `-1` on the lower half circle.
pub open spec fn angle_sgn(a: int) -> int {
    if a == 0 || a == HALF_TURN as int {
        0
    } else if a < HALF_TURN as int {
        1
    } else {
        -1
    }
}

/// The reflection of a normalized angle: `TAU - a`, normalized.
pub open spec fn neg_spec(a: int) -> int {
    norm(TAU as int - a)
}

/// The minimal arc between two normalized angles, a value in `[0, HALF_TURN]`.
pub open spec fn arc_dist(a: int, b: int) -> int {
    let d = norm(a - b);
    if d <= TAU as int - d {
        d
    } else {
        TAU as int - d
    }
}

/// Euclidean remainder of a negative value, written with non-negative
/// operands only.
proof fn lemma_norm_neg(v: int, m: int)
    requires
        v < 0,
        m > 0,
    ensures
        v % m == m - 1 - ((-v - 1) % m),
        0 <= -v - 1,
{
    let n = -v - 1;
    let q = n / m;
    let r = n % m;
    lemma_fundamental_div_mod(n, m);
    lemma_mod_bound(n, m);
    assert(v == (-q - 1) * m + (m - 1 - r)) by {
        assert(n == q * m + r);
        assert((-q - 1) * m == -(q * m) - m) by (nonlinear_arith);
    }
    lemma_fundamental_div_mod_converse(v, m, -q - 1, m - 1 - r);
}

/// Normalizing is idempotent: a value already in `[0, TAU)` is its own
/// representative.
pub proof fn lemma_norm_idempotent(v: int)
    ensures
        norm(norm(v)) == norm(v),
{
    lemma_mod_bound(v, TAU as int);
    lemma_small_mod(norm(v) as nat, TAU as nat);
}

/// Reflecting twice returns the original normalized angle.
pub proof fn lemma_neg_involutive(a: int)
    requires
        0 <= a < TAU as int,
    ensures
        neg_spec(neg_spec(a)) == a,
{
    if a == 0 {
        vstd::arithmetic::div_mod::lemma_mod_self_0(TAU as int);
    } else {
        lemma_small_mod((TAU as int - a) as nat, TAU as nat);
        lemma_small_mod(a as nat, TAU as nat);
    }
}

/// An angle, kept normalized in `[0, TAU)` micro-radians.
#[derive(Clone, Copy, PartialEq, Eq, Structural)]
pub struct Angle {
    raw: i64,
}

impl View for Angle {
    type V = int;

    closed spec fn view(&self) -> int {
        self.raw as int
    }
}

impl Angle {
    /// The value is a representative: it lies in `[0, TAU)`.
    pub open spec fn wf(&self) -> bool {
        0 <= self@ < TAU as int
    }

    /// The normalized angle of an arbitrary scalar of micro-radians.
    pub fn new(v: i64) -> (r: Angle)
        ensures
            r@ == norm(v as int),
            r.wf(),
    {
        proof {
            lemma_mod_bound(v as int, TAU as int);
        }
        if v >= 0 {
            Angle { raw: v % TAU }
        } else {
            proof {
                lemma_norm_neg(v as int, TAU as int);
            }
            Angle { raw: TAU - 1 - ((-(v + 1)) % TAU) }
        }
    }

    /// The representative itself, in micro-radians.
    pub fn get(&self) -> (r: i64)
        ensures
            r == self@,
    {
        self.raw
    }

    /// The normalized sum of two angles.
    pub fn add(self, other: Angle) -> (r: Angle)
        requires
            self.wf(),
            other.wf(),
        ensures
            r@ == norm(self@ + other@),
            r.wf(),
    {
        Angle::new(self.raw + other.raw)
    }

    /// The normalized sum of an angle and a scalar of micro-radians.
    pub fn add_i64(self, delta: i64) -> (r: Angle)
        requires
            self.wf(),
            delta <= 0x7fff_ffff_ffff_ffff - TAU,
        ensures
            r@ == norm(self@ + delta),
            r.wf(),
    {
        Angle::new(self.raw + delta)
    }

    /// The normalized difference of two angles.
    pub fn sub(self, other: Angle) -> (r: Angle)
        requires
            self.wf(),
            other.wf(),
        ensures
            r@ == norm(self@ - other@),
            r.wf(),
    {
        Angle::new(self.raw - other.raw)
    }

    /// The reflection `TAU - self`, normalized.
    pub fn neg(self) -> (r: Angle)
        requires
            self.wf(),
        ensures
            r@ == neg_spec(self@),
            r.wf(),
    {
        Angle::new(TAU - self.raw)
    }

    /// The sign of the shortest signed arc from `0` to this angle; decides
    /// which way the agent turns toward an angle-encoded target.
    pub fn signum(&self) -> (r: i64)
        requires
            self.wf(),
        ensures
            r == angle_sgn(self@),
    {
        if self.raw == 0 || self.raw == HALF_TURN {
            0
        } else if self.raw < HALF_TURN {
            1
        } else {
            -1
        }
    }

    /// The smaller of the representative and a plain scalar; no circular
    /// semantics, used only for envelope-style capping.
    pub fn min(&self, bound: i64) -> (r: i64)
        ensures
            r == if self@ <= bound as int {
                self@
            } else {
                bound as int
            },
    {
        if self.raw <= bound {
            self.raw
        } else {
            bound
        }
    }

    /// The larger of the representative and a plain scalar.
    pub fn max(&self, bound: i64) -> (r: i64)
        ensures
            r == if self@ >= bound as int {
                self@
            } else {
                bound as int
            },
    {
        if self.raw >= bound {
            self.raw
        } else {
            bound
        }
    }

    /// The minimal arc between two angles, a value in `[0, HALF_TURN]`.
    pub fn arc_distance(self, other: Angle) -> (r: i64)
        requires
            self.wf(),
            other.wf(),
        ensures
            r == arc_dist(self@, other@),
    {
        let d = self.sub(other);
        if d.raw <= TAU - d.raw {
            d.raw
        } else {
            TAU - d.raw
        }
    }
}

} // verus!
