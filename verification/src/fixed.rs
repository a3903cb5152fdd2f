//! Fixed-point numbers with six fractional decimal digits.
//!
//! Market prices, market caps and metric values are held as a signed count of
//! micro-units (`micros`), i.e. millionths of one unit.  All derived-metric
//! arithmetic in this crate is exact integer arithmetic over this
//! representation; quotients are rounded to the nearest micro-unit, halves
//! away from zero, and results outside the representable range saturate.

use vstd::prelude::*;

verus! {

/// Micro-units per whole unit.
pub const FIXED_SCALE: i64 = 1_000_000;

/// Quotient of `a / b` rounded to the nearest integer, halves away from zero.
pub open spec fn round_div(a: int, b: int) -> int
    recommends
        b > 0,
{
    if a >= 0 {
        (2 * a + b) / (2 * b)
    } else {
        -((2 * (-a) + b) / (2 * b))
    }
}

/// Clamp a mathematical integer into the `i64` range.
pub open spec fn sat64(x: int) -> int {
    if x > i64::MAX {
        i64::MAX as int
    } else if x < i64::MIN {
        i64::MIN as int
    } else {
        x
    }
}

/// A quantity in micro-units: `micros == 1_500_000` stands for 1.5.
#[derive(Debug, Clone, Copy, PartialEq, Eq, Structural, Hash)]
pub struct Fixed {
    pub micros: i64,
}

impl Fixed {
    /// The zero quantity.
    pub fn zero() -> (r: Fixed)
        ensures
            r.micros == 0,
    {
        Fixed { micros: 0 }
    }

    /// The quantity of `m` micro-units.
    pub fn from_micros(m: i64) -> (r: Fixed)
        ensures
            r.micros == m,
    {
        Fixed { micros: m }
    }

    /// The quantity of `u` whole units.
    pub fn from_units(u: i64) -> (r: Fixed)
        requires
            i64::MIN <= u * FIXED_SCALE <= i64::MAX,
        ensures
            r.micros == u * FIXED_SCALE,
    {
        Fixed { micros: u * FIXED_SCALE }
    }

    /// The count of micro-units.
    pub fn micros(&self) -> (r: i64)
        ensures
            r == self.micros,
    {
        self.micros
    }
}

/// Round-to-nearest division of `a` by `b` (halves away from zero), in
/// machine arithmetic.  The bounds keep every intermediate product inside
/// `i128`/`u128`; every use in this crate stays far below them.
pub fn round_div_i128(a: i128, b: i128) -> (r: i128)
    requires
        0 < b <= 0x1_0000_0000_0000_0000_0000_0000,
        -0x1_0000_0000_0000_0000_0000_0000 <= a <= 0x1_0000_0000_0000_0000_0000_0000,
    ensures
        r == round_div(a as int, b as int),
{
    let ub = b as u128;
    if a >= 0 {
        let ua = a as u128;
        let q = (2 * ua + ub) / (2 * ub);
        assert(q == (2 * (a as int) + b) / (2 * (b as int))) by {
            assert(2 * ua + ub == 2 * (a as int) + b);
            assert(2 * ub == 2 * (b as int));
        }
        q as i128
    } else {
        let ua = (-a) as u128;
        let q = (2 * ua + ub) / (2 * ub);
        assert(q == (2 * (-(a as int)) + b) / (2 * (b as int))) by {
            assert(2 * ua + ub == 2 * (-(a as int)) + b);
            assert(2 * ub == 2 * (b as int));
        }
        assert(q <= 0x2_0000_0000_0000_0000_0000_0000) by {
            let aa = -(a as int);
            assert((2 * aa + b) / (2 * b) <= 0x2_0000_0000_0000_0000_0000_0000) by (nonlinear_arith)
                requires
                    0 < b,
                    0 <= aa <= 0x1_0000_0000_0000_0000_0000_0000,
            ;
        }
        -(q as i128)
    }
}

/// `sat64` made executable.
pub fn sat64_i128(x: i128) -> (r: i64)
    ensures
        r == sat64(x as int),
{
    if x > i64::MAX as i128 {
        i64::MAX
    } else if x < i64::MIN as i128 {
        i64::MIN
    } else {
        x as i64
    }
}

/// If `lo * b <= a <= hi * b` with `b > 0`, the rounded quotient stays
/// within `[lo, hi]`.
pub proof fn lemma_round_div_bound(a: int, b: int, lo: int, hi: int)
    requires
        b > 0,
        lo <= 0 <= hi,
        lo * b <= a <= hi * b,
    ensures
        lo <= round_div(a, b) <= hi,
{
    if a >= 0 {
        assert((2 * a + b) / (2 * b) <= hi) by (nonlinear_arith)
            requires
                b > 0,
                hi >= 0,
                a <= hi * b,
                a >= 0,
        ;
        assert((2 * a + b) / (2 * b) >= 0) by (nonlinear_arith)
            requires
                b > 0,
                a >= 0,
        ;
    } else {
        let m = -a;
        assert((-lo) * b == -(lo * b)) by (nonlinear_arith);
        assert((2 * m + b) / (2 * b) <= -lo) by (nonlinear_arith)
            requires
                b > 0,
                lo <= 0,
                m <= (-lo) * b,
                m >= 0,
        ;
        assert((2 * m + b) / (2 * b) >= 0) by (nonlinear_arith)
            requires
                b > 0,
                m >= 0,
        ;
    }
}

} // verus!
