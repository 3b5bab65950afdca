//! A fixed-point scalar whose arithmetic is verified.

use vstd::prelude::*;
use crate::elimination::zero_is_absorbing;
use crate::scalar::Scalar;
use crate::scalar::spec_zero;

verus! {

/// One in the raw units of a `Fixed`: two to the power 32.
pub const FIXED_SCALE: i64 = 4_294_967_296;

/// A fixed-point number with 32 binary places: it stands for `raw / 2^32`.
///
/// The arithmetic is exact integer arithmetic on the raw values. A
/// result outside the range is replaced by the nearest end of the range,
/// a quotient or root is cut off toward zero, and a quotient by zero is
/// the end of the range on the side of the dividend.
#[derive(Clone, Copy, Debug, PartialEq, Eq, Structural)]
pub struct Fixed {
    pub raw: i64,
}

/// The integer `v`, or the end of the raw range that is nearest to it.
pub open spec fn clamped(v: int) -> i64 {
    if v > i64::MAX {
        i64::MAX
    } else if v < i64::MIN {
        i64::MIN
    } else {
        v as i64
    }
}

/// The absolute value of `v`.
pub open spec fn magnitude_of(v: int) -> int {
    if v < 0 {
        -v
    } else {
        v
    }
}

/// The quotient of `x` by `d`, which is not zero, cut off toward zero.
pub open spec fn quotient_toward_zero(x: int, d: int) -> int {
    if (x < 0) != (d < 0) {
        -(magnitude_of(x) / magnitude_of(d))
    } else {
        magnitude_of(x) / magnitude_of(d)
    }
}

/// `r` is the largest integer whose square is at most `x`.
pub open spec fn is_floor_sqrt(x: int, r: int) -> bool {
    0 <= r && r * r <= x < (r + 1) * (r + 1)
}

/// The largest integer whose square is at most `x`.
pub open spec fn floor_sqrt(x: int) -> int {
    choose|r: int| is_floor_sqrt(x, r)
}

/// A number has at most one floor square root.
pub proof fn lemma_floor_sqrt_unique(x: int, r: int, s: int)
    requires
        is_floor_sqrt(x, r),
        is_floor_sqrt(x, s),
    ensures
        r == s,
{
    if r < s {
        assert((r + 1) * (r + 1) <= s * s) by (nonlinear_arith)
            requires
                0 <= r + 1 <= s,
        ;
    } else if s < r {
        assert((s + 1) * (s + 1) <= r * r) by (nonlinear_arith)
            requires
                0 <= s + 1 <= r,
        ;
    }
}

/// The magnitude of `v`.
fn magnitude_u128(v: i64) -> (m: u128)
    ensures
        m == magnitude_of(v as int),
        m <= 9_223_372_036_854_775_808,
{
    if v < 0 {
        (-(v as i128)) as u128
    } else {
        v as u128
    }
}

/// The integer `v`, or the end of the raw range that is nearest to it.
fn clamp(v: i128) -> (r: i64)
    ensures
        r == clamped(v as int),
{
    if v > i64::MAX as i128 {
        i64::MAX
    } else if v < i64::MIN as i128 {
        i64::MIN
    } else {
        v as i64
    }
}

/// The quotient of the magnitudes, with the sign that the operands give it.
fn signed_quotient(negative: bool, numerator: u128, denominator: u128) -> (r: i64)
    requires
        denominator > 0,
        numerator <= 0x8000_0000_0000_0000_0000_0000,
    ensures
        r == clamped(
            if negative {
                -(numerator as int / denominator as int)
            } else {
                numerator as int / denominator as int
            },
        ),
{
    let q: u128 = numerator / denominator;
    assert(q <= numerator) by (nonlinear_arith)
        requires
            q == numerator as int / denominator as int,
            denominator > 0,
            numerator >= 0,
    ;
    if negative {
        clamp(-(q as i128))
    } else {
        clamp(q as i128)
    }
}

/// The largest integer whose square is at most `x`.
fn floor_sqrt_u128(x: u128) -> (r: u128)
    requires
        x < 0x1_0000_0000_0000_0000_0000_0000,
    ensures
        r == floor_sqrt(x as int),
        r < 0x1_0000_0000_0000,
{
    let mut low: u128 = 0;
    let mut high: u128 = 0x1_0000_0000_0000;
    assert(0x1_0000_0000_0000u128 * 0x1_0000_0000_0000u128 == 0x1_0000_0000_0000_0000_0000_0000u128) by (nonlinear_arith);
    while high - low > 1
        invariant
            low < high <= 0x1_0000_0000_0000,
            low * low <= x < high * high,
        decreases high - low,
    {
        let mid: u128 = low + (high - low) / 2;
        assert(mid * mid < 0x1_0000_0000_0000_0000_0000_0000) by (nonlinear_arith)
            requires
                0 <= mid < 0x1_0000_0000_0000,
        ;
        if mid * mid <= x {
            low = mid;
        } else {
            high = mid;
        }
    }
    proof {
        assert(is_floor_sqrt(x as int, low as int));
        lemma_floor_sqrt_unique(x as int, low as int, floor_sqrt(x as int));
    }
    low
}

impl Scalar for Fixed {
    open spec fn spec_from_int(n: i64) -> Self {
        Fixed { raw: clamped(n * FIXED_SCALE) }
    }

    open spec fn spec_plus(self, rhs: Self) -> Self {
        Fixed { raw: clamped(self.raw + rhs.raw) }
    }

    open spec fn spec_minus(self, rhs: Self) -> Self {
        Fixed { raw: clamped(self.raw - rhs.raw) }
    }

    open spec fn spec_times(self, rhs: Self) -> Self {
        Fixed { raw: clamped(quotient_toward_zero(self.raw * rhs.raw, FIXED_SCALE as int)) }
    }

    open spec fn spec_over(self, rhs: Self) -> Self {
        if rhs.raw == 0 {
            Fixed {
                raw: if self.raw < 0 {
                    i64::MIN
                } else {
                    i64::MAX
                },
            }
        } else {
            Fixed { raw: clamped(quotient_toward_zero(self.raw * FIXED_SCALE, rhs.raw as int)) }
        }
    }

    open spec fn spec_sqrt(self) -> Self {
        if self.raw <= 0 {
            Fixed { raw: 0 }
        } else {
            Fixed { raw: floor_sqrt(self.raw * FIXED_SCALE) as i64 }
        }
    }

    open spec fn spec_signum(self) -> Self {
        if self.raw < 0 {
            Fixed { raw: (-FIXED_SCALE) as i64 }
        } else {
            Fixed { raw: FIXED_SCALE }
        }
    }

    open spec fn spec_magnitude(self) -> u64 {
        magnitude_of(self.raw as int) as u64
    }

    fn from_int(n: i64) -> (r: Self) {
        Fixed { raw: clamp(n as i128 * FIXED_SCALE as i128) }
    }

    fn plus(self, rhs: Self) -> (r: Self) {
        Fixed { raw: clamp(self.raw as i128 + rhs.raw as i128) }
    }

    fn minus(self, rhs: Self) -> (r: Self) {
        Fixed { raw: clamp(self.raw as i128 - rhs.raw as i128) }
    }

    fn times(self, rhs: Self) -> (r: Self) {
        let a = magnitude_u128(self.raw);
        let b = magnitude_u128(rhs.raw);
        let negative = (self.raw < 0) != (rhs.raw < 0);
        assert(a * b <= 0x4000_0000_0000_0000_0000_0000_0000_0000) by (nonlinear_arith)
            requires
                0 <= a <= 0x8000_0000_0000_0000,
                0 <= b <= 0x8000_0000_0000_0000,
        ;
        let product: u128 = a * b;
        let q: u128 = product / (FIXED_SCALE as u128);
        proof {
            assert(magnitude_of(self.raw * rhs.raw) == a * b) by (nonlinear_arith)
                requires
                    a == magnitude_of(self.raw as int),
                    b == magnitude_of(rhs.raw as int),
            ;
            assert(((self.raw * rhs.raw) < 0) ==> negative) by (nonlinear_arith)
                requires
                    negative == ((self.raw < 0) != (rhs.raw < 0)),
            ;
            assert(!((self.raw * rhs.raw) < 0) ==> (!negative || a * b == 0)) by (nonlinear_arith)
                requires
                    negative == ((self.raw < 0) != (rhs.raw < 0)),
                    a == magnitude_of(self.raw as int),
                    b == magnitude_of(rhs.raw as int),
            ;
        }
        let raw = if negative {
            clamp(-(q as i128))
        } else {
            clamp(q as i128)
        };
        Fixed { raw }
    }

    fn over(self, rhs: Self) -> (r: Self) {
        if rhs.raw == 0 {
            if self.raw < 0 {
                Fixed { raw: i64::MIN }
            } else {
                Fixed { raw: i64::MAX }
            }
        } else {
            let a = magnitude_u128(self.raw);
            let b = magnitude_u128(rhs.raw);
            let negative = (self.raw < 0) != (rhs.raw < 0);
            assert(a * 4_294_967_296 <= 0x8000_0000_0000_0000_0000_0000) by (nonlinear_arith)
                requires
                    0 <= a <= 0x8000_0000_0000_0000,
            ;
            let numerator: u128 = a * (FIXED_SCALE as u128);
            proof {
                assert(magnitude_of(self.raw * FIXED_SCALE) == numerator);
                assert(((self.raw * FIXED_SCALE) < 0) == (self.raw < 0));
            }
            Fixed { raw: signed_quotient(negative, numerator, b) }
        }
    }

    fn sqrt(self) -> (r: Self) {
        if self.raw <= 0 {
            Fixed { raw: 0 }
        } else {
            let x: u128 = (self.raw as u128) * (FIXED_SCALE as u128);
            Fixed { raw: floor_sqrt_u128(x) as i64 }
        }
    }

    fn signum(self) -> (r: Self) {
        if self.raw < 0 {
            Fixed { raw: -FIXED_SCALE }
        } else {
            Fixed { raw: FIXED_SCALE }
        }
    }

    fn magnitude(self) -> (k: u64) {
        magnitude_u128(self.raw) as u64
    }
}

/// The zero of `Fixed` behaves as a zero under row reduction.
pub proof fn lemma_fixed_zero_is_absorbing()
    ensures
        zero_is_absorbing::<Fixed>(),
{
    let z = spec_zero::<Fixed>();
    assert(z.raw == 0);
    assert forall|f: Fixed| z.spec_minus(#[trigger] f.spec_times(z)) == z by {
        assert(f.raw * z.raw == 0) by (nonlinear_arith)
            requires
                z.raw == 0,
        ;
    }
}

} // verus!
