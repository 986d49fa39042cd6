//! Fixed-point numbers: a [`Scalar`] whose arithmetic is exact integer
//! arithmetic on a scaled value, rounded toward zero and saturating at the
//! ends of the range.

use crate::scalar::Scalar;
use vstd::prelude::*;

verus! {

/// A number with 32 fractional bits, held as the integer `raw`, which stands
/// for `raw / 2^32`.
#[derive(Clone, Copy, Debug, PartialEq, Eq, Structural)]
pub struct Fixed {
    pub raw: i64,
}

/// The factor between a number and its raw value.
pub open spec fn scale() -> int {
    0x1_0000_0000
}

/// The nearest raw value to `x`.
pub open spec fn saturate(x: int) -> i64 {
    if x < i64::MIN {
        i64::MIN
    } else if x > i64::MAX {
        i64::MAX
    } else {
        x as i64
    }
}

/// The quotient of `a` by `b`, rounded toward zero.
pub open spec fn quotient(a: int, b: int) -> int
    recommends
        b != 0,
{
    if a >= 0 && b > 0 {
        a / b
    } else if a < 0 && b > 0 {
        -((-a) / b)
    } else if a >= 0 {
        -(a / (-b))
    } else {
        (-a) / (-b)
    }
}

fn saturate_wide(x: i128) -> (r: i64)
    ensures
        r == saturate(x as int),
{
    if x < i64::MIN as i128 {
        i64::MIN
    } else if x > i64::MAX as i128 {
        i64::MAX
    } else {
        x as i64
    }
}

fn quotient_wide(a: i128, b: i128) -> (r: i128)
    requires
        b != 0,
        i128::MIN < a,
        i128::MIN < b,
    ensures
        r == quotient(a as int, b as int),
{
    let ua: u128 = if a < 0 {
        (-a) as u128
    } else {
        a as u128
    };
    let ub: u128 = if b < 0 {
        (-b) as u128
    } else {
        b as u128
    };
    let q: u128 = ua / ub;
    assert(q <= ua) by (nonlinear_arith)
        requires
            q == ua / ub,
            ub >= 1,
    ;
    if (a < 0) == (b < 0) {
        q as i128
    } else {
        -(q as i128)
    }
}

impl Fixed {
    /// The number with the given raw value.
    pub fn from_raw(raw: i64) -> (r: Fixed)
        ensures
            r.raw == raw,
    {
        Fixed { raw }
    }

    /// The raw value of the number.
    pub fn to_raw(self) -> (r: i64)
        ensures
            r == self.raw,
    {
        self.raw
    }
}

impl Scalar for Fixed {
    open spec fn spec_from_int(n: int) -> Fixed {
        Fixed { raw: saturate(n * scale()) }
    }

    open spec fn spec_add(self, rhs: Fixed) -> Fixed {
        Fixed { raw: saturate(self.raw + rhs.raw) }
    }

    open spec fn spec_sub(self, rhs: Fixed) -> Fixed {
        Fixed { raw: saturate(self.raw - rhs.raw) }
    }

    open spec fn spec_mul(self, rhs: Fixed) -> Fixed {
        Fixed { raw: saturate(quotient(self.raw * rhs.raw, scale())) }
    }

    open spec fn spec_div(self, rhs: Fixed) -> Fixed {
        if rhs.raw == 0 {
            if self.raw > 0 {
                Fixed { raw: i64::MAX }
            } else if self.raw < 0 {
                Fixed { raw: i64::MIN }
            } else {
                Fixed { raw: 0 }
            }
        } else {
            Fixed { raw: saturate(quotient(self.raw * scale(), rhs.raw as int)) }
        }
    }

    open spec fn spec_le(self, rhs: Fixed) -> bool {
        self.raw <= rhs.raw
    }

    fn from_int(n: i32) -> (r: Fixed) {
        let wide: i128 = (n as i128) * 0x1_0000_0000i128;
        Fixed { raw: saturate_wide(wide) }
    }

    fn from_usize(n: usize) -> (r: Fixed) {
        let wide: i128 = (n as i128) * 0x1_0000_0000i128;
        Fixed { raw: saturate_wide(wide) }
    }

    fn add(self, rhs: Fixed) -> (r: Fixed) {
        let wide: i128 = (self.raw as i128) + (rhs.raw as i128);
        Fixed { raw: saturate_wide(wide) }
    }

    fn sub(self, rhs: Fixed) -> (r: Fixed) {
        let wide: i128 = (self.raw as i128) - (rhs.raw as i128);
        Fixed { raw: saturate_wide(wide) }
    }

    fn mul(self, rhs: Fixed) -> (r: Fixed) {
        let a: i128 = self.raw as i128;
        let b: i128 = rhs.raw as i128;
        assert(-0x4000_0000_0000_0000_0000_0000_0000_0000 <= a * b
            <= 0x4000_0000_0000_0000_0000_0000_0000_0000) by (nonlinear_arith)
            requires
                -0x8000_0000_0000_0000 <= a <= 0x8000_0000_0000_0000,
                -0x8000_0000_0000_0000 <= b <= 0x8000_0000_0000_0000,
        ;
        let wide: i128 = quotient_wide(a * b, 0x1_0000_0000i128);
        Fixed { raw: saturate_wide(wide) }
    }

    fn div(self, rhs: Fixed) -> (r: Fixed) {
        if rhs.raw == 0 {
            if self.raw > 0 {
                Fixed { raw: i64::MAX }
            } else if self.raw < 0 {
                Fixed { raw: i64::MIN }
            } else {
                Fixed { raw: 0 }
            }
        } else {
            let wide: i128 = quotient_wide((self.raw as i128) * 0x1_0000_0000i128, rhs.raw as i128);
            Fixed { raw: saturate_wide(wide) }
        }
    }

    fn le(self, rhs: Fixed) -> (r: bool) {
        self.raw <= rhs.raw
    }
}

} // verus!
