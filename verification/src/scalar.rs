//! Single-precision numbers held by their bit pattern.
//!
//! Nothing here adds or multiplies. What the library decides about such a
//! number is how it compares with another one, and that can be read off
//! the bits: without the sign bit, the patterns of the non-negative numbers
//! are in the order of the numbers.

use vstd::prelude::*;

verus! {

/// A single-precision (IEEE 754 binary32) number by its bit pattern.
#[derive(Clone, Copy, Debug, PartialEq, Eq, Hash, Structural)]
pub struct Scalar {
    pub bits: u32,
}

/// Bit pattern of positive infinity; larger magnitudes are not numbers.
pub const INFINITE: u32 = 0x7f80_0000;

/// The sign bit.
pub const SIGN: u32 = 0x8000_0000;

impl Scalar {
    /// The pattern without its sign bit.
    pub open spec fn magnitude(self) -> int {
        if self.bits >= SIGN {
            self.bits - SIGN
        } else {
            self.bits as int
        }
    }

    pub open spec fn nan(self) -> bool {
        self.magnitude() > INFINITE
    }

    pub open spec fn finite(self) -> bool {
        self.magnitude() < INFINITE
    }

    /// Place of the number in the numeric order: `a < b` holds of two
    /// numbers exactly if `a.rank() < b.rank()`. Both zeros have rank 0.
    pub open spec fn rank(self) -> int {
        if self.bits >= SIGN {
            -self.magnitude()
        } else {
            self.magnitude()
        }
    }

    /// `self < other`; false when either is not a number.
    pub open spec fn lt(self, other: Scalar) -> bool {
        !self.nan() && !other.nan() && self.rank() < other.rank()
    }

    /// `self <= other`; false when either is not a number.
    pub open spec fn le(self, other: Scalar) -> bool {
        !self.nan() && !other.nan() && self.rank() <= other.rank()
    }

    /// `self == other`; false when either is not a number.
    pub open spec fn eqv(self, other: Scalar) -> bool {
        !self.nan() && !other.nan() && self.rank() == other.rank()
    }

    /// The larger of the two; the other one when one is not a number.
    pub open spec fn larger(self, other: Scalar) -> Scalar {
        if self.nan() || self.lt(other) {
            other
        } else {
            self
        }
    }

    /// `self` moved into `low ..= high`; not a number stays as it is.
    pub open spec fn clamped(self, low: Scalar, high: Scalar) -> Scalar {
        if self.lt(low) {
            low
        } else if high.lt(self) {
            high
        } else {
            self
        }
    }

    /// Binary exponent field.
    pub open spec fn exponent(self) -> int {
        self.magnitude() / 0x80_0000
    }

    /// Significand of a normal number, with its leading one.
    pub open spec fn significand(self) -> int {
        self.magnitude() % 0x80_0000 + 0x80_0000
    }

    /// Largest `u32` not above the number: 0 for what is below one or not a
    /// number, `u32::MAX` for what is too large.
    pub open spec fn whole(self) -> int {
        if self.nan() || self.bits >= SIGN || self.exponent() < 127 {
            0
        } else if self.exponent() <= 150 {
            self.significand() / vstd::arithmetic::power2::pow2((150 - self.exponent()) as nat) as int
        } else if self.exponent() < 159 {
            self.significand() * vstd::arithmetic::power2::pow2((self.exponent() - 150) as nat)
        } else {
            u32::MAX as int
        }
    }

    pub fn from_bits(bits: u32) -> (s: Scalar)
        ensures
            s.bits == bits,
    {
        Scalar { bits }
    }

    /// `0.0`
    pub fn zero() -> (s: Scalar)
        ensures
            s.bits == 0,
    {
        Scalar { bits: 0 }
    }

    /// `1.0`
    pub fn one() -> (s: Scalar)
        ensures
            s.bits == 0x3f80_0000,
    {
        Scalar { bits: 0x3f80_0000 }
    }

    fn mag(self) -> (m: u32)
        ensures
            m == self.magnitude(),
    {
        if self.bits >= SIGN {
            self.bits - SIGN
        } else {
            self.bits
        }
    }

    pub fn is_nan(self) -> (r: bool)
        ensures
            r == self.nan(),
    {
        self.mag() > INFINITE
    }

    pub fn is_finite(self) -> (r: bool)
        ensures
            r == self.finite(),
    {
        self.mag() < INFINITE
    }

    fn place(self) -> (r: i64)
        ensures
            r == self.rank(),
    {
        if self.bits >= SIGN {
            -(self.mag() as i64)
        } else {
            self.mag() as i64
        }
    }

    pub fn less(self, other: Scalar) -> (r: bool)
        ensures
            r == self.lt(other),
    {
        !self.is_nan() && !other.is_nan() && self.place() < other.place()
    }

    pub fn at_most(self, other: Scalar) -> (r: bool)
        ensures
            r == self.le(other),
    {
        !self.is_nan() && !other.is_nan() && self.place() <= other.place()
    }

    pub fn same(self, other: Scalar) -> (r: bool)
        ensures
            r == self.eqv(other),
    {
        !self.is_nan() && !other.is_nan() && self.place() == other.place()
    }

    pub fn max(self, other: Scalar) -> (r: Scalar)
        ensures
            r == self.larger(other),
    {
        if self.is_nan() || self.less(other) {
            other
        } else {
            self
        }
    }

    pub fn clamp(self, low: Scalar, high: Scalar) -> (r: Scalar)
        requires
            low.le(high),
        ensures
            r == self.clamped(low, high),
    {
        if self.less(low) {
            low
        } else if high.less(self) {
            high
        } else {
            self
        }
    }

    /// The number rounded down to a `u32`, saturating at both ends.
    pub fn floor_u32(self) -> (n: u32)
        ensures
            n == self.whole(),
    {
        if self.is_nan() || self.bits >= SIGN {
            return 0;
        }
        let m: u32 = self.mag();
        let e: u32 = m / 0x80_0000;
        if e < 127 {
            return 0;
        }
        if e >= 159 {
            return u32::MAX;
        }
        let mut s: u32 = m % 0x80_0000 + 0x80_0000;
        if e <= 150 {
            let ghost all = s as int;
            let mut k: u32 = 0;
            proof {
                vstd::arithmetic::power2::lemma2_to64();
            }
            while k < 150 - e
                invariant
                    k <= 150 - e,
                    127 <= e <= 150,
                    s == all / vstd::arithmetic::power2::pow2(k as nat) as int,
                    0 <= all < 0x100_0000,
                decreases 150 - e - k,
            {
                proof {
                    let p = vstd::arithmetic::power2::pow2(k as nat) as int;
                    vstd::arithmetic::power2::lemma_pow2_pos(k as nat);
                    vstd::arithmetic::power2::lemma_pow2_unfold((k + 1) as nat);
                    vstd::arithmetic::div_mod::lemma_div_denominator(all, p, 2);
                    assert(p * 2 == vstd::arithmetic::power2::pow2((k + 1) as nat));
                }
                s = s / 2;
                k += 1;
            }
        } else {
            let ghost all = s as int;
            let mut k: u32 = 0;
            proof {
                vstd::arithmetic::power2::lemma2_to64();
            }
            while k < e - 150
                invariant
                    k <= e - 150,
                    150 < e < 159,
                    s == all * vstd::arithmetic::power2::pow2(k as nat),
                    0 <= all < 0x100_0000,
                decreases e - 150 - k,
            {
                proof {
                    let p = vstd::arithmetic::power2::pow2(k as nat) as int;
                    vstd::arithmetic::power2::lemma_pow2_unfold((k + 1) as nat);
                    vstd::arithmetic::power2::lemma_pow2_strictly_increases(k as nat, 8);
                    vstd::arithmetic::power2::lemma2_to64();
                    assert(p <= 128) by {
                        if k < 7 {
                            vstd::arithmetic::power2::lemma_pow2_strictly_increases(k as nat, 7);
                        }
                    }
                    assert(all * p < 0x8000_0000) by (nonlinear_arith)
                        requires
                            0 <= all < 0x100_0000,
                            0 <= p <= 128,
                    ;
                    assert(all * p * 2 == all * (2 * p)) by (nonlinear_arith);
                }
                s = s * 2;
                k += 1;
            }
        }
        s
    }
}

/// Numbers are totally ordered by their rank.
pub proof fn law_order_is_total(a: Scalar, b: Scalar)
    requires
        !a.nan(),
        !b.nan(),
    ensures
        a.lt(b) || b.lt(a) || a.eqv(b),
        a.lt(b) ==> !b.le(a),
{
}

/// The order of numbers is that of their signs and then of their bits: of
/// two positive patterns the larger one is the larger number, of two
/// negative ones the smaller, negative ones lie below positive ones, and
/// the zeros are equal. What is not a number compares with nothing.
pub proof fn law_bits_order_numbers(a: Scalar, b: Scalar)
    ensures
        a.bits <= 0x7f80_0000 && b.bits <= 0x7f80_0000 ==> (a.lt(b) <==> a.bits < b.bits),
        0x8000_0000 <= a.bits <= 0xff80_0000 && 0x8000_0000 <= b.bits <= 0xff80_0000 ==> (a.lt(b)
            <==> a.bits > b.bits),
        0x8000_0000 < a.bits <= 0xff80_0000 && b.bits <= 0x7f80_0000 ==> a.lt(b) && !b.le(a),
        a.bits == 0x8000_0000 && b.bits == 0 ==> a.eqv(b) && !a.lt(b) && !b.lt(a),
        0x7f80_0000 < a.bits < 0x8000_0000 || a.bits > 0xff80_0000 ==> !a.lt(b) && !b.lt(a)
            && !a.le(b) && !b.le(a) && !a.eqv(b) && !b.eqv(a) && !a.finite(),
        a.le(b) <==> a.lt(b) || a.eqv(b),
        a.finite() <==> a.bits < 0x7f80_0000 || 0x8000_0000 <= a.bits < 0xff80_0000,
{
}

/// The larger of two numbers is one of them and below neither; what is not
/// a number gives way to the other.
pub proof fn law_larger_is_above_both(a: Scalar, b: Scalar)
    ensures
        a.larger(b) == a || a.larger(b) == b,
        !a.nan() && !b.nan() ==> a.le(a.larger(b)) && b.le(a.larger(b)),
        a.nan() ==> a.larger(b) == b,
        b.nan() && !a.nan() ==> a.larger(b) == a,
{
}

/// A number that lies within the bounds stays, one below goes to the low
/// bound and one above to the high one; what is not a number stays as it
/// is.
pub proof fn law_clamped_is_within(v: Scalar, low: Scalar, high: Scalar)
    requires
        low.le(high),
    ensures
        v.nan() ==> v.clamped(low, high) == v,
        !v.nan() ==> low.le(v.clamped(low, high)) && v.clamped(low, high).le(high),
        low.le(v) && v.le(high) ==> v.clamped(low, high) == v,
        v.lt(low) ==> v.clamped(low, high) == low,
        high.lt(v) ==> v.clamped(low, high) == high,
{
}

/// The whole part of a number below one is zero, from one up to two one, from
/// two up to four two or three; from two to the twenty-third on numbers are
/// whole by themselves, in steps of one, then of two, and of two hundred and
/// fifty-six at the top; from two to the thirty-second on it is the largest
/// there is.
pub proof fn law_whole_parts_are_cut_off(v: Scalar)
    requires
        v.bits < 0x7f80_0000,
    ensures
        v.bits < 0x3f80_0000 ==> v.whole() == 0,
        0x3f80_0000 <= v.bits < 0x4000_0000 ==> v.whole() == 1,
        0x4000_0000 <= v.bits < 0x4040_0000 ==> v.whole() == 2,
        0x4040_0000 <= v.bits < 0x4080_0000 ==> v.whole() == 3,
        0x4b00_0000 <= v.bits < 0x4b80_0000 ==> v.whole() == v.bits - 0x4b00_0000 + 0x80_0000,
        0x4b80_0000 <= v.bits < 0x4c00_0000 ==> v.whole() == 2 * (v.bits - 0x4b80_0000 + 0x80_0000),
        0x4f00_0000 <= v.bits < 0x4f80_0000 ==> v.whole() == 256 * (v.bits - 0x4f00_0000
            + 0x80_0000),
        v.bits >= 0x4f80_0000 ==> v.whole() == u32::MAX,
{
    vstd::arithmetic::power2::lemma2_to64();
    let b = v.bits;
    assert(b & 0x7fff_ffff == b) by (bit_vector)
        requires
            b < 0x7f80_0000,
    ;
    let m = v.significand();
    if 0x3f80_0000 <= b < 0x4000_0000 {
        assert(v.exponent() == 127);
        assert(m / 0x80_0000 == 1);
        assert(v.whole() == m / (vstd::arithmetic::power2::pow2(23) as int));
    } else if 0x4000_0000 <= b < 0x4080_0000 {
        assert(v.exponent() == 128);
        assert(m == b - 0x4000_0000 + 0x80_0000);
        assert(v.whole() == m / (vstd::arithmetic::power2::pow2(22) as int));
    } else if 0x4b00_0000 <= b < 0x4b80_0000 {
        assert(v.exponent() == 150);
        assert(v.whole() == m / (vstd::arithmetic::power2::pow2(0) as int));
    } else if 0x4b80_0000 <= b < 0x4c00_0000 {
        assert(v.exponent() == 151);
        assert(v.whole() == m * vstd::arithmetic::power2::pow2(1));
    } else if 0x4f00_0000 <= b < 0x4f80_0000 {
        assert(v.exponent() == 158);
        assert(v.whole() == m * vstd::arithmetic::power2::pow2(8));
    }
}

} // verus!
