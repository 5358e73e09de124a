//! Single-precision numbers as the library sees them: a bit pattern, an exact
//! order on bit patterns, and arithmetic that the caller supplies.
//!
//! Verified code never adds or multiplies two singles itself. It is handed a
//! function from [`Op`] to [`Single`] and says in its contract what comes out
//! for every arithmetic that this function could be computing.

use vstd::arithmetic::power2::pow2;
use vstd::prelude::*;

verus! {

/// The 32 bits of an IEEE-754 single: one sign bit, eight exponent bits and
/// twenty-three fraction bits.
///
/// `==` compares the bits. The numeric comparisons are [`Single::lt`] and its
/// siblings, under which the two zeros are equal and a NaN is unordered.
#[derive(Clone, Copy, Debug, PartialEq, Eq, Structural)]
pub struct Single {
    pub bits: u32,
}

pub const SIGN_BIT: u32 = 0x8000_0000;

pub const INFINITY_BITS: u32 = 0x7f80_0000;

/// Distance between two bit patterns whose exponents differ by one.
pub const EXPONENT_STEP: u32 = 0x0080_0000;

/// Exponent field from which on a single has no fraction bits left.
pub const WHOLE_EXPONENT: u32 = 150;

/// The single with the given bits.
#[verifier::allow_in_spec]
pub fn single(bits: u32) -> Single
    returns
        (Single { bits }),
{
    Single { bits }
}

impl Single {
    /// The sign bit is set.
    pub open spec fn negative(self) -> bool {
        self.bits >= SIGN_BIT
    }

    /// The bits below the sign bit. Among patterns that are no NaN they order
    /// the absolute values.
    pub open spec fn magnitude(self) -> int {
        if self.negative() {
            self.bits - SIGN_BIT
        } else {
            self.bits as int
        }
    }

    pub open spec fn nan(self) -> bool {
        self.magnitude() > INFINITY_BITS
    }

    /// An integer that orders the numbers: the two zeros share the key zero.
    pub open spec fn key(self) -> int {
        if self.negative() {
            -self.magnitude()
        } else {
            self.magnitude()
        }
    }

    /// `self < other`.
    pub open spec fn below(self, other: Single) -> bool {
        !self.nan() && !other.nan() && self.key() < other.key()
    }

    /// `self <= other`.
    pub open spec fn at_most(self, other: Single) -> bool {
        !self.nan() && !other.nan() && self.key() <= other.key()
    }

    /// The same number with the sign bit cleared.
    pub open spec fn without_sign(self) -> Single {
        Single { bits: self.magnitude() as u32 }
    }

    /// The same number with the sign bit flipped.
    pub open spec fn negated(self) -> Single {
        if self.negative() {
            Single { bits: (self.bits - SIGN_BIT) as u32 }
        } else {
            Single { bits: (self.bits + SIGN_BIT) as u32 }
        }
    }

    /// The whole part of the absolute value, for a pattern that is no NaN and
    /// no infinity.
    pub open spec fn whole(self) -> int {
        let exponent = self.magnitude() / EXPONENT_STEP as int;
        let significand = self.magnitude() % EXPONENT_STEP as int + EXPONENT_STEP;
        if exponent >= WHOLE_EXPONENT {
            significand * pow2((exponent - WHOLE_EXPONENT) as nat)
        } else {
            significand / pow2((WHOLE_EXPONENT - exponent) as nat) as int
        }
    }

    /// The number with its fraction dropped, held to the range `low..=high`;
    /// zero for a NaN.
    pub open spec fn truncated(self, low: int, high: int) -> int {
        if self.nan() {
            0
        } else {
            let signed = if self.negative() {
                -self.whole()
            } else {
                self.whole()
            };
            if signed < low {
                low
            } else if signed > high {
                high
            } else {
                signed
            }
        }
    }

    /// The ordering key.
    fn order_key(self) -> (r: i64)
        ensures
            r == self.key(),
    {
        if self.bits >= SIGN_BIT {
            -((self.bits - SIGN_BIT) as i64)
        } else {
            self.bits as i64
        }
    }

    /// True for a NaN.
    pub fn is_nan(self) -> (r: bool)
        ensures
            r == self.nan(),
    {
        if self.bits >= SIGN_BIT {
            self.bits - SIGN_BIT > INFINITY_BITS
        } else {
            self.bits > INFINITY_BITS
        }
    }

    /// `self < other`; false where either is a NaN.
    pub fn lt(self, other: Single) -> (r: bool)
        ensures
            r == self.below(other),
    {
        !self.is_nan() && !other.is_nan() && self.order_key() < other.order_key()
    }

    /// `self <= other`; false where either is a NaN.
    pub fn le(self, other: Single) -> (r: bool)
        ensures
            r == self.at_most(other),
    {
        !self.is_nan() && !other.is_nan() && self.order_key() <= other.order_key()
    }

    /// `self > other`; false where either is a NaN.
    pub fn gt(self, other: Single) -> (r: bool)
        ensures
            r == other.below(self),
    {
        other.lt(self)
    }

    /// `self >= other`; false where either is a NaN.
    pub fn ge(self, other: Single) -> (r: bool)
        ensures
            r == other.at_most(self),
    {
        other.le(self)
    }

    /// The absolute value.
    pub fn abs(self) -> (r: Single)
        ensures
            r == self.without_sign(),
    {
        if self.bits >= SIGN_BIT {
            Single { bits: self.bits - SIGN_BIT }
        } else {
            self
        }
    }

    /// The opposite number.
    pub fn neg(self) -> (r: Single)
        ensures
            r == self.negated(),
    {
        if self.bits >= SIGN_BIT {
            Single { bits: self.bits - SIGN_BIT }
        } else {
            Single { bits: self.bits + SIGN_BIT }
        }
    }

    /// Conversion to an integer: the fraction is dropped, numbers outside of
    /// `low..=high` go to the nearer end, and a NaN goes to zero.
    pub fn truncate(self, low: i64, high: i64) -> (r: i64)
        requires
            low <= 0 <= high,
        ensures
            r == self.truncated(low as int, high as int),
    {
        if self.is_nan() {
            return 0;
        }
        let negative: bool = self.bits >= SIGN_BIT;
        let magnitude: u32 = if negative {
            self.bits - SIGN_BIT
        } else {
            self.bits
        };
        let exponent: u32 = magnitude / EXPONENT_STEP;
        let significand: u64 = (magnitude % EXPONENT_STEP + EXPONENT_STEP) as u64;
        proof {
            lemma_whole(self);
        }
        let whole: u64 = if exponent >= WHOLE_EXPONENT {
            let shift: u64 = (exponent - WHOLE_EXPONENT) as u64;
            if shift >= 40 {
                return if negative {
                    low
                } else {
                    high
                };
            }
            proof {
                assert(significand * pow2(shift as nat) <= u64::MAX) by {
                    lemma_scaled_bound(significand as nat, shift as nat);
                }
                vstd::bits::lemma_u64_shl_is_mul(significand, shift);
            }
            significand << shift
        } else {
            let shift: u64 = (WHOLE_EXPONENT - exponent) as u64;
            if shift >= 64 {
                proof {
                    lemma_shifted_away(significand as nat, shift as nat);
                }
                return 0;
            }
            proof {
                vstd::bits::lemma_u64_shr_is_div(significand, shift);
            }
            significand >> shift
        };
        if negative {
            let floor: u64 = (-(low as i128)) as u64;
            if whole > floor {
                low
            } else {
                (-(whole as i128)) as i64
            }
        } else if whole > high as u64 {
            high
        } else {
            whole as i64
        }
    }
}

/// A significand of twenty-four bits moved left by less than forty places
/// fits in 64 bits.
proof fn lemma_scaled_bound(significand: nat, shift: nat)
    requires
        significand < 0x100_0000,
        shift < 40,
    ensures
        significand * pow2(shift) <= u64::MAX,
{
    vstd::arithmetic::power2::lemma2_to64();
    vstd::arithmetic::power2::lemma2_to64_rest();
    if shift < 39 {
        vstd::arithmetic::power2::lemma_pow2_strictly_increases(shift, 39);
    }
    assert(significand * pow2(shift) <= 0x100_0000 * pow2(39)) by (nonlinear_arith)
        requires
            significand < 0x100_0000,
            pow2(shift) <= pow2(39),
    ;
}

/// A significand of twenty-four bits moved right by 64 places or more is zero.
proof fn lemma_shifted_away(significand: nat, shift: nat)
    requires
        significand < 0x100_0000,
        shift >= 64,
    ensures
        significand / pow2(shift) == 0,
{
    vstd::arithmetic::power2::lemma2_to64();
    if shift > 24 {
        vstd::arithmetic::power2::lemma_pow2_strictly_increases(24, shift);
    }
    vstd::arithmetic::div_mod::lemma_basic_div(significand as int, pow2(shift) as int);
}

/// A number whose exponent lies forty or more above [`WHOLE_EXPONENT`] has a
/// whole part outside of the range of 64-bit integers.
proof fn lemma_whole(single: Single)
    ensures
        single.magnitude() / EXPONENT_STEP as int >= WHOLE_EXPONENT + 40 ==> single.whole()
            >= i64::MAX + 1,
{
    let exponent = single.magnitude() / EXPONENT_STEP as int;
    let significand = single.magnitude() % EXPONENT_STEP as int + EXPONENT_STEP;
    if exponent >= WHOLE_EXPONENT + 40 {
        let shift = (exponent - WHOLE_EXPONENT) as nat;
        vstd::arithmetic::power2::lemma2_to64();
        vstd::arithmetic::power2::lemma2_to64_rest();
        if shift > 40 {
            vstd::arithmetic::power2::lemma_pow2_strictly_increases(40, shift);
        }
        assert(significand * pow2(shift) >= 0x80_0000 * pow2(40)) by (nonlinear_arith)
            requires
                significand >= 0x80_0000,
                pow2(shift) >= pow2(40),
        ;
    }
}

} // verus!
