//! The pseudo-random numbers that drive a character.

use crate::arith::{computes, total, Arith, Op};
use crate::single::{single, Single};
use vstd::prelude::*;

verus! {

/// Stands in for a seed of zero, at which the generator would be stuck.
pub const ZERO_SEED: u64 = 0xdead_beef_cafe_babe;

pub const MULTIPLIER: u64 = 0x2545_f491_4f6c_dd1d;

/// Two to the power of minus twenty-four.
pub const FRACTION_UNIT: u32 = 0x3380_0000;

/// A xorshift64* generator.
#[derive(Clone, Copy, Debug, PartialEq, Eq, Structural)]
pub struct Rng {
    pub state: u64,
}

/// The state after one step.
pub open spec fn stirred(x: u64) -> u64 {
    let a = x ^ (x << 13u64);
    let b = a ^ (a >> 7u64);
    b ^ (b << 17u64)
}

/// The output that belongs to a state.
pub open spec fn scrambled(x: u64) -> u64 {
    ((x as int * MULTIPLIER as int) % 0x1_0000_0000_0000_0000) as u64
}

impl Rng {
    pub open spec fn next(self) -> Rng {
        Rng { state: stirred(self.state) }
    }

    /// The number that the next draw gives, between zero and one.
    pub open spec fn fraction(self, g: Arith) -> Single {
        let numerator = (scrambled(self.next().state) >> 40u64) as i64;
        g(Op::Mul(g(Op::FromInt(numerator)), single(FRACTION_UNIT)))
    }

    /// The number that the next draw gives, between two bounds.
    pub open spec fn between(self, g: Arith, low: Single, high: Single) -> Single {
        g(Op::Add(low, g(Op::Mul(g(Op::Sub(high, low)), self.fraction(g)))))
    }

    /// A generator for the given seed.
    pub fn new(seed: u64) -> (r: Rng)
        ensures
            r.state == if seed == 0 {
                ZERO_SEED
            } else {
                seed
            },
    {
        Rng {
            state: if seed == 0 {
                ZERO_SEED
            } else {
                seed
            },
        }
    }

    pub fn next_u64(&mut self) -> (r: u64)
        ensures
            *final(self) == old(self).next(),
            r == scrambled(final(self).state),
    {
        let mut x: u64 = self.state;
        x = x ^ (x << 13u64);
        x = x ^ (x >> 7u64);
        x = x ^ (x << 17u64);
        self.state = x;
        x.wrapping_mul(MULTIPLIER)
    }

    /// A number drawn uniformly from zero, inclusive, to one, exclusive.
    pub fn next_f32<F: Fn(Op) -> Single>(&mut self, f: &F) -> (r: Single)
        requires
            total(*f),
        ensures
            *final(self) == old(self).next(),
            forall|g: Arith| #[trigger] computes(*f, g) ==> r == old(self).fraction(g),
    {
        let drawn: u64 = self.next_u64();
        assert(drawn >> 40u64 < 0x100_0000) by (bit_vector);
        let numerator: Single = f(Op::FromInt((drawn >> 40u64) as i64));
        f(Op::Mul(numerator, single(FRACTION_UNIT)))
    }

    /// A number drawn uniformly between two bounds.
    pub fn range_f32<F: Fn(Op) -> Single>(&mut self, f: &F, low: Single, high: Single) -> (r: Single)
        requires
            total(*f),
        ensures
            *final(self) == old(self).next(),
            forall|g: Arith| #[trigger] computes(*f, g) ==> r == old(self).between(g, low, high),
    {
        let span: Single = f(Op::Sub(high, low));
        let fraction: Single = self.next_f32(f);
        let offset: Single = f(Op::Mul(span, fraction));
        f(Op::Add(low, offset))
    }
}

} // verus!
