//! Arithmetic that is handed in by the caller, and vectors built on it.
//!
//! A function that needs to add or multiply singles takes an arithmetic `f` and
//! promises its result for every `g` with `computes(*f, g)`: for every
//! mathematical function that `f` may turn out to compute.

use crate::single::{single, Single};
use vstd::prelude::*;

verus! {

/// One arithmetic operation together with its operands.
#[derive(Clone, Copy, Debug, PartialEq, Eq, Structural)]
pub enum Op {
    Add(Single, Single),
    Sub(Single, Single),
    Mul(Single, Single),
    Div(Single, Single),
    Sqrt(Single),
    Floor(Single),
    Round(Single),
    /// The remainder, never negative, of a division.
    RemEuclid(Single, Single),
    Cos(Single),
    Sin(Single),
    /// The angle of the point whose second coordinate comes first.
    Atan2(Single, Single),
    /// Radians to degrees.
    Degrees(Single),
    /// Degrees to radians.
    Radians(Single),
    Exp(Single),
    Ln(Single),
    /// The exponent of a Gaussian with the given conic and centre, at a point.
    Sigma { x: Single, y: Single, conic: Sym2, center_x: Single, center_y: Single },
    /// The logistic function.
    Sigmoid(Single),
    /// The determinant of a symmetric matrix.
    Determinant(Sym2),
    /// The largest absolute value among the entries of a symmetric matrix.
    LargestEntry(Sym2),
    /// The entries of the inverse of a symmetric matrix.
    Inverse00(Sym2),
    Inverse01(Sym2),
    Inverse11(Sym2),
    FromInt(i64),
}

/// A symmetric two by two matrix.
#[derive(Clone, Copy, Debug, PartialEq, Eq, Structural)]
pub struct Sym2 {
    pub c00: Single,
    pub c01: Single,
    pub c11: Single,
}

/// The mathematical function that an arithmetic computes.
pub type Arith = spec_fn(Op) -> Single;

/// `f` accepts every operation.
pub open spec fn total<F: Fn(Op) -> Single>(f: F) -> bool {
    forall|op: Op| #[trigger] call_requires(f, (op,))
}

/// Whatever `f` returns for an operation is what `g` gives for it.
pub open spec fn computes<F: Fn(Op) -> Single>(f: F, g: Arith) -> bool {
    forall|op: Op, r: Single| #[trigger] call_ensures(f, (op,), r) ==> r == g(op)
}

/// Bit patterns of a few numbers.
pub const ZERO: u32 = 0;

pub const ONE: u32 = 0x3f80_0000;

pub const HALF: u32 = 0x3f00_0000;

pub const INFINITY: u32 = 0x7f80_0000;

/// Three singles: a point or a displacement.
#[derive(Clone, Copy, Debug, PartialEq, Eq, Structural)]
pub struct Vec3 {
    pub x: Single,
    pub y: Single,
    pub z: Single,
}

pub open spec fn vec_sum(g: Arith, a: Vec3, b: Vec3) -> Vec3 {
    Vec3 { x: g(Op::Add(a.x, b.x)), y: g(Op::Add(a.y, b.y)), z: g(Op::Add(a.z, b.z)) }
}

pub open spec fn vec_difference(g: Arith, a: Vec3, b: Vec3) -> Vec3 {
    Vec3 { x: g(Op::Sub(a.x, b.x)), y: g(Op::Sub(a.y, b.y)), z: g(Op::Sub(a.z, b.z)) }
}

pub open spec fn vec_scaled(g: Arith, a: Vec3, k: Single) -> Vec3 {
    Vec3 { x: g(Op::Mul(a.x, k)), y: g(Op::Mul(a.y, k)), z: g(Op::Mul(a.z, k)) }
}

pub open spec fn vec_divided(g: Arith, a: Vec3, k: Single) -> Vec3 {
    Vec3 { x: g(Op::Div(a.x, k)), y: g(Op::Div(a.y, k)), z: g(Op::Div(a.z, k)) }
}

pub open spec fn vec_dot(g: Arith, a: Vec3, b: Vec3) -> Single {
    g(Op::Add(
        g(Op::Add(g(Op::Mul(a.x, b.x)), g(Op::Mul(a.y, b.y)))),
        g(Op::Mul(a.z, b.z)),
    ))
}

/// Euclidean length.
pub open spec fn vec_length(g: Arith, a: Vec3) -> Single {
    g(Op::Sqrt(vec_dot(g, a, a)))
}

/// The vector of length one with the same direction.
pub open spec fn vec_normalized(g: Arith, a: Vec3) -> Vec3 {
    vec_scaled(g, a, g(Op::Div(single(ONE), vec_length(g, a))))
}

/// Two numbers lie no farther apart than `error`.
pub open spec fn near(a: int, b: int, error: int) -> bool {
    -error <= a - b <= error
}

/// A number held between two bounds, if the bounds are in order.
pub open spec fn between(a: Single, low: Single, high: Single) -> Option<Single> {
    if !low.at_most(high) {
        None
    } else if a.below(low) {
        Some(low)
    } else if high.below(a) {
        Some(high)
    } else {
        Some(a)
    }
}

/// Hold a number between two bounds. Bounds that are out of order, or no
/// numbers, hold nothing.
pub fn hold_between(a: Single, low: Single, high: Single) -> (r: Option<Single>)
    ensures
        r == between(a, low, high),
{
    if !low.le(high) {
        None
    } else if a.lt(low) {
        Some(low)
    } else if a.gt(high) {
        Some(high)
    } else {
        Some(a)
    }
}

/// The smaller of two singles; the second where they are unordered or equal.
pub open spec fn lesser(a: Single, b: Single) -> Single {
    if a.below(b) {
        a
    } else {
        b
    }
}

/// The larger of two singles; the second where they are unordered or equal.
pub open spec fn greater(a: Single, b: Single) -> Single {
    if b.below(a) {
        a
    } else {
        b
    }
}

pub open spec fn vec_lesser(a: Vec3, b: Vec3) -> Vec3 {
    Vec3 { x: lesser(a.x, b.x), y: lesser(a.y, b.y), z: lesser(a.z, b.z) }
}

pub open spec fn vec_greater(a: Vec3, b: Vec3) -> Vec3 {
    Vec3 { x: greater(a.x, b.x), y: greater(a.y, b.y), z: greater(a.z, b.z) }
}

impl Vec3 {
    pub fn new(x: Single, y: Single, z: Single) -> (r: Vec3)
        ensures
            r == (Vec3 { x, y, z }),
    {
        Vec3 { x, y, z }
    }

    /// The zero vector.
    pub fn zero() -> (r: Vec3)
        ensures
            r == (Vec3 { x: single(ZERO), y: single(ZERO), z: single(ZERO) }),
    {
        Vec3 { x: single(ZERO), y: single(ZERO), z: single(ZERO) }
    }

    pub fn plus<F: Fn(Op) -> Single>(self, f: &F, other: Vec3) -> (r: Vec3)
        requires
            total(*f),
        ensures
            forall|g: Arith| #[trigger] computes(*f, g) ==> r == vec_sum(g, self, other),
    {
        Vec3 {
            x: f(Op::Add(self.x, other.x)),
            y: f(Op::Add(self.y, other.y)),
            z: f(Op::Add(self.z, other.z)),
        }
    }

    pub fn minus<F: Fn(Op) -> Single>(self, f: &F, other: Vec3) -> (r: Vec3)
        requires
            total(*f),
        ensures
            forall|g: Arith| #[trigger] computes(*f, g) ==> r == vec_difference(g, self, other),
    {
        Vec3 {
            x: f(Op::Sub(self.x, other.x)),
            y: f(Op::Sub(self.y, other.y)),
            z: f(Op::Sub(self.z, other.z)),
        }
    }

    pub fn scaled<F: Fn(Op) -> Single>(self, f: &F, k: Single) -> (r: Vec3)
        requires
            total(*f),
        ensures
            forall|g: Arith| #[trigger] computes(*f, g) ==> r == vec_scaled(g, self, k),
    {
        Vec3 { x: f(Op::Mul(self.x, k)), y: f(Op::Mul(self.y, k)), z: f(Op::Mul(self.z, k)) }
    }

    pub fn divided<F: Fn(Op) -> Single>(self, f: &F, k: Single) -> (r: Vec3)
        requires
            total(*f),
        ensures
            forall|g: Arith| #[trigger] computes(*f, g) ==> r == vec_divided(g, self, k),
    {
        Vec3 { x: f(Op::Div(self.x, k)), y: f(Op::Div(self.y, k)), z: f(Op::Div(self.z, k)) }
    }

    pub fn dot<F: Fn(Op) -> Single>(self, f: &F, other: Vec3) -> (r: Single)
        requires
            total(*f),
        ensures
            forall|g: Arith| #[trigger] computes(*f, g) ==> r == vec_dot(g, self, other),
    {
        let x: Single = f(Op::Mul(self.x, other.x));
        let y: Single = f(Op::Mul(self.y, other.y));
        let z: Single = f(Op::Mul(self.z, other.z));
        let xy: Single = f(Op::Add(x, y));
        f(Op::Add(xy, z))
    }

    pub fn length<F: Fn(Op) -> Single>(self, f: &F) -> (r: Single)
        requires
            total(*f),
        ensures
            forall|g: Arith| #[trigger] computes(*f, g) ==> r == vec_length(g, self),
    {
        let squared: Single = self.dot(f, self);
        f(Op::Sqrt(squared))
    }

    pub fn normalized<F: Fn(Op) -> Single>(self, f: &F) -> (r: Vec3)
        requires
            total(*f),
        ensures
            forall|g: Arith| #[trigger] computes(*f, g) ==> r == vec_normalized(g, self),
    {
        let length: Single = self.length(f);
        let inverse: Single = f(Op::Div(single(ONE), length));
        self.scaled(f, inverse)
    }

    /// Component-wise [`lesser`].
    pub fn min(self, other: Vec3) -> (r: Vec3)
        ensures
            r == vec_lesser(self, other),
    {
        Vec3 {
            x: if self.x.lt(other.x) { self.x } else { other.x },
            y: if self.y.lt(other.y) { self.y } else { other.y },
            z: if self.z.lt(other.z) { self.z } else { other.z },
        }
    }

    /// Component-wise [`greater`].
    pub fn max(self, other: Vec3) -> (r: Vec3)
        ensures
            r == vec_greater(self, other),
    {
        Vec3 {
            x: if self.x.gt(other.x) { self.x } else { other.x },
            y: if self.y.gt(other.y) { self.y } else { other.y },
            z: if self.z.gt(other.z) { self.z } else { other.z },
        }
    }
}

} // verus!
