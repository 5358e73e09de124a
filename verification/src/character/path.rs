//! Scripted paths of characters.

use crate::arith::{
    computes, total, vec_difference, vec_dot, vec_length, vec_scaled, vec_sum, Arith, Op, Vec3,
    ONE, ZERO,
};
use crate::single::{single, Single};
use vstd::prelude::*;

verus! {

pub const TWO: u32 = 0x4000_0000;

/// Half a turn in degrees.
pub const HALF_TURN: u32 = 0x4334_0000;

/// Ends whose squared distance is below this, 1e-12, have no direction between
/// them.
pub const SAME_PLACE: u32 = 0x2b8c_bccc;

/// Where a character is, and how it faces, at any time.
pub trait Path {
    /// Position at a time, in seconds.
    fn position<F: Fn(Op) -> Single>(&self, f: &F, t: Single) -> Vec3
        requires
            total(*f),
    ;

    /// Yaw, in degrees, that the character faces at a time.
    fn heading_deg<F: Fn(Op) -> Single>(&self, f: &F, t: Single) -> Single
        requires
            total(*f),
    ;

    /// Speed at a time.
    fn speed<F: Fn(Op) -> Single>(&self, f: &F, t: Single) -> Single
        requires
            total(*f),
    ;

    /// Time that the path takes, after which it turns round or starts over; zero
    /// for a path that is not walked.
    fn duration(&self) -> Single;
}

/// A straight path at constant speed, walked to and fro: from `start` to `end`
/// in `duration_s` seconds, and back in as many.
#[derive(Clone, Copy, Debug, PartialEq, Eq, Structural)]
pub struct LinearPath {
    pub start: Vec3,
    pub end: Vec3,
    pub duration_s: Single,
}

/// The point a share `alpha` of the way from `a` to `b`.
pub open spec fn lerp(g: Arith, a: Vec3, b: Vec3, alpha: Single) -> Vec3 {
    vec_sum(
        g,
        vec_scaled(g, a, g(Op::Sub(single(ONE), alpha))),
        vec_scaled(g, b, alpha),
    )
}

impl LinearPath {
    /// The path is never walked.
    pub open spec fn still(self) -> bool {
        self.duration_s.at_most(single(ZERO))
    }

    /// Time within a round, in units of one way: up to one on the way there,
    /// beyond that on the way back.
    pub open spec fn phase(self, g: Arith, t: Single) -> Single {
        g(Op::Div(
            g(Op::RemEuclid(t, g(Op::Mul(single(TWO), self.duration_s)))),
            self.duration_s,
        ))
    }

    /// The way leads from start to end.
    pub open spec fn forward(self, g: Arith, t: Single) -> bool {
        self.still() || self.phase(g, t).at_most(single(ONE))
    }

    /// The share of the way from start to end.
    pub open spec fn share(self, g: Arith, t: Single) -> Single {
        if self.still() {
            single(ZERO)
        } else if self.phase(g, t).at_most(single(ONE)) {
            self.phase(g, t)
        } else {
            g(Op::Sub(single(TWO), self.phase(g, t)))
        }
    }

    /// The heading at a time; zero where start and end are the same place.
    pub open spec fn heading(self, g: Arith, t: Single) -> Single {
        let way = vec_difference(g, self.end, self.start);
        if vec_dot(g, way, way).below(single(SAME_PLACE)) {
            single(ZERO)
        } else {
            let x = if self.forward(g, t) {
                way.x
            } else {
                way.x.negated()
            };
            let z = if self.forward(g, t) {
                way.z
            } else {
                way.z.negated()
            };
            g(Op::Add(g(Op::Degrees(g(Op::Atan2(x, z)))), single(HALF_TURN)))
        }
    }

    fn phase_at<F: Fn(Op) -> Single>(&self, f: &F, t: Single) -> (r: Single)
        requires
            total(*f),
        ensures
            forall|g: Arith| #[trigger] computes(*f, g) ==> r == self.phase(g, t),
    {
        let round: Single = f(Op::Mul(single(TWO), self.duration_s));
        let within: Single = f(Op::RemEuclid(t, round));
        f(Op::Div(within, self.duration_s))
    }

    /// The share of the way: it climbs from zero to one and falls back to zero.
    pub fn alpha<F: Fn(Op) -> Single>(&self, f: &F, t: Single) -> (r: Single)
        requires
            total(*f),
        ensures
            forall|g: Arith| #[trigger] computes(*f, g) ==> r == self.share(g, t),
    {
        if self.duration_s.le(single(ZERO)) {
            return single(ZERO);
        }
        let phase: Single = self.phase_at(f, t);
        if phase.le(single(ONE)) {
            phase
        } else {
            f(Op::Sub(single(TWO), phase))
        }
    }

    /// True on the way from start to end, false on the way back.
    pub fn going_forward<F: Fn(Op) -> Single>(&self, f: &F, t: Single) -> (r: bool)
        requires
            total(*f),
        ensures
            forall|g: Arith| #[trigger] computes(*f, g) ==> r == self.forward(g, t),
    {
        if self.duration_s.le(single(ZERO)) {
            return true;
        }
        let phase: Single = self.phase_at(f, t);
        phase.le(single(ONE))
    }
}

impl Path for LinearPath {
    /// Position at a time.
    fn position<F: Fn(Op) -> Single>(&self, f: &F, t: Single) -> (r: Vec3)
        ensures
            forall|g: Arith| #[trigger]
                computes(*f, g) ==> r == lerp(g, self.start, self.end, self.share(g, t)),
    {
        let alpha: Single = self.alpha(f, t);
        let rest: Single = f(Op::Sub(single(ONE), alpha));
        let from: Vec3 = self.start.scaled(f, rest);
        let to: Vec3 = self.end.scaled(f, alpha);
        from.plus(f, to)
    }

    /// Yaw, in degrees, that faces the way that is walked.
    fn heading_deg<F: Fn(Op) -> Single>(&self, f: &F, t: Single) -> (r: Single)
        ensures
            forall|g: Arith| #[trigger] computes(*f, g) ==> r == self.heading(g, t),
    {
        let way: Vec3 = self.end.minus(f, self.start);
        let squared: Single = way.dot(f, way);
        if squared.lt(single(SAME_PLACE)) {
            return single(ZERO);
        }
        let forward: bool = self.going_forward(f, t);
        let x: Single = if forward {
            way.x
        } else {
            way.x.neg()
        };
        let z: Single = if forward {
            way.z
        } else {
            way.z.neg()
        };
        let angle: Single = f(Op::Atan2(x, z));
        let degrees: Single = f(Op::Degrees(angle));
        f(Op::Add(degrees, single(HALF_TURN)))
    }

    /// Speed of the walk.
    fn speed<F: Fn(Op) -> Single>(&self, f: &F, t: Single) -> (r: Single)
        ensures
            forall|g: Arith| #[trigger]
                computes(*f, g) ==> r == if self.still() {
                    single(ZERO)
                } else {
                    g(Op::Div(
                        vec_length(g, vec_difference(g, self.end, self.start)),
                        self.duration_s,
                    ))
                },
    {
        if self.duration_s.le(single(ZERO)) {
            single(ZERO)
        } else {
            let way: Vec3 = self.end.minus(f, self.start);
            let length: Single = way.length(f);
            f(Op::Div(length, self.duration_s))
        }
    }

    /// Time that one way takes.
    fn duration(&self) -> (r: Single)
        ensures
            r == self.duration_s,
    {
        self.duration_s
    }
}

} // verus!
