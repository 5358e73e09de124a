//! The camera of a single image.

use crate::arith::{
    computes, total, vec_difference, vec_dot, vec_length, vec_normalized, vec_scaled, Arith, Op,
    Vec3, ONE, ZERO,
};
use crate::single::{single, Single, INFINITY_BITS};
use vstd::prelude::*;

verus! {

/// A direction whose squared length is below this, 1e-12, is none.
pub const NO_DIRECTION: u32 = 0x2b8c_bccc;

/// Directions whose cross product has a squared length below this, 1e-6, are
/// parallel.
pub const PARALLEL: u32 = 0x3586_37bd;

/// 0.9, below which a direction is not along the X axis.
pub const NINE_TENTHS: u32 = 0x3f66_6666;

/// The axes of a camera that looks along `forward`.
#[derive(Clone, Copy, Debug, PartialEq, Eq, Structural)]
pub struct LookBasis {
    pub right: Vec3,
    pub up: Vec3,
    pub forward: Vec3,
}

pub open spec fn cross(g: Arith, a: Vec3, b: Vec3) -> Vec3 {
    Vec3 {
        x: g(Op::Sub(g(Op::Mul(a.y, b.z)), g(Op::Mul(b.y, a.z)))),
        y: g(Op::Sub(g(Op::Mul(a.z, b.x)), g(Op::Mul(b.z, a.x)))),
        z: g(Op::Sub(g(Op::Mul(a.x, b.y)), g(Op::Mul(b.x, a.y)))),
    }
}

/// The vector of length one with the same direction, or another where there is
/// no such vector.
pub open spec fn unit_or(g: Arith, a: Vec3, fallback: Vec3) -> Vec3 {
    let inverse = g(Op::Div(single(ONE), vec_length(g, a)));
    if inverse.magnitude() < INFINITY_BITS && single(ZERO).below(inverse) {
        vec_scaled(g, a, inverse)
    } else {
        fallback
    }
}

pub open spec fn axis_x() -> Vec3 {
    Vec3 { x: single(ONE), y: single(ZERO), z: single(ZERO) }
}

pub open spec fn axis_y() -> Vec3 {
    Vec3 { x: single(ZERO), y: single(ONE), z: single(ZERO) }
}

pub open spec fn axis_z() -> Vec3 {
    Vec3 { x: single(ZERO), y: single(ZERO), z: single(ONE) }
}

/// The direction from the camera to its target; along Z where they coincide.
pub open spec fn forward_of(g: Arith, eye: Vec3, target: Vec3) -> Vec3 {
    let zero = single(ZERO);
    let way = unit_or(g, vec_difference(g, target, eye), Vec3 { x: zero, y: zero, z: zero });
    if vec_dot(g, way, way).below(single(NO_DIRECTION)) {
        axis_z()
    } else {
        way
    }
}

/// The hint for the up direction; an axis where the hint is along the view.
pub open spec fn up_of(g: Arith, up_hint: Vec3, forward: Vec3) -> Vec3 {
    let up = unit_or(g, up_hint, axis_y());
    let side = cross(g, up, forward);
    if vec_dot(g, side, side).below(single(PARALLEL)) {
        if forward.x.without_sign().below(single(NINE_TENTHS)) {
            axis_x()
        } else {
            axis_y()
        }
    } else {
        up
    }
}

pub open spec fn basis_of(g: Arith, eye: Vec3, target: Vec3, up_hint: Vec3) -> LookBasis {
    let forward = forward_of(g, eye, target);
    let right = vec_normalized(g, cross(g, up_of(g, up_hint, forward), forward));
    LookBasis { right, up: cross(g, forward, right), forward }
}

fn cross_product<F: Fn(Op) -> Single>(f: &F, a: Vec3, b: Vec3) -> (r: Vec3)
    requires
        total(*f),
    ensures
        forall|g: Arith| #[trigger] computes(*f, g) ==> r == cross(g, a, b),
{
    let yz: Single = f(Op::Mul(a.y, b.z));
    let zy: Single = f(Op::Mul(b.y, a.z));
    let zx: Single = f(Op::Mul(a.z, b.x));
    let xz: Single = f(Op::Mul(b.z, a.x));
    let xy: Single = f(Op::Mul(a.x, b.y));
    let yx: Single = f(Op::Mul(b.x, a.y));
    Vec3 { x: f(Op::Sub(yz, zy)), y: f(Op::Sub(zx, xz)), z: f(Op::Sub(xy, yx)) }
}

fn normalize_or<F: Fn(Op) -> Single>(f: &F, a: Vec3, fallback: Vec3) -> (r: Vec3)
    requires
        total(*f),
    ensures
        forall|g: Arith| #[trigger] computes(*f, g) ==> r == unit_or(g, a, fallback),
{
    let length: Single = a.length(f);
    let inverse: Single = f(Op::Div(single(ONE), length));
    if inverse.abs().bits < INFINITY_BITS && inverse.gt(single(ZERO)) {
        a.scaled(f, inverse)
    } else {
        fallback
    }
}

/// The axes of a camera that looks from `eye` at `target`, held upright by a
/// hint. A target at the eye, or a hint along the view, is replaced by an axis.
pub fn look_basis<F: Fn(Op) -> Single>(f: &F, eye: Vec3, target: Vec3, up_hint: Vec3) -> (r:
    LookBasis)
    requires
        total(*f),
    ensures
        forall|g: Arith| #[trigger] computes(*f, g) ==> r == basis_of(g, eye, target, up_hint),
{
    let zero: Single = single(ZERO);
    let one: Single = single(ONE);
    let way: Vec3 = target.minus(f, eye);
    let way: Vec3 = normalize_or(f, way, Vec3 { x: zero, y: zero, z: zero });
    let squared: Single = way.dot(f, way);
    let forward: Vec3 = if squared.lt(single(NO_DIRECTION)) {
        Vec3 { x: zero, y: zero, z: one }
    } else {
        way
    };
    let mut up: Vec3 = normalize_or(f, up_hint, Vec3 { x: zero, y: one, z: zero });
    let side: Vec3 = cross_product(f, up, forward);
    let squared: Single = side.dot(f, side);
    if squared.lt(single(PARALLEL)) {
        up = if forward.x.abs().lt(single(NINE_TENTHS)) {
            Vec3 { x: one, y: zero, z: zero }
        } else {
            Vec3 { x: zero, y: one, z: zero }
        };
    }
    let side: Vec3 = cross_product(f, up, forward);
    let right: Vec3 = side.normalized(f);
    LookBasis { right, up: cross_product(f, forward, right), forward }
}

} // verus!
