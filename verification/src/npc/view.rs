//! Where characters stand in the world, and how the world comes to the screen.
//!
//! The world has its up axis down and characters their heads up, so a character
//! is turned over about X; it then turns about Y by its heading. The cameras of
//! the world look along +Z and projections expect -Z, so the view is turned over
//! as well.

use crate::arith::{computes, total, Arith, Op, Vec3};
use crate::character::skeleton::{builds, makes, multiplies, products, Placement, Quat};
use crate::single::{single, Single};
use vstd::prelude::*;

verus! {

/// Half a turn in radians.
pub const HALF_TURN_RAD: u32 = 0x4049_0fdb;

/// What is nearer than 0.05 or farther than 1000 is not shown.
pub const NEAR_PLANE: u32 = 0x3d4c_cccd;

pub const FAR_PLANE: u32 = 0x447a_0000;

/// A turn about an axis, in radians.
#[derive(Clone, Copy, Debug, PartialEq, Eq, Structural)]
pub enum Turn {
    AboutX(Single),
    AboutY(Single),
}

/// A perspective projection: the vertical field of view in radians, width by
/// height, and the planes between which things are shown.
#[derive(Clone, Copy, Debug, PartialEq, Eq, Structural)]
pub struct Lens {
    pub fov_y: Single,
    pub aspect: Single,
    pub near: Single,
    pub far: Single,
}

/// The function accepts everything.
pub open spec fn accepts<A, R, F: Fn(A) -> R>(f: F) -> bool {
    forall|a: A| #[trigger] call_requires(f, (a,))
}

/// Whatever the function returns is what `h` gives.
pub open spec fn gives<A, R, F: Fn(A) -> R>(f: F, h: spec_fn(A) -> R) -> bool {
    forall|a: A, r: R| #[trigger] call_ensures(f, (a,), r) ==> r == h(a)
}

/// A character of the given scale and heading at a place.
pub open spec fn standing_at(
    g: Arith,
    turn: spec_fn(Turn) -> Quat,
    compose: spec_fn(Quat, Quat) -> Quat,
    scale: Single,
    yaw_deg: Single,
    pos: Vec3,
) -> Placement {
    Placement {
        translation: pos,
        rotation: compose(
            turn(Turn::AboutY(g(Op::Radians(yaw_deg)))),
            turn(Turn::AboutX(single(HALF_TURN_RAD))),
        ),
        scale: Vec3 { x: scale, y: scale, z: scale },
    }
}

/// The matrix of a character of the given scale and heading at a place.
pub fn model_matrix<
    M,
    F: Fn(Op) -> Single,
    T: Fn(Turn) -> Quat,
    Q: Fn(Quat, Quat) -> Quat,
    B: Fn(Placement) -> M,
>(f: &F, turn: &T, compose: &Q, build: &B, scale: Single, yaw_deg: Single, pos: Vec3) -> (r: M)
    requires
        total(*f),
        accepts::<Turn, Quat, T>(*turn),
        multiplies::<Quat, Q>(*compose),
        builds::<M, B>(*build),
    ensures
        forall|
            g: Arith,
            t: spec_fn(Turn) -> Quat,
            q: spec_fn(Quat, Quat) -> Quat,
            m: spec_fn(Placement) -> M,
        |
            #![trigger computes(*f, g), gives(*turn, t), products(*compose, q), makes(*build, m)]
            computes(*f, g) && gives(*turn, t) && products(*compose, q) && makes(*build, m) ==> r
                == m(standing_at(g, t, q, scale, yaw_deg, pos)),
{
    let yaw: Single = f(Op::Radians(yaw_deg));
    let heading: Quat = turn(Turn::AboutY(yaw));
    let over: Quat = turn(Turn::AboutX(single(HALF_TURN_RAD)));
    let rotation: Quat = compose(heading, over);
    build(
        Placement {
            translation: pos,
            rotation,
            scale: Vec3 { x: scale, y: scale, z: scale },
        },
    )
}

/// The matrix that takes the world to the screen, given the one that takes it to
/// the space of the camera.
pub fn view_projection<
    M,
    L: Fn(Lens) -> M,
    T: Fn(Turn) -> M,
    P: Fn(M, M) -> M,
>(
    project: &L,
    turn: &T,
    product: &P,
    world_to_local: M,
    fov_y_rad: Single,
    aspect: Single,
) -> (r: M)
    requires
        accepts::<Lens, M, L>(*project),
        accepts::<Turn, M, T>(*turn),
        multiplies::<M, P>(*product),
    ensures
        forall|l: spec_fn(Lens) -> M, t: spec_fn(Turn) -> M, h: spec_fn(M, M) -> M|
            #![trigger gives(*project, l), gives(*turn, t), products(*product, h)]
            gives(*project, l) && gives(*turn, t) && products(*product, h) ==> r == h(
                h(
                    l(
                        Lens {
                            fov_y: fov_y_rad,
                            aspect,
                            near: single(NEAR_PLANE),
                            far: single(FAR_PLANE),
                        },
                    ),
                    t(Turn::AboutX(single(HALF_TURN_RAD))),
                ),
                world_to_local,
            ),
{
    let lens: M = project(
        Lens {
            fov_y: fov_y_rad,
            aspect,
            near: single(NEAR_PLANE),
            far: single(FAR_PLANE),
        },
    );
    let over: M = turn(Turn::AboutX(single(HALF_TURN_RAD)));
    let turned: M = product(lens, over);
    product(turned, world_to_local)
}

} // verus!
