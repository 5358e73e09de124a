//! Settings of the camera, and the colours of the background.

use crate::arith::{computes, total, Arith, Op, Vec3, ONE, ZERO};
use crate::single::{single, Single};
use vstd::prelude::*;

verus! {

/// The largest value of a colour channel, 255.
pub const CHANNEL_MAX: u32 = 0x437f_0000;

/// What the user has set; what they have not is `None`. `C` limits where the
/// camera can go.
#[derive(Debug)]
pub struct CameraSettings<C> {
    pub speed_scale: Option<Single>,
    pub splat_scale: Option<Single>,
    pub background: Option<Vec3>,
    pub grid_enabled: Option<bool>,
    pub clamping: C,
}

/// A colour channel out of 255.
pub open spec fn channel_byte(g: Arith, value: Single) -> int {
    g(Op::Mul(value, single(CHANNEL_MAX))).truncated(0, 255)
}

pub open spec fn channel_value(g: Arith, byte: u8) -> Single {
    g(Op::Div(g(Op::FromInt(byte as i64)), single(CHANNEL_MAX)))
}

/// The bytes of a colour.
pub fn color_bytes<F: Fn(Op) -> Single>(f: &F, color: Vec3) -> (r: (u8, u8, u8))
    requires
        total(*f),
    ensures
        forall|g: Arith| #[trigger]
            computes(*f, g) ==> r.0 == channel_byte(g, color.x) && r.1 == channel_byte(g, color.y)
                && r.2 == channel_byte(g, color.z),
{
    let x: Single = f(Op::Mul(color.x, single(CHANNEL_MAX)));
    let y: Single = f(Op::Mul(color.y, single(CHANNEL_MAX)));
    let z: Single = f(Op::Mul(color.z, single(CHANNEL_MAX)));
    (x.truncate(0, 255) as u8, y.truncate(0, 255) as u8, z.truncate(0, 255) as u8)
}

/// The colour with the given bytes.
pub fn color_of_bytes<F: Fn(Op) -> Single>(f: &F, red: u8, green: u8, blue: u8) -> (r: Vec3)
    requires
        total(*f),
    ensures
        forall|g: Arith| #[trigger]
            computes(*f, g) ==> r == (Vec3 {
                x: channel_value(g, red),
                y: channel_value(g, green),
                z: channel_value(g, blue),
            }),
{
    let x: Single = f(Op::FromInt(red as i64));
    let y: Single = f(Op::FromInt(green as i64));
    let z: Single = f(Op::FromInt(blue as i64));
    Vec3 {
        x: f(Op::Div(x, single(CHANNEL_MAX))),
        y: f(Op::Div(y, single(CHANNEL_MAX))),
        z: f(Op::Div(z, single(CHANNEL_MAX))),
    }
}

impl<C> CameraSettings<C> {
    /// How fast the camera flies; one if nothing is set.
    pub fn speed(&self) -> (r: Single)
        ensures
            r == match self.speed_scale {
                Some(scale) => scale,
                None => single(ONE),
            },
    {
        match self.speed_scale {
            Some(scale) => scale,
            None => single(ONE),
        }
    }

    /// How large splats are drawn; one if nothing is set.
    pub fn scale(&self) -> (r: Single)
        ensures
            r == match self.splat_scale {
                Some(scale) => scale,
                None => single(ONE),
            },
    {
        match self.splat_scale {
            Some(scale) => scale,
            None => single(ONE),
        }
    }

    /// Whether there is a grid; there is none if nothing is set.
    pub fn grid(&self) -> (r: bool)
        ensures
            r == match self.grid_enabled {
                Some(enabled) => enabled,
                None => false,
            },
    {
        match self.grid_enabled {
            Some(enabled) => enabled,
            None => false,
        }
    }

    /// The background; black if nothing is set.
    pub fn background_color(&self) -> (r: Vec3)
        ensures
            r == match self.background {
                Some(color) => color,
                None => Vec3 { x: single(ZERO), y: single(ZERO), z: single(ZERO) },
            },
    {
        match self.background {
            Some(color) => color,
            None => Vec3::zero(),
        }
    }
}

} // verus!
