//! When the viewport is drawn anew, and the textures behind it.

use crate::arith::{computes, total, Arith, Op, Vec3, ZERO};
use crate::single::{single, Single};
use vstd::prelude::*;

verus! {

/// Longest time that the characters are moved on in one step, 0.1 seconds.
pub const MAX_STEP: u32 = 0x3dcc_cccd;

/// What a picture of the splats depends on, beside the camera.
#[derive(Clone, Copy, Debug, PartialEq, Eq, Structural)]
pub struct RenderState {
    pub frame: usize,
    pub background: Vec3,
    pub splat_scale: Option<Single>,
    pub width: u32,
    pub height: u32,
}

/// Two numbers are equal: a NaN equals nothing, and the two zeros are equal.
pub open spec fn same_number(a: Single, b: Single) -> bool {
    !a.nan() && !b.nan() && a.key() == b.key()
}

pub open spec fn same_vec(a: Vec3, b: Vec3) -> bool {
    same_number(a.x, b.x) && same_number(a.y, b.y) && same_number(a.z, b.z)
}

pub open spec fn same_scale(a: Option<Single>, b: Option<Single>) -> bool {
    match (a, b) {
        (Some(x), Some(y)) => same_number(x, y),
        (None, None) => true,
        _ => false,
    }
}

pub open spec fn same_state(a: RenderState, b: RenderState) -> bool {
    &&& a.frame == b.frame
    &&& same_vec(a.background, b.background)
    &&& same_scale(a.splat_scale, b.splat_scale)
    &&& a.width == b.width
    &&& a.height == b.height
}

fn numbers_equal(a: Single, b: Single) -> (r: bool)
    ensures
        r == same_number(a, b),
{
    a.le(b) && b.le(a)
}

impl RenderState {
    /// Whether two pictures depend on the same.
    pub fn same(&self, other: &RenderState) -> (r: bool)
        ensures
            r == same_state(*self, *other),
    {
        self.frame == other.frame && numbers_equal(self.background.x, other.background.x)
            && numbers_equal(self.background.y, other.background.y) && numbers_equal(
            self.background.z,
            other.background.z,
        ) && (match self.splat_scale {
            Some(a) => match other.splat_scale {
                Some(b) => numbers_equal(a, b),
                None => false,
            },
            None => other.splat_scale.is_none(),
        }) && self.width == other.width && self.height == other.height
    }
}

/// Whether to ask for a new picture. `last` is what the last one was asked for,
/// with whether the camera is still the same.
pub fn needs_render(
    current: &RenderState,
    last: Option<(RenderState, bool)>,
    splats_dirty: bool,
    has_splats: bool,
) -> (r: bool)
    ensures
        r == (has_splats && (splats_dirty || !(last matches Some((state, same_camera))
            && same_camera && same_state(state, *current)))),
{
    let unchanged: bool = match last {
        Some((state, same_camera)) => same_camera && state.same(current),
        None => false,
    };
    (splats_dirty || !unchanged) && has_splats
}

/// Pixels along a side of the given length in points.
pub open spec fn pixels(g: Arith, points: Single, pixels_per_point: Single) -> int {
    g(Op::Round(g(Op::Mul(points, pixels_per_point)))).truncated(0, u32::MAX as int)
}

/// Pixels along a side of the given length in points.
pub fn side_in_pixels<F: Fn(Op) -> Single>(f: &F, points: Single, pixels_per_point: Single) -> (r:
    u32)
    requires
        total(*f),
    ensures
        forall|g: Arith| #[trigger] computes(*f, g) ==> r == pixels(g, points, pixels_per_point),
{
    let side: Single = f(Op::Mul(points, pixels_per_point));
    let side: Single = f(Op::Round(side));
    side.truncate(0, u32::MAX as i64) as u32
}

/// Seconds to move the characters on: those since the last step, but no more
/// than a tenth, so that nobody is flung away after a pause. None at first.
pub fn step_time(since: Option<Single>) -> (r: Single)
    ensures
        r == match since {
            Some(seconds) => if seconds.below(single(MAX_STEP)) {
                seconds
            } else {
                single(MAX_STEP)
            },
            None => single(ZERO),
        },
{
    match since {
        Some(seconds) => {
            if seconds.lt(single(MAX_STEP)) {
                seconds
            } else {
                single(MAX_STEP)
            }
        },
        None => single(ZERO),
    }
}

/// The texture that the characters are drawn into.
#[derive(Clone, Copy, Debug, PartialEq, Eq, Structural)]
pub struct TargetSize {
    pub width: u32,
    pub height: u32,
    /// There is a texture of this size.
    pub made: bool,
}

impl TargetSize {
    /// No texture yet.
    pub fn new() -> (r: TargetSize)
        ensures
            r == (TargetSize { width: 0, height: 0, made: false }),
    {
        TargetSize { width: 0, height: 0, made: false }
    }

    /// Make sure of a texture of the given size. Gives the sides of a texture to
    /// make, if one has to be made: none of them is zero.
    pub fn ensure(&mut self, width: u32, height: u32) -> (r: Option<(u32, u32)>)
        ensures
            *final(self) == (TargetSize { width, height, made: true }),
            r == if old(self).made && old(self).width == width && old(self).height == height {
                None
            } else {
                Some(
                    (
                        if width == 0 {
                            1
                        } else {
                            width
                        },
                        if height == 0 {
                            1
                        } else {
                            height
                        },
                    ),
                )
            },
    {
        if self.width == width && self.height == height && self.made {
            return None;
        }
        self.width = width;
        self.height = height;
        self.made = true;
        Some(
            (
                if width == 0 {
                    1
                } else {
                    width
                },
                if height == 0 {
                    1
                } else {
                    height
                },
            ),
        )
    }

    /// Whether a depth picture with the given rows and columns can hide the
    /// characters: it has to have the size of the texture.
    pub fn depth_fits(&self, rows: usize, columns: usize) -> (r: bool)
        ensures
            r == (rows == self.height && columns == self.width),
    {
        rows == self.height as usize && columns == self.width as usize
    }
}

} // verus!
