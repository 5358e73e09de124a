//! The bars around a reference pose.
//!
//! While the camera stands where a picture of the data set was taken, what lies
//! outside of that picture is covered by bars. They fade in and out.

use crate::arith::{between, computes, greater, hold_between, total, Arith, Op, HALF, ONE, ZERO};
use crate::single::{single, Single};
use crate::ui::scene::{ScenePanel, SceneView};
use vstd::prelude::*;

verus! {

/// Largest distance, and largest angle, that still count as none, 0.001.
pub const POSE_EPS: u32 = 0x3a83_126f;

/// Seconds in which the bars fade, 0.2.
pub const FADE_TIME: u32 = 0x3e4c_cccd;

/// Darkness of the bars, 160 out of 255.
pub const MAX_ALPHA: u32 = 0x4320_0000;

/// 1/256, below which fading ends.
pub const FADE_END: u32 = 0x3b80_0000;

/// Smallest focal length, 0.000001.
pub const MIN_FOCAL: u32 = 0x3586_37bd;

/// How far a reference pose is from the camera.
#[derive(Clone, Copy, Debug, PartialEq, Eq, Structural)]
pub struct PoseGap {
    /// The distance between the two positions.
    pub position: Single,
    /// The angle between the two directions.
    pub rotation: Single,
}

/// The bars of a drawing.
#[derive(Clone, Copy, Debug, PartialEq, Eq, Structural)]
pub struct PoseBars {
    /// Index of the nearest reference pose.
    pub nearest: usize,
    /// How dark the bars are; none are drawn at zero.
    pub alpha: u8,
    /// Whether the bars still fade.
    pub fading: bool,
}

pub open spec fn gap_size(g: Arith, gap: PoseGap) -> Single {
    g(Op::Add(gap.position, gap.rotation))
}

/// The nearest of the first `n` poses: the first whose gap is below all before
/// it. A gap that is no number is below none.
pub open spec fn nearest_of(g: Arith, gaps: Seq<PoseGap>, n: int) -> int
    decreases n,
{
    if n <= 1 {
        0
    } else {
        let best = nearest_of(g, gaps, n - 1);
        if gap_size(g, gaps[n - 1]).below(gap_size(g, gaps[best])) {
            n - 1
        } else {
            best
        }
    }
}

/// The camera stands on a pose.
pub open spec fn on_pose(gap: PoseGap) -> bool {
    gap.position.below(single(POSE_EPS)) && gap.rotation.below(single(POSE_EPS))
}

/// One on a pose, zero off it.
pub open spec fn fade_target(gap: PoseGap) -> Single {
    if on_pose(gap) {
        single(ONE)
    } else {
        single(ZERO)
    }
}

/// How far the bars have moved to the target after `dt` seconds.
pub open spec fn faded(g: Arith, alpha: Single, target: Single, dt: Single) -> Single {
    let rest = g(Op::Exp(g(Op::Div(dt.negated(), single(FADE_TIME)))));
    g(Op::Add(target, g(Op::Mul(g(Op::Sub(alpha, target)), rest))))
}

/// They are all but there.
pub open spec fn fade_ends(g: Arith, alpha: Single, target: Single) -> bool {
    g(Op::Sub(alpha, target)).without_sign().below(single(FADE_END))
}

/// How far the bars are faded in after `dt` seconds.
pub open spec fn next_alpha(g: Arith, alpha: Single, target: Single, dt: Single) -> Single {
    let moved = faded(g, alpha, target, dt);
    if fade_ends(g, moved, target) {
        target
    } else {
        moved
    }
}

/// The bars after `dt` seconds.
pub open spec fn next_bars(g: Arith, alpha: Single, gaps: Seq<PoseGap>, dt: Single) -> (
    Single,
    PoseBars,
) {
    let nearest = nearest_of(g, gaps, gaps.len() as int);
    let target = fade_target(gaps[nearest]);
    let next = next_alpha(g, alpha, target, dt);
    (
        next,
        PoseBars {
            nearest: nearest as usize,
            alpha: g(Op::Mul(next, single(MAX_ALPHA))).truncated(0, 255) as u8,
            fading: !fade_ends(g, faded(g, alpha, target, dt), target),
        },
    )
}

/// The nearest reference pose.
pub fn nearest_pose<F: Fn(Op) -> Single>(f: &F, gaps: &Vec<PoseGap>) -> (r: usize)
    requires
        total(*f),
        gaps@.len() > 0,
    ensures
        r < gaps@.len(),
        forall|g: Arith| #[trigger]
            computes(*f, g) ==> r == nearest_of(g, gaps@, gaps@.len() as int),
{
    let mut best: usize = 0;
    let mut i: usize = 1;
    while i < gaps.len()
        invariant
            total(*f),
            1 <= i <= gaps@.len(),
            best < i,
            forall|g: Arith| #[trigger] computes(*f, g) ==> best == nearest_of(g, gaps@, i as int),
        decreases gaps@.len() - i,
    {
        let here: Single = f(Op::Add(gaps[i].position, gaps[i].rotation));
        let there: Single = f(Op::Add(gaps[best].position, gaps[best].rotation));
        if here.lt(there) {
            best = i;
        }
        i = i + 1;
    }
    best
}

impl<D> ScenePanel<D> {
    /// Fade the bars for `dt` seconds. Without reference poses nothing changes
    /// and there are no bars.
    pub fn update_reference_pose_bars<F: Fn(Op) -> Single>(
        &mut self,
        f: &F,
        gaps: &Vec<PoseGap>,
        dt: Single,
    ) -> (r: Option<PoseBars>)
        requires
            total(*f),
        ensures
            gaps@.len() == 0 ==> r is None && final(self)@ == old(self)@,
            gaps@.len() > 0 ==> r is Some && r->0.nearest < gaps@.len() && forall|g: Arith| #[trigger]
                computes(*f, g) ==> r->0 == next_bars(
                    g,
                    old(self)@.pose_match_alpha,
                    gaps@,
                    dt,
                ).1 && final(self)@ == (SceneView {
                    pose_match_alpha: next_bars(g, old(self)@.pose_match_alpha, gaps@, dt).0,
                    ..old(self)@
                }),
    {
        let ghost before = self@;
        if gaps.len() == 0 {
            return None;
        }
        let nearest: usize = nearest_pose(f, gaps);
        let gap: PoseGap = gaps[nearest];
        let target: Single = if gap.position.lt(single(POSE_EPS)) && gap.rotation.lt(
            single(POSE_EPS),
        ) {
            single(ONE)
        } else {
            single(ZERO)
        };
        let share: Single = f(Op::Div(dt.neg(), single(FADE_TIME)));
        let rest: Single = f(Op::Exp(share));
        let away: Single = f(Op::Sub(self.pose_match_alpha, target));
        let away: Single = f(Op::Mul(away, rest));
        self.pose_match_alpha = f(Op::Add(target, away));
        let left: Single = f(Op::Sub(self.pose_match_alpha, target));
        let fading: bool = !left.abs().lt(single(FADE_END));
        if !fading {
            self.pose_match_alpha = target;
        }
        let dark: Single = f(Op::Mul(self.pose_match_alpha, single(MAX_ALPHA)));
        let alpha: u8 = dark.truncate(0, 255) as u8;
        assert forall|g: Arith| #[trigger] computes(*f, g) implies self@ == (SceneView {
            pose_match_alpha: next_bars(g, before.pose_match_alpha, gaps@, dt).0,
            ..before
        }) by {
            assert(self@ =~= (SceneView {
                pose_match_alpha: next_bars(g, before.pose_match_alpha, gaps@, dt).0,
                ..before
            }));
        }
        Some(PoseBars { nearest, alpha, fading })
    }
}

/// How much of a side the picture covers, given the focal lengths.
pub open spec fn covered(g: Arith, focal: Single, reference: Single) -> Single {
    between(
        g(Op::Div(focal, greater(reference, single(MIN_FOCAL)))),
        single(ZERO),
        single(ONE),
    )->0
}

/// How wide each of the two bars on a side of the given length is.
pub open spec fn bar_width(g: Arith, side: Single, focal: Single, reference: Single) -> Single {
    g(Op::Mul(
        g(Op::Mul(side, g(Op::Sub(single(ONE), covered(g, focal, reference))))),
        single(HALF),
    ))
}

/// The width of the bars along a side, if they are wide enough to draw. `focal`
/// is the focal length of the camera, `reference` that of the picture.
pub fn bar_along<F: Fn(Op) -> Single>(f: &F, side: Single, focal: Single, reference: Single) -> (r:
    Option<Single>)
    requires
        total(*f),
    ensures
        forall|g: Arith| #[trigger]
            computes(*f, g) ==> r == if single(HALF).below(bar_width(g, side, focal, reference)) {
                Some(bar_width(g, side, focal, reference))
            } else {
                None
            },
{
    let least: Single = if reference.gt(single(MIN_FOCAL)) {
        reference
    } else {
        single(MIN_FOCAL)
    };
    let share: Single = f(Op::Div(focal, least));
    let share: Single = match hold_between(share, single(ZERO), single(ONE)) {
        Some(held) => held,
        None => share,
    };
    let open: Single = f(Op::Sub(single(ONE), share));
    let open: Single = f(Op::Mul(side, open));
    let bar: Single = f(Op::Mul(open, single(HALF)));
    if bar.gt(single(HALF)) {
        Some(bar)
    } else {
        None
    }
}

} // verus!
