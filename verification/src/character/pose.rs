//! What an animation makes of a pose.

use crate::arith::{Arith, Op, Vec3, ZERO};
use crate::character::laws::law_children_follow_parents;
use crate::character::skeleton::{channel_of, pose_of, Animation, Placement, Quat, Skeleton};
use crate::character::track::{lemma_one_spot, lies, ordered, Spot, Track};
use crate::rounding::{close, finite, number, rounded, rounds};
use crate::single::{single, Single};
use vstd::prelude::*;

verus! {

/// The time lies after the first key, at or after key `k`, and before the next.
pub open spec fn between(times: Seq<Single>, w: Single, k: int) -> bool {
    &&& 0 <= k < times.len() - 1
    &&& times[0].below(w)
    &&& times[k].at_most(w)
    &&& w.below(times[k + 1])
}

/// `value` is that of the track at the time `w`: that of the first key up to that
/// key, that of the last from there on, and between keys `k` and `k + 1` their
/// values, interpolated at the share of the time between them or, in a track that
/// is not linear, that of the nearer key.
pub open spec fn follows<V>(
    track: Track<V>,
    g: Arith,
    h: spec_fn(V, V, Single) -> V,
    w: Single,
    value: V,
) -> bool {
    let times = track.times@;
    let values = track.values@;
    &&& w.at_most(times[0]) ==> value == values[0]
    &&& times[0].below(w) && times.last().at_most(w) ==> value == values[times.len() - 1]
    &&& forall|k: int| #[trigger]
        between(times, w, k) ==> {
            let passed = g(Op::Sub(w, times[k]));
            let span = g(Op::Sub(times[k + 1], times[k]));
            let ahead = g(Op::Sub(times[k + 1], w));
            &&& track.linear ==> value == h(values[k], values[k + 1], g(Op::Div(passed, span)))
            &&& !track.linear && ahead.below(passed) ==> value == values[k + 1]
            &&& !track.linear && !ahead.below(passed) ==> value == values[k]
        }
}

/// The track has keys, a value for each, and times in order.
pub open spec fn whole<V>(track: Track<V>) -> bool {
    &&& ordered(track.times@)
    &&& 0 < track.times@.len() <= track.values@.len()
    &&& track.times@.len() <= usize::MAX
}

/// A whole track has a value at every time, and it is the one that follows from
/// its keys.
pub proof fn law_track_follows_its_keys<V>(
    track: Track<V>,
    g: Arith,
    h: spec_fn(V, V, Single) -> V,
    w: Single,
)
    requires
        whole(track),
        !w.nan(),
    ensures
        track.at(g, h, w) matches Some(value) && follows(track, g, h, w, value),
{
    let times = track.times@;
    assert(times[0].at_most(times[0]));
    assert(times.last().at_most(times.last()));
    assert(times[0].at_most(times.last()));
    let spot = if w.at_most(times[0]) {
        Spot::Held(0)
    } else if times.last().at_most(w) {
        Spot::Held((times.len() - 1) as usize)
    } else {
        Spot::After(lemma_key_before(times, w, times.len() - 1) as usize)
    };
    assert(lies(times, w, spot));
    let chosen = choose|s: Spot| lies(times, w, s) && times.len() > 0;
    lemma_one_spot(times, w, spot, chosen);
    let value = track.at(g, h, w)->Some_0;
    assert forall|k: int| #[trigger]
        between(times, w, k) implies {
        let passed = g(Op::Sub(w, times[k]));
        let span = g(Op::Sub(times[k + 1], times[k]));
        let ahead = g(Op::Sub(times[k + 1], w));
        &&& track.linear ==> value == h(track.values@[k], track.values@[k + 1], g(
            Op::Div(passed, span),
        ))
        &&& !track.linear && ahead.below(passed) ==> value == track.values@[k + 1]
        &&& !track.linear && !ahead.below(passed) ==> value == track.values@[k]
    } by {
        assert(times[k + 1].at_most(times.last()));
        lemma_one_spot(times, w, spot, Spot::After(k as usize));
    }
}

/// The last key, before key `n`, that is not after a time.
proof fn lemma_key_before(times: Seq<Single>, w: Single, n: int) -> (k: int)
    requires
        ordered(times),
        0 < n < times.len(),
        !w.nan(),
        times[0].at_most(w),
        !times[n].at_most(w),
    ensures
        0 <= k < n,
        times[k].at_most(w),
        !times[k + 1].at_most(w),
    decreases n,
{
    if times[n - 1].at_most(w) {
        n - 1
    } else {
        lemma_key_before(times, w, n - 1)
    }
}

/// The share at which two keys are interpolated is, up to rounding, that of the
/// time between them: nothing at the first key, all at the next, and evenly in
/// between.
pub proof fn law_share_is_that_of_the_time(
    g: Arith,
    reach: real,
    error: real,
    w: Single,
    from: Single,
    to: Single,
)
    requires
        rounds(g, reach, error),
        error <= 1real,
        finite(w) && finite(from) && finite(to),
        number(from) <= number(w) && number(w) <= number(to),
        number(to) - number(from) >= 4real * error,
        0real < number(to) - number(from) && number(to) - number(from) + 4real <= reach,
        4real <= reach,
    ensures
        ({
            let share = g(Op::Div(g(Op::Sub(w, from)), g(Op::Sub(to, from))));
            let span = number(to) - number(from);
            &&& finite(share)
            &&& close(number(share) * span, number(w) - number(from), (span + 5real) * error)
        }),
{
    let passed = g(Op::Sub(w, from));
    let length = g(Op::Sub(to, from));
    let a = number(w) - number(from);
    let b = number(to) - number(from);
    assert(rounded(passed, a, reach, error));
    assert(rounded(length, b, reach, error));
    let s = number(passed);
    let d = number(length);
    assert(d >= 3real * error && d > 0real);
    assert(-1real <= s / d && s / d <= 2real) by (nonlinear_arith)
        requires
            d >= 3real * error,
            d > 0real,
            s >= -error,
            s <= d + 2real * error,
            error >= 0real,
    ;
    let share = g(Op::Div(passed, length));
    assert(rounded(share, s / d, reach, error));
    let q = number(share);
    assert(close(q * d, s, error * d)) by (nonlinear_arith)
        requires
            close(q, s / d, error),
            d > 0real,
    ;
    assert(close(q * b, q * d, 3real * error)) by (nonlinear_arith)
        requires
            close(d, b, error),
            -3real <= q,
            q <= 3real,
            error >= 0real,
    ;
    assert(error * d <= error * b + error) by (nonlinear_arith)
        requires
            close(d, b, error),
            0real <= error,
            error <= 1real,
    ;
    assert((b + 5real) * error == error * b + 5real * error) by (nonlinear_arith);
}

/// The first channel that drives a joint is the one that counts.
proof fn lemma_first_channel(anim: Animation, joint: int, c: int, from: int)
    requires
        0 <= from <= c < anim.channels@.len(),
        anim.channels@[c].joint == joint,
        forall|k: int| 0 <= k < c ==> #[trigger] anim.channels@[k].joint != joint,
    ensures
        channel_of(anim.channels@, joint, from) == Some(anim.channels@[c]),
    decreases c - from,
{
    if from < c {
        assert(anim.channels@[from].joint != joint);
        lemma_first_channel(anim, joint, c, from + 1);
    }
}

/// Where a channel drives a joint, translation, rotation and scale of the joint
/// follow the keys of their tracks, all at the same time: the time wrapped into the
/// animation. What has no track is as at rest.
pub proof fn law_joint_follows_its_channel(
    g: Arith,
    l: spec_fn(Vec3, Vec3, Single) -> Vec3,
    s: spec_fn(Quat, Quat, Single) -> Quat,
    anim: Animation,
    t: Single,
    joint: int,
    rest: Placement,
    c: int,
    w: Single,
)
    requires
        0 <= c < anim.channels@.len(),
        anim.channels@[c].joint == joint,
        forall|k: int| 0 <= k < c ==> #[trigger] anim.channels@[k].joint != joint,
        single(ZERO).below(anim.duration) ==> w == g(Op::RemEuclid(t, anim.duration)),
        !single(ZERO).below(anim.duration) ==> w == single(ZERO),
        !w.nan(),
        anim.channels@[c].translation matches Some(track) ==> whole(track),
        anim.channels@[c].rotation matches Some(track) ==> whole(track),
        anim.channels@[c].scale matches Some(track) ==> whole(track),
    ensures
        pose_of(g, l, s, Some(&anim), t, joint, rest) matches Some(pose) && {
            &&& match anim.channels@[c].translation {
                Some(track) => follows(track, g, l, w, pose.translation),
                None => pose.translation == rest.translation,
            }
            &&& match anim.channels@[c].rotation {
                Some(track) => follows(track, g, s, w, pose.rotation),
                None => pose.rotation == rest.rotation,
            }
            &&& match anim.channels@[c].scale {
                Some(track) => follows(track, g, l, w, pose.scale),
                None => pose.scale == rest.scale,
            }
        },
{
    lemma_first_channel(anim, joint, c, 0);
    let ch = anim.channels@[c];
    if let Some(track) = ch.translation {
        law_track_follows_its_keys(track, g, l, w);
    }
    if let Some(track) = ch.rotation {
        law_track_follows_its_keys(track, g, s, w);
    }
    if let Some(track) = ch.scale {
        law_track_follows_its_keys(track, g, l, w);
    }
}

/// A joint that no channel drives is at rest.
pub proof fn law_undriven_joint_is_at_rest(
    g: Arith,
    l: spec_fn(Vec3, Vec3, Single) -> Vec3,
    s: spec_fn(Quat, Quat, Single) -> Quat,
    anim: Animation,
    t: Single,
    joint: int,
    rest: Placement,
)
    requires
        forall|k: int|
            0 <= k < anim.channels@.len() ==> #[trigger] anim.channels@[k].joint != joint,
    ensures
        pose_of(g, l, s, Some(&anim), t, joint, rest) == Some(rest),
{
    lemma_no_channel(anim, joint, 0);
}

proof fn lemma_no_channel(anim: Animation, joint: int, from: int)
    requires
        0 <= from <= anim.channels@.len(),
        forall|k: int|
            0 <= k < anim.channels@.len() ==> #[trigger] anim.channels@[k].joint != joint,
    ensures
        channel_of(anim.channels@, joint, from) is None,
    decreases anim.channels@.len() - from,
{
    if from < anim.channels@.len() {
        assert(anim.channels@[from].joint != joint);
        lemma_no_channel(anim, joint, from + 1);
    }
}

/// The local transforms are those of the poses.
proof fn lemma_locals<M>(
    skeleton: Skeleton<M>,
    g: Arith,
    l: spec_fn(Vec3, Vec3, Single) -> Vec3,
    s: spec_fn(Quat, Quat, Single) -> Quat,
    make: spec_fn(Placement) -> M,
    animation: Option<&Animation>,
    t: Single,
    poses: Seq<Placement>,
    n: nat,
)
    requires
        n <= skeleton.joints@.len(),
        poses.len() == skeleton.joints@.len(),
        forall|i: int|
            0 <= i < skeleton.joints@.len() ==> pose_of(
                g,
                l,
                s,
                animation,
                t,
                i,
                skeleton.joints@[i].bind,
            ) == Some(#[trigger] poses[i]),
    ensures
        skeleton.locals(g, l, s, make, animation, t, n) matches Some(local) && local.len() == n
            && forall|i: int| 0 <= i < n ==> #[trigger] local[i] == make(poses[i]),
    decreases n,
{
    if n > 0 {
        lemma_locals(skeleton, g, l, s, make, animation, t, poses, (n - 1) as nat);
        let last = poses[n - 1];
        assert(pose_of(g, l, s, animation, t, n - 1, skeleton.joints@[n - 1].bind) == Some(last));
    }
}

/// `skin` takes vertices through the space of their joint at rest, then through the
/// joints' own `poses` from the joint up to the armature; `global` holds
/// the transforms from each joint up.
pub open spec fn carried<M>(
    skeleton: Skeleton<M>,
    times: spec_fn(M, M) -> M,
    make: spec_fn(Placement) -> M,
    poses: Seq<Placement>,
    global: Seq<M>,
    skin: Seq<M>,
) -> bool {
    &&& global.len() == skeleton.joints@.len()
    &&& skin.len() == skeleton.joints@.len()
    &&& forall|i: int|
        0 <= i < skeleton.joints@.len() ==> {
            &&& skin[i] == times(global[i], skeleton.joints@[i].inverse_bind)
            &&& #[trigger] global[i] == match skeleton.joints@[i].parent {
                Some(p) => times(global[p as int], make(poses[i])),
                None => times(skeleton.armature, make(poses[i])),
            }
        }
}

/// Each joint carries its vertices from the bind pose to where its ancestors have
/// moved them: a skinning matrix takes a vertex into the space of the joint at rest
/// first, then through the pose of the joint, then through its parent, and a root's
/// through the armature. There are skinning matrices wherever each joint has a pose.
pub proof fn law_skin_goes_through_the_pose<M>(
    skeleton: Skeleton<M>,
    g: Arith,
    l: spec_fn(Vec3, Vec3, Single) -> Vec3,
    s: spec_fn(Quat, Quat, Single) -> Quat,
    make: spec_fn(Placement) -> M,
    times: spec_fn(M, M) -> M,
    identity: M,
    animation: Option<&Animation>,
    t: Single,
    poses: Seq<Placement>,
)
    requires
        poses.len() == skeleton.joints@.len(),
        forall|i: int|
            0 <= i < skeleton.joints@.len() ==> ((#[trigger] skeleton.joints@[i]).parent matches Some(
                p,
            ) ==> p < i),
        forall|i: int|
            0 <= i < skeleton.joints@.len() ==> pose_of(
                g,
                l,
                s,
                animation,
                t,
                i,
                skeleton.joints@[i].bind,
            ) == Some(#[trigger] poses[i]),
    ensures
        skeleton.skinned(g, l, s, make, times, identity, animation, t) matches Some(skin) && exists|
            global: Seq<M>,
        | #[trigger]
            carried(
                skeleton,
                times,
                make,
                poses,
                global,
                skin,
            ),
{
    let n = skeleton.joints@.len();
    lemma_locals(skeleton, g, l, s, make, animation, t, poses, n);
    let local = skeleton.locals(g, l, s, make, animation, t, n)->0;
    law_children_follow_parents(skeleton, times, local, identity, n);
    let global = skeleton.globals(times, local, identity, n)->0;
    let skin = skeleton.skinned(g, l, s, make, times, identity, animation, t)->0;
    assert forall|i: int| 0 <= i < n implies {
        &&& skin[i] == times(global[i], skeleton.joints@[i].inverse_bind)
        &&& #[trigger] global[i] == match skeleton.joints@[i].parent {
            Some(p) => times(global[p as int], make(poses[i])),
            None => times(skeleton.armature, make(poses[i])),
        }
    } by {
        assert(local[i] == make(poses[i]));
    }
    assert(carried(skeleton, times, make, poses, global, skin));
}

} // verus!
