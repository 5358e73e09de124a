//! Skeletons and their animation.
//!
//! Matrices stay with the caller: `M` is whatever the caller multiplies, and
//! the functions that build and multiply matrices are handed in.

use crate::arith::{computes, total, Arith, Op, Vec3, ZERO};
use crate::character::track::{blends, interpolates, is_ordered, ordered, Track};
use crate::single::{single, Single};
use vstd::prelude::*;

verus! {

/// A rotation as a quaternion.
#[derive(Clone, Copy, Debug, PartialEq, Eq, Structural)]
pub struct Quat {
    pub x: Single,
    pub y: Single,
    pub z: Single,
    pub w: Single,
}

/// Translation, rotation and scale of a joint.
#[derive(Clone, Copy, Debug, PartialEq, Eq, Structural)]
pub struct Placement {
    pub translation: Vec3,
    pub rotation: Quat,
    pub scale: Vec3,
}

#[derive(Debug)]
pub struct Joint<M> {
    pub name: String,
    /// Index of the parent joint; none for a root.
    pub parent: Option<u16>,
    /// Placement at rest, which holds for whatever an animation leaves alone.
    pub bind: Placement,
    /// Takes a vertex into the space of the joint at rest.
    pub inverse_bind: M,
}

#[derive(Debug)]
pub struct Skeleton<M> {
    pub joints: Vec<Joint<M>>,
    /// Transform of what lies above the root joints.
    pub armature: M,
}

/// The tracks of one joint; what has no track keeps its place at rest.
#[derive(Debug)]
pub struct JointChannel {
    pub joint: u16,
    pub translation: Option<Track<Vec3>>,
    pub rotation: Option<Track<Quat>>,
    pub scale: Option<Track<Vec3>>,
}

#[derive(Debug)]
pub struct Animation {
    pub name: String,
    /// Length in seconds.
    pub duration: Single,
    pub channels: Vec<JointChannel>,
}

/// The key times of a channel are in order.
pub open spec fn channel_ordered(ch: JointChannel) -> bool {
    &&& ch.translation matches Some(track) ==> ordered(track.times@)
    &&& ch.rotation matches Some(track) ==> ordered(track.times@)
    &&& ch.scale matches Some(track) ==> ordered(track.times@)
}

impl Animation {
    /// The key times of all channels are in order.
    pub open spec fn wf(self) -> bool {
        forall|i: int| 0 <= i < self.channels@.len() ==> channel_ordered(#[trigger] self.channels@[i])
    }

    /// Check that the key times of all channels are in order.
    pub fn is_ordered(&self) -> (r: bool)
        ensures
            r == self.wf(),
    {
        let mut i: usize = 0;
        while i < self.channels.len()
            invariant
                i <= self.channels@.len(),
                forall|k: int| 0 <= k < i ==> channel_ordered(#[trigger] self.channels@[k]),
            decreases self.channels@.len() - i,
        {
            if !track_ordered(&self.channels[i].translation) || !track_ordered(
                &self.channels[i].rotation,
            ) || !track_ordered(&self.channels[i].scale) {
                assert(!channel_ordered(self.channels@[i as int]));
                return false;
            }
            i = i + 1;
        }
        true
    }

    /// Time within the animation, which repeats.
    pub open spec fn wrapped(self, g: Arith, t: Single) -> Single {
        if single(ZERO).below(self.duration) {
            g(Op::RemEuclid(t, self.duration))
        } else {
            single(ZERO)
        }
    }
}

fn track_ordered<V>(track: &Option<Track<V>>) -> (r: bool)
    ensures
        r == (*track matches Some(track) ==> ordered(track.times@)),
{
    match track {
        Some(track) => is_ordered(&track.times),
        None => true,
    }
}

/// The first channel, from channel `from` on, that drives a joint.
pub open spec fn channel_of(channels: Seq<JointChannel>, joint: int, from: int) -> Option<
    JointChannel,
>
    decreases channels.len() - from,
{
    if from >= channels.len() || from < 0 {
        None
    } else if channels[from].joint == joint {
        Some(channels[from])
    } else {
        channel_of(channels, joint, from + 1)
    }
}

/// The value of a track, or the value at rest where there is no track.
pub open spec fn driven<V>(
    g: Arith,
    h: spec_fn(V, V, Single) -> V,
    track: Option<Track<V>>,
    t: Single,
    rest: V,
) -> Option<V> {
    match track {
        Some(track) => track.at(g, h, t),
        None => Some(rest),
    }
}

/// The placement of a joint at a time, given its channel.
pub open spec fn placed(
    g: Arith,
    lerp: spec_fn(Vec3, Vec3, Single) -> Vec3,
    slerp: spec_fn(Quat, Quat, Single) -> Quat,
    ch: JointChannel,
    t: Single,
    rest: Placement,
) -> Option<Placement> {
    match (
        driven(g, lerp, ch.translation, t, rest.translation),
        driven(g, slerp, ch.rotation, t, rest.rotation),
        driven(g, lerp, ch.scale, t, rest.scale),
    ) {
        (Some(translation), Some(rotation), Some(scale)) => Some(
            Placement { translation, rotation, scale },
        ),
        _ => None,
    }
}

/// The placement of joint `i` in an animation, or at rest.
pub open spec fn pose_of(
    g: Arith,
    lerp: spec_fn(Vec3, Vec3, Single) -> Vec3,
    slerp: spec_fn(Quat, Quat, Single) -> Quat,
    animation: Option<&Animation>,
    t: Single,
    i: int,
    rest: Placement,
) -> Option<Placement> {
    match animation {
        None => Some(rest),
        Some(anim) => match channel_of(anim.channels@, i, 0) {
            None => Some(rest),
            Some(ch) => placed(g, lerp, slerp, ch, anim.wrapped(g, t), rest),
        },
    }
}

fn sample_or_rest<V: Copy, F: Fn(Op) -> Single, I: Fn(V, V, Single) -> V>(
    f: &F,
    interp: &I,
    track: &Option<Track<V>>,
    t: Single,
    rest: V,
) -> (r: Option<V>)
    requires
        total(*f),
        interpolates::<V, I>(*interp),
        *track matches Some(track) ==> ordered(track.times@),
    ensures
        forall|g: Arith, h: spec_fn(V, V, Single) -> V|
            #![trigger computes(*f, g), blends(*interp, h)]
            computes(*f, g) && blends(*interp, h) ==> r == driven(g, h, *track, t, rest),
{
    match track {
        Some(track) => track.sample(f, t, interp),
        None => Some(rest),
    }
}

/// The placement of a joint at a time, given its channel.
pub fn apply_channel<
    F: Fn(Op) -> Single,
    L: Fn(Vec3, Vec3, Single) -> Vec3,
    S: Fn(Quat, Quat, Single) -> Quat,
>(f: &F, lerp: &L, slerp: &S, ch: &JointChannel, t: Single, rest: Placement) -> (r: Option<
    Placement,
>)
    requires
        total(*f),
        interpolates::<Vec3, L>(*lerp),
        interpolates::<Quat, S>(*slerp),
        channel_ordered(*ch),
    ensures
        forall|
            g: Arith,
            l: spec_fn(Vec3, Vec3, Single) -> Vec3,
            s: spec_fn(Quat, Quat, Single) -> Quat,
        |
            #![trigger computes(*f, g), blends(*lerp, l), blends(*slerp, s)]
            computes(*f, g) && blends(*lerp, l) && blends(*slerp, s) ==> r == placed(
                g,
                l,
                s,
                *ch,
                t,
                rest,
            ),
{
    let translation: Option<Vec3> = sample_or_rest(f, lerp, &ch.translation, t, rest.translation);
    let rotation: Option<Quat> = sample_or_rest(f, slerp, &ch.rotation, t, rest.rotation);
    let scale: Option<Vec3> = sample_or_rest(f, lerp, &ch.scale, t, rest.scale);
    match (translation, rotation, scale) {
        (Some(translation), Some(rotation), Some(scale)) => Some(
            Placement { translation, rotation, scale },
        ),
        _ => None,
    }
}

fn find_channel(channels: &Vec<JointChannel>, joint: usize) -> (r: Option<usize>)
    ensures
        match r {
            Some(i) => i < channels@.len() && channel_of(channels@, joint as int, 0) == Some(
                channels@[i as int],
            ),
            None => channel_of(channels@, joint as int, 0) is None,
        },
{
    let mut i: usize = 0;
    while i < channels.len()
        invariant
            i <= channels@.len(),
            channel_of(channels@, joint as int, 0) == channel_of(
                channels@,
                joint as int,
                i as int,
            ),
        decreases channels@.len() - i,
    {
        if channels[i].joint as usize == joint {
            return Some(i);
        }
        i = i + 1;
    }
    None
}

/// The function that builds matrices accepts every placement.
pub open spec fn builds<M, B: Fn(Placement) -> M>(build: B) -> bool {
    forall|p: Placement| #[trigger] call_requires(build, (p,))
}

/// Whatever `build` returns is what `h` gives.
pub open spec fn makes<M, B: Fn(Placement) -> M>(build: B, h: spec_fn(Placement) -> M) -> bool {
    forall|p: Placement, r: M| #[trigger] call_ensures(build, (p,), r) ==> r == h(p)
}

/// The function that multiplies matrices accepts every pair.
pub open spec fn multiplies<M, P: Fn(M, M) -> M>(product: P) -> bool {
    forall|a: M, b: M| #[trigger] call_requires(product, (a, b))
}

/// Whatever `product` returns is what `h` gives.
pub open spec fn products<M, P: Fn(M, M) -> M>(product: P, h: spec_fn(M, M) -> M) -> bool {
    forall|a: M, b: M, r: M| #[trigger] call_ensures(product, (a, b), r) ==> r == h(a, b)
}

impl<M> Skeleton<M> {
    /// The global transforms of the first `n` joints. A parent that comes later
    /// than its child counts as the identity; there are no transforms where a
    /// parent does not exist.
    pub open spec fn globals(
        self,
        times: spec_fn(M, M) -> M,
        local: Seq<M>,
        identity: M,
        n: nat,
    ) -> Option<Seq<M>>
        decreases n,
    {
        if n == 0 {
            Some(Seq::empty())
        } else {
            let i = n - 1;
            match self.globals(times, local, identity, (n - 1) as nat) {
                None => None,
                Some(before) => match self.joints@[i].parent {
                    None => Some(before.push(times(self.armature, local[i]))),
                    Some(p) => if p < before.len() {
                        Some(before.push(times(before[p as int], local[i])))
                    } else if p < self.joints@.len() {
                        Some(before.push(times(identity, local[i])))
                    } else {
                        None
                    },
                },
            }
        }
    }

    /// The local transforms of the first `n` joints.
    pub open spec fn locals(
        self,
        g: Arith,
        lerp: spec_fn(Vec3, Vec3, Single) -> Vec3,
        slerp: spec_fn(Quat, Quat, Single) -> Quat,
        make: spec_fn(Placement) -> M,
        animation: Option<&Animation>,
        t: Single,
        n: nat,
    ) -> Option<Seq<M>>
        decreases n,
    {
        if n == 0 {
            Some(Seq::empty())
        } else {
            let i = n - 1;
            match (
                self.locals(g, lerp, slerp, make, animation, t, (n - 1) as nat),
                pose_of(g, lerp, slerp, animation, t, i, self.joints@[i].bind),
            ) {
                (Some(before), Some(pose)) => Some(before.push(make(pose))),
                _ => None,
            }
        }
    }

    /// The skinning matrices: global transform times inverse bind.
    pub open spec fn skinned(
        self,
        g: Arith,
        lerp: spec_fn(Vec3, Vec3, Single) -> Vec3,
        slerp: spec_fn(Quat, Quat, Single) -> Quat,
        make: spec_fn(Placement) -> M,
        times: spec_fn(M, M) -> M,
        identity: M,
        animation: Option<&Animation>,
        t: Single,
    ) -> Option<Seq<M>> {
        let n = self.joints@.len();
        match self.locals(g, lerp, slerp, make, animation, t, n) {
            None => None,
            Some(local) => match self.globals(times, local, identity, n) {
                None => None,
                Some(global) => Some(
                    Seq::new(n, |i: int| times(global[i], self.joints@[i].inverse_bind)),
                ),
            },
        }
    }
}

impl<M: Copy> Skeleton<M> {
    fn local_transforms<
        F: Fn(Op) -> Single,
        L: Fn(Vec3, Vec3, Single) -> Vec3,
        S: Fn(Quat, Quat, Single) -> Quat,
        B: Fn(Placement) -> M,
    >(
        &self,
        f: &F,
        lerp: &L,
        slerp: &S,
        build: &B,
        animation: Option<&Animation>,
        t: Single,
    ) -> (r: Option<Vec<M>>)
        requires
            total(*f),
            interpolates::<Vec3, L>(*lerp),
            interpolates::<Quat, S>(*slerp),
            builds::<M, B>(*build),
            animation matches Some(anim) ==> anim.wf(),
        ensures
            r matches Some(local) ==> local@.len() == self.joints@.len(),
            forall|
                g: Arith,
                l: spec_fn(Vec3, Vec3, Single) -> Vec3,
                s: spec_fn(Quat, Quat, Single) -> Quat,
                m: spec_fn(Placement) -> M,
            |
                #![trigger computes(*f, g), blends(*lerp, l), blends(*slerp, s), makes(*build, m)]
                computes(*f, g) && blends(*lerp, l) && blends(*slerp, s) && makes(*build, m) ==> {
                    let all = self.locals(g, l, s, m, animation, t, self.joints@.len());
                    match r {
                        Some(local) => all == Some(local@),
                        None => all is None,
                    }
                },
    {
        let n: usize = self.joints.len();
        let mut local: Vec<M> = Vec::new();
        let mut i: usize = 0;
        while i < n
            invariant
                total(*f),
                interpolates::<Vec3, L>(*lerp),
                interpolates::<Quat, S>(*slerp),
                builds::<M, B>(*build),
                animation matches Some(anim) ==> anim.wf(),
                n == self.joints@.len(),
                i <= n,
                local@.len() == i,
                forall|
                    g: Arith,
                    l: spec_fn(Vec3, Vec3, Single) -> Vec3,
                    s: spec_fn(Quat, Quat, Single) -> Quat,
                    m: spec_fn(Placement) -> M,
                |
                    #![trigger computes(*f, g), blends(*lerp, l), blends(*slerp, s), makes(*build, m)]
                    computes(*f, g) && blends(*lerp, l) && blends(*slerp, s) && makes(*build, m)
                        ==> self.locals(g, l, s, m, animation, t, i as nat) == Some(local@),
            decreases n - i,
        {
            let rest: Placement = self.joints[i].bind;
            let pose: Option<Placement> = match animation {
                None => Some(rest),
                Some(anim) => {
                    let wrapped: Single = if anim.duration.gt(single(ZERO)) {
                        f(Op::RemEuclid(t, anim.duration))
                    } else {
                        single(ZERO)
                    };
                    match find_channel(&anim.channels, i) {
                        None => Some(rest),
                        Some(c) => apply_channel(
                            f,
                            lerp,
                            slerp,
                            &anim.channels[c],
                            wrapped,
                            rest,
                        ),
                    }
                },
            };
            assert(forall|
                g: Arith,
                l: spec_fn(Vec3, Vec3, Single) -> Vec3,
                s: spec_fn(Quat, Quat, Single) -> Quat,
            |
                #![trigger computes(*f, g), blends(*lerp, l), blends(*slerp, s)]
                computes(*f, g) && blends(*lerp, l) && blends(*slerp, s) ==> pose == pose_of(
                    g,
                    l,
                    s,
                    animation,
                    t,
                    i as int,
                    rest,
                ));
            match pose {
                None => {
                    proof {
                        assert forall|
                            g: Arith,
                            l: spec_fn(Vec3, Vec3, Single) -> Vec3,
                            s: spec_fn(Quat, Quat, Single) -> Quat,
                            m: spec_fn(Placement) -> M,
                        |
                            #![trigger computes(*f, g), blends(*lerp, l), blends(*slerp, s), makes(*build, m)]
                            computes(*f, g) && blends(*lerp, l) && blends(*slerp, s) && makes(
                                *build,
                                m,
                            ) implies self.locals(g, l, s, m, animation, t, n as nat) is None by {
                            assert(self.locals(g, l, s, m, animation, t, (i + 1) as nat) is None);
                            self.lemma_locals_stay_missing(
                                g,
                                l,
                                s,
                                m,
                                animation,
                                t,
                                (i + 1) as nat,
                                n as nat,
                            );
                        }
                    }
                    return None;
                },
                Some(pose) => {
                    local.push(build(pose));
                },
            }
            i = i + 1;
        }
        Some(local)
    }

    proof fn lemma_locals_stay_missing(
        self,
        g: Arith,
        lerp: spec_fn(Vec3, Vec3, Single) -> Vec3,
        slerp: spec_fn(Quat, Quat, Single) -> Quat,
        make: spec_fn(Placement) -> M,
        animation: Option<&Animation>,
        t: Single,
        k: nat,
        n: nat,
    )
        requires
            k <= n,
            self.locals(g, lerp, slerp, make, animation, t, k) is None,
        ensures
            self.locals(g, lerp, slerp, make, animation, t, n) is None,
        decreases n,
    {
        if k < n {
            self.lemma_locals_stay_missing(
                g,
                lerp,
                slerp,
                make,
                animation,
                t,
                k,
                (n - 1) as nat,
            );
        }
    }

    fn global_transforms<P: Fn(M, M) -> M>(&self, product: &P, local: &Vec<M>, identity: M) -> (r:
        Option<Vec<M>>)
        requires
            multiplies::<M, P>(*product),
            local@.len() == self.joints@.len(),
        ensures
            r matches Some(global) ==> global@.len() == self.joints@.len(),
            forall|h: spec_fn(M, M) -> M| #[trigger]
                products(*product, h) ==> {
                    let all = self.globals(h, local@, identity, self.joints@.len());
                    match r {
                        Some(global) => all == Some(global@),
                        None => all is None,
                    }
                },
    {
        let n: usize = self.joints.len();
        let mut global: Vec<M> = Vec::new();
        let mut i: usize = 0;
        while i < n
            invariant
                multiplies::<M, P>(*product),
                n == self.joints@.len(),
                local@.len() == n,
                i <= n,
                global@.len() == i,
                forall|h: spec_fn(M, M) -> M| #[trigger]
                    products(*product, h) ==> self.globals(h, local@, identity, i as nat) == Some(
                        global@,
                    ),
            decreases n - i,
        {
            let above: M = match self.joints[i].parent {
                None => self.armature,
                Some(p) => {
                    if (p as usize) < i {
                        global[p as usize]
                    } else if (p as usize) < n {
                        identity
                    } else {
                        proof {
                            assert forall|h: spec_fn(M, M) -> M| #[trigger]
                                products(*product, h) implies self.globals(
                                h,
                                local@,
                                identity,
                                n as nat,
                            ) is None by {
                                assert(self.globals(h, local@, identity, (i + 1) as nat) is None);
                                self.lemma_globals_stay_missing(
                                    h,
                                    local@,
                                    identity,
                                    (i + 1) as nat,
                                    n as nat,
                                );
                            }
                        }
                        return None;
                    }
                },
            };
            global.push(product(above, local[i]));
            i = i + 1;
        }
        Some(global)
    }

    proof fn lemma_globals_stay_missing(
        self,
        h: spec_fn(M, M) -> M,
        local: Seq<M>,
        identity: M,
        k: nat,
        n: nat,
    )
        requires
            k <= n,
            self.globals(h, local, identity, k) is None,
        ensures
            self.globals(h, local, identity, n) is None,
        decreases n,
    {
        if k < n {
            self.lemma_globals_stay_missing(h, local, identity, k, (n - 1) as nat);
        }
    }

    /// One skinning matrix for each joint: its animated global transform times
    /// its inverse bind. The time wraps round at the end of the animation. There
    /// are no matrices where a track lacks keys or values, or a parent does not
    /// exist.
    pub fn evaluate<
        F: Fn(Op) -> Single,
        L: Fn(Vec3, Vec3, Single) -> Vec3,
        S: Fn(Quat, Quat, Single) -> Quat,
        B: Fn(Placement) -> M,
        P: Fn(M, M) -> M,
    >(
        &self,
        f: &F,
        lerp: &L,
        slerp: &S,
        build: &B,
        product: &P,
        identity: M,
        animation: Option<&Animation>,
        t: Single,
    ) -> (r: Option<Vec<M>>)
        requires
            total(*f),
            interpolates::<Vec3, L>(*lerp),
            interpolates::<Quat, S>(*slerp),
            builds::<M, B>(*build),
            multiplies::<M, P>(*product),
            animation matches Some(anim) ==> anim.wf(),
        ensures
            r matches Some(skin) ==> skin@.len() == self.joints@.len(),
            forall|
                g: Arith,
                l: spec_fn(Vec3, Vec3, Single) -> Vec3,
                s: spec_fn(Quat, Quat, Single) -> Quat,
                m: spec_fn(Placement) -> M,
                h: spec_fn(M, M) -> M,
            |
                #![trigger computes(*f, g), blends(*lerp, l), blends(*slerp, s), makes(*build, m), products(*product, h)]
                computes(*f, g) && blends(*lerp, l) && blends(*slerp, s) && makes(*build, m)
                    && products(*product, h) ==> {
                    let all = self.skinned(g, l, s, m, h, identity, animation, t);
                    match r {
                        Some(skin) => all == Some(skin@),
                        None => all is None,
                    }
                },
    {
        let local: Vec<M> = match self.local_transforms(f, lerp, slerp, build, animation, t) {
            None => {
                return None;
            },
            Some(local) => local,
        };
        let global: Vec<M> = match self.global_transforms(product, &local, identity) {
            None => {
                return None;
            },
            Some(global) => global,
        };
        let n: usize = self.joints.len();
        let mut skin: Vec<M> = Vec::new();
        let mut i: usize = 0;
        while i < n
            invariant
                multiplies::<M, P>(*product),
                n == self.joints@.len(),
                global@.len() == n,
                i <= n,
                skin@.len() == i,
                forall|h: spec_fn(M, M) -> M, k: int|
                    #![trigger products(*product, h), skin@[k]]
                    products(*product, h) && 0 <= k < i ==> skin@[k] == h(
                        global@[k],
                        self.joints@[k].inverse_bind,
                    ),
            decreases n - i,
        {
            skin.push(product(global[i], self.joints[i].inverse_bind));
            i = i + 1;
        }
        proof {
            assert forall|h: spec_fn(M, M) -> M| #[trigger] products(*product, h) implies skin@
                == Seq::new(
                n as nat,
                |k: int| h(global@[k], self.joints@[k].inverse_bind),
            ) by {
                assert(skin@ =~= Seq::new(
                    n as nat,
                    |k: int| h(global@[k], self.joints@[k].inverse_bind),
                ));
            }
        }
        Some(skin)
    }
}

} // verus!
