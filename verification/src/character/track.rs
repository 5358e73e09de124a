//! Keyframe tracks.

use crate::arith::{computes, total, Arith, Op};
use crate::single::Single;
use vstd::prelude::*;

verus! {

/// Values at key times.
#[derive(Debug)]
pub struct Track<V> {
    pub times: Vec<Single>,
    pub values: Vec<V>,
    /// Between two keys the values are interpolated. Without it, the nearer key
    /// decides.
    pub linear: bool,
}

/// Where a time lies among key times.
#[derive(Clone, Copy, Debug, PartialEq, Eq, Structural)]
pub enum Spot {
    /// At or before the first key, or at or after the last: the key to hold.
    Held(usize),
    /// Between a key and the next.
    After(usize),
}

/// The key times are numbers and never go back.
pub open spec fn ordered(times: Seq<Single>) -> bool {
    forall|i: int, j: int| 0 <= i <= j < times.len() ==> times[i].at_most(times[j])
}

/// The time lies in a spot.
pub open spec fn lies(times: Seq<Single>, t: Single, spot: Spot) -> bool {
    match spot {
        Spot::Held(i) => {
            ||| i == 0 && t.at_most(times[0])
            ||| i == times.len() - 1 && !t.at_most(times[0]) && times[i as int].at_most(t)
        },
        Spot::After(i) => {
            &&& 0 <= i < times.len() - 1
            &&& !t.at_most(times[0])
            &&& !times.last().at_most(t)
            &&& times[i as int].at_most(t)
            &&& !times[i + 1].at_most(t)
        },
    }
}

/// How far a time has come from one key to the next.
pub open spec fn progress(g: Arith, t: Single, from: Single, to: Single) -> Single {
    g(Op::Div(g(Op::Sub(t, from)), g(Op::Sub(to, from))))
}

/// The later of two keys is nearer to a time.
pub open spec fn later_is_nearer(g: Arith, t: Single, from: Single, to: Single) -> bool {
    g(Op::Sub(to, t)).below(g(Op::Sub(t, from)))
}

/// The interpolation accepts every input.
pub open spec fn interpolates<V, I: Fn(V, V, Single) -> V>(interp: I) -> bool {
    forall|a: V, b: V, alpha: Single| #[trigger] call_requires(interp, (a, b, alpha))
}

/// Whatever `interp` returns is what `h` gives.
pub open spec fn blends<V, I: Fn(V, V, Single) -> V>(
    interp: I,
    h: spec_fn(V, V, Single) -> V,
) -> bool {
    forall|a: V, b: V, alpha: Single, r: V| #[trigger]
        call_ensures(interp, (a, b, alpha), r) ==> r == h(a, b, alpha)
}

impl<V> Track<V> {
    /// The value at a time in the given spot, if the track holds what it takes.
    pub open spec fn value_at(
        self,
        g: Arith,
        h: spec_fn(V, V, Single) -> V,
        t: Single,
        spot: Spot,
    ) -> Option<V> {
        match spot {
            Spot::Held(i) => self.value_of(i as int),
            Spot::After(i) => if !self.linear {
                self.value_of(self.nearer_key(g, t, i as int))
            } else if i + 1 < self.values@.len() {
                Some(
                    h(
                        self.values@[i as int],
                        self.values@[i + 1],
                        progress(g, t, self.times@[i as int], self.times@[i + 1]),
                    ),
                )
            } else {
                None
            },
        }
    }

    /// The nearer of key `i` and the next; the earlier where both are as near.
    pub open spec fn nearer_key(self, g: Arith, t: Single, i: int) -> int {
        if later_is_nearer(g, t, self.times@[i], self.times@[i + 1]) {
            i + 1
        } else {
            i
        }
    }

    /// The value of key `i`, if the track holds one.
    pub open spec fn value_of(self, i: int) -> Option<V> {
        if 0 <= i < self.values@.len() {
            Some(self.values@[i])
        } else {
            None
        }
    }

    /// The value of the track at a time. A time that is no number, on an ordered
    /// track, lies nowhere.
    pub open spec fn at(self, g: Arith, h: spec_fn(V, V, Single) -> V, t: Single) -> Option<V> {
        if exists|spot: Spot| lies(self.times@, t, spot) && self.times@.len() > 0 {
            self.value_at(
                g,
                h,
                t,
                choose|spot: Spot| lies(self.times@, t, spot) && self.times@.len() > 0,
            )
        } else {
            None
        }
    }
}

/// Check that key times are numbers and never go back.
pub fn is_ordered(times: &Vec<Single>) -> (r: bool)
    ensures
        r == ordered(times@),
{
    let mut i: usize = 0;
    while i < times.len()
        invariant
            i <= times@.len(),
            forall|a: int, b: int| 0 <= a <= b < i ==> times@[a].at_most(times@[b]),
        decreases times@.len() - i,
    {
        if times[i].is_nan() {
            assert(!times@[i as int].at_most(times@[i as int]));
            return false;
        }
        if i > 0 && !times[i - 1].le(times[i]) {
            assert(!times@[i - 1].at_most(times@[i as int]));
            return false;
        }
        proof {
            assert forall|a: int, b: int| 0 <= a <= b < i + 1 implies times@[a].at_most(
                times@[b],
            ) by {
                if b == i && a < i {
                    assert(times@[a].at_most(times@[i - 1]));
                }
            }
        }
        i = i + 1;
    }
    true
}

/// A time has one spot only.
pub proof fn lemma_one_spot(times: Seq<Single>, t: Single, a: Spot, b: Spot)
    requires
        ordered(times),
        times.len() > 0,
        lies(times, t, a),
        lies(times, t, b),
    ensures
        a == b,
{
    if let Spot::After(i) = a {
        if let Spot::After(j) = b {
            if i < j {
                assert(times[i + 1].at_most(times[j as int]));
            } else if j < i {
                assert(times[j + 1].at_most(times[i as int]));
            }
        }
    }
}

/// Find the spot of a time among key times. There is none without keys, or for
/// a time that is no number.
pub fn find_spot(times: &Vec<Single>, t: Single) -> (r: Option<Spot>)
    requires
        ordered(times@),
    ensures
        r matches Some(spot) ==> times@.len() > 0 && lies(times@, t, spot),
        r is None <==> times@.len() == 0 || t.nan(),
{
    if times.len() == 0 {
        return None;
    }
    assert(times@[0].at_most(times@[0]));
    if t.le(times[0]) {
        return Some(Spot::Held(0));
    }
    let last: usize = times.len() - 1;
    assert(times@[last as int].at_most(times@[last as int]));
    if t.ge(times[last]) {
        return Some(Spot::Held(last));
    }
    if t.is_nan() {
        return None;
    }
    let mut low: usize = 0;
    let mut high: usize = last;
    while high - low > 1
        invariant
            ordered(times@),
            low < high <= last,
            last == times@.len() - 1,
            times@[low as int].at_most(t),
            !times@[high as int].at_most(t),
        decreases high - low,
    {
        let middle: usize = low + (high - low) / 2;
        if times[middle].le(t) {
            low = middle;
        } else {
            high = middle;
        }
    }
    Some(Spot::After(low))
}

impl<V: Copy> Track<V> {
    fn key_value(&self, i: usize) -> (r: Option<V>)
        ensures
            r == self.value_of(i as int),
    {
        if i < self.values.len() {
            Some(self.values[i])
        } else {
            None
        }
    }

    /// The value at time `t`. There is none for a track without keys, for a
    /// time that is no number, and where a value is missing.
    pub fn sample<F: Fn(Op) -> Single, I: Fn(V, V, Single) -> V>(
        &self,
        f: &F,
        t: Single,
        interp: &I,
    ) -> (r: Option<V>)
        requires
            total(*f),
            interpolates::<V, I>(*interp),
            ordered(self.times@),
        ensures
            forall|g: Arith, h: spec_fn(V, V, Single) -> V|
                #![trigger computes(*f, g), blends(*interp, h)]
                computes(*f, g) && blends(*interp, h) ==> r == self.at(g, h, t),
    {
        match find_spot(&self.times, t) {
            None => {
                assert forall|spot: Spot| self.times@.len() > 0 implies !lies(self.times@, t, spot) by {
                }
                None
            },
            Some(spot) => {
                proof {
                    let chosen = choose|spot: Spot| lies(self.times@, t, spot) && self.times@.len() > 0;
                    lemma_one_spot(self.times@, t, spot, chosen);
                }
                match spot {
                    Spot::Held(i) => self.key_value(i),
                    Spot::After(i) => if !self.linear {
                        assert(i + 1 < self.times.len());
                        let passed: Single = f(Op::Sub(t, self.times[i]));
                        let ahead: Single = f(Op::Sub(self.times[i + 1], t));
                        if ahead.lt(passed) {
                            self.key_value(i + 1)
                        } else {
                            self.key_value(i)
                        }
                    } else if i < self.values.len() && i + 1 < self.values.len() {
                        let t0: Single = self.times[i];
                        let t1: Single = self.times[i + 1];
                        let passed: Single = f(Op::Sub(t, t0));
                        let span: Single = f(Op::Sub(t1, t0));
                        let alpha: Single = f(Op::Div(passed, span));
                        Some(interp(self.values[i], self.values[i + 1], alpha))
                    } else {
                        None
                    },
                }
            },
        }
    }
}

} // verus!
