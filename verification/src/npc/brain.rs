//! The timeline of a character: which role it plays next, for how long, and
//! in which direction it walks.

use crate::arith::{
    computes, total, vec_dot, Arith, Op, Vec3, HALF, ZERO,
};
use crate::npc::rng::Rng;
use crate::single::{single, Single};
use vstd::prelude::*;

verus! {

/// Bounds on the length of a walk, 1.5 and 4 seconds.
pub const STEP_MIN: u32 = 0x3fc0_0000;

pub const STEP_MAX: u32 = 0x4080_0000;

/// How often a walk keeps roughly to the direction of the last one: 0.7.
pub const DIRECTION_DRIFT_PROB: u32 = 0x3f33_3333;

/// How far it may turn then, 0.524 radians either way.
pub const DIRECTION_DRIFT_RAD: u32 = 0x3f06_24dd;

/// How often the next step is a walk, 0.86, and how often a fall, 0.07; the
/// rest are falls to the side.
pub const P_WALK: u32 = 0x3f5c_28f6;

pub const P_FALL: u32 = 0x3d8f_5c29;

/// A squared length of at most this, 1e-4, counts as no direction.
pub const STILL_EPSILON: u32 = 0x38d1_b717;

/// A full turn in radians.
pub const TAU: u32 = 0x40c9_0fdb;

/// The shortest time that a clip is played, 0.3 seconds.
pub const MIN_CLIP: u32 = 0x3e99_999a;

/// What a character does during one step of its timeline.
#[derive(Clone, Copy, Debug, PartialEq, Eq, Structural)]
pub enum Role {
    Idle,
    Walk,
    Fall,
    FallSide,
}

/// One step of a timeline.
#[derive(Clone, Copy, Debug, PartialEq, Eq, Structural)]
pub struct TimelineStep {
    pub role: Role,
    pub duration: Single,
    /// Horizontal direction of a walk; zero for the other roles.
    pub direction: Vec3,
}

/// The animation of each role, as far as the asset has one.
#[derive(Clone, Copy, Debug, PartialEq, Eq, Structural)]
pub struct AnimTable {
    pub idle: Option<usize>,
    pub walk: Option<usize>,
    pub fall: Option<usize>,
    pub fall_side: Option<usize>,
}

/// The state of a character's timeline.
#[derive(Clone, Copy, Debug, PartialEq, Eq, Structural)]
pub struct Brain {
    pub rng: Rng,
    pub step: TimelineStep,
    /// Time spent in the present step.
    pub elapsed: Single,
    /// Direction of the last walk.
    pub last_direction: Vec3,
    /// Where the character was one tick ago.
    pub last_pos: Vec3,
    /// Time spent wanting to move without moving.
    pub stuck_secs: Single,
}

pub open spec fn moves(g: Arith, direction: Vec3) -> bool {
    single(STILL_EPSILON).below(vec_dot(g, direction, direction))
}

/// The unit vector with the given azimuth.
pub open spec fn heading(g: Arith, angle: Single) -> Vec3 {
    Vec3 { x: g(Op::Cos(angle)), y: single(ZERO), z: g(Op::Sin(angle)) }
}

/// A walking direction and the generator after the draws that it took: near
/// the present one most of the time, if there is one, else any.
pub open spec fn next_direction(g: Arith, rng: Rng, current: Vec3) -> (Vec3, Rng) {
    if moves(g, current) {
        if rng.fraction(g).below(single(DIRECTION_DRIFT_PROB)) {
            let turn = rng.next().between(
                g,
                single(DIRECTION_DRIFT_RAD).negated(),
                single(DIRECTION_DRIFT_RAD),
            );
            let angle = g(Op::Add(g(Op::Atan2(current.z, current.x)), turn));
            (heading(g, angle), rng.next().next())
        } else {
            let angle = g(Op::Mul(rng.next().fraction(g), single(TAU)));
            (heading(g, angle), rng.next().next())
        }
    } else {
        (heading(g, g(Op::Mul(rng.fraction(g), single(TAU)))), rng.next())
    }
}

/// How long a clip is played: its length, but not less than [`MIN_CLIP`];
/// half a second where the asset lacks it.
pub open spec fn clip_length(durations: Seq<Single>, index: Option<usize>) -> Single {
    match index {
        Some(i) => if i < durations.len() {
            if single(MIN_CLIP).below(durations[i as int]) {
                durations[i as int]
            } else {
                single(MIN_CLIP)
            }
        } else {
            single(HALF)
        },
        None => single(HALF),
    }
}

pub open spec fn standing(role: Role, duration: Single) -> TimelineStep {
    let zero = single(ZERO);
    TimelineStep { role, duration, direction: Vec3 { x: zero, y: zero, z: zero } }
}

/// The next step of a timeline, and the generator after the draws that it took.
pub open spec fn next_step(
    g: Arith,
    rng: Rng,
    last_direction: Vec3,
    table: AnimTable,
    durations: Seq<Single>,
) -> (TimelineStep, Rng) {
    let roll = rng.fraction(g);
    if roll.below(single(P_WALK)) {
        let duration = rng.next().between(g, single(STEP_MIN), single(STEP_MAX));
        let (direction, after) = next_direction(g, rng.next().next(), last_direction);
        (TimelineStep { role: Role::Walk, duration, direction }, after)
    } else if roll.below(g(Op::Add(single(P_WALK), single(P_FALL)))) {
        (standing(Role::Fall, clip_length(durations, table.fall)), rng.next())
    } else {
        (standing(Role::FallSide, clip_length(durations, table.fall_side)), rng.next())
    }
}

impl AnimTable {
    pub open spec fn clip_of(self, role: Role) -> Option<usize> {
        match role {
            Role::Idle => self.idle,
            Role::Walk => self.walk,
            Role::Fall => self.fall,
            Role::FallSide => self.fall_side,
        }
    }

    /// The animation of a role.
    pub fn for_role(&self, role: Role) -> (r: Option<usize>)
        ensures
            r == self.clip_of(role),
    {
        match role {
            Role::Idle => self.idle,
            Role::Walk => self.walk,
            Role::Fall => self.fall,
            Role::FallSide => self.fall_side,
        }
    }
}

impl TimelineStep {
    /// Name of the animation that belongs to the step; none stands for the
    /// bind pose.
    pub fn anim_name(&self) -> (r: Option<&'static str>)
        ensures
            self.role is Idle <==> r is None,
            self.role is Walk ==> (r matches Some(name) && name@ == "Walk"@),
            self.role is Fall ==> (r matches Some(name) && name@ == "Fall"@),
            self.role is FallSide ==> (r matches Some(name) && name@ == "fall_side"@),
    {
        match self.role {
            Role::Idle => None,
            Role::Walk => Some("Walk"),
            Role::Fall => Some("Fall"),
            Role::FallSide => Some("fall_side"),
        }
    }
}

fn heading_of<F: Fn(Op) -> Single>(f: &F, angle: Single) -> (r: Vec3)
    requires
        total(*f),
    ensures
        forall|g: Arith| #[trigger] computes(*f, g) ==> r == heading(g, angle),
{
    Vec3 { x: f(Op::Cos(angle)), y: single(ZERO), z: f(Op::Sin(angle)) }
}

/// Pick a walking direction.
pub fn random_direction<F: Fn(Op) -> Single>(f: &F, rng: &mut Rng, current: Vec3) -> (r: Vec3)
    requires
        total(*f),
    ensures
        forall|g: Arith| #[trigger]
            computes(*f, g) ==> (r, *final(rng)) == next_direction(g, *old(rng), current),
{
    let squared: Single = current.dot(f, current);
    if squared.gt(single(STILL_EPSILON)) {
        let roll: Single = rng.next_f32(f);
        if roll.lt(single(DIRECTION_DRIFT_PROB)) {
            let present: Single = f(Op::Atan2(current.z, current.x));
            let turn: Single = rng.range_f32(
                f,
                single(DIRECTION_DRIFT_RAD).neg(),
                single(DIRECTION_DRIFT_RAD),
            );
            let angle: Single = f(Op::Add(present, turn));
            return heading_of(f, angle);
        }
    }
    let fraction: Single = rng.next_f32(f);
    let angle: Single = f(Op::Mul(fraction, single(TAU)));
    heading_of(f, angle)
}

/// How long the clip with the given index is played.
pub fn clip_duration(durations: &Vec<Single>, index: Option<usize>) -> (r: Single)
    ensures
        r == clip_length(durations@, index),
{
    match index {
        Some(i) => {
            if i < durations.len() {
                if durations[i].gt(single(MIN_CLIP)) {
                    durations[i]
                } else {
                    single(MIN_CLIP)
                }
            } else {
                single(HALF)
            }
        },
        None => single(HALF),
    }
}

/// Roll the next step of a timeline.
pub fn next_brain_step<F: Fn(Op) -> Single>(
    f: &F,
    brain: &mut Brain,
    table: &AnimTable,
    durations: &Vec<Single>,
) -> (r: TimelineStep)
    requires
        total(*f),
    ensures
        *final(brain) == (Brain { rng: final(brain).rng, ..*old(brain) }),
        forall|g: Arith| #[trigger]
            computes(*f, g) ==> (r, final(brain).rng) == next_step(
                g,
                old(brain).rng,
                old(brain).last_direction,
                *table,
                durations@,
            ),
{
    let mut rng: Rng = brain.rng;
    let roll: Single = rng.next_f32(f);
    let fall_below: Single = f(Op::Add(single(P_WALK), single(P_FALL)));
    let step: TimelineStep = if roll.lt(single(P_WALK)) {
        let duration: Single = rng.range_f32(f, single(STEP_MIN), single(STEP_MAX));
        let direction: Vec3 = random_direction(f, &mut rng, brain.last_direction);
        TimelineStep { role: Role::Walk, duration, direction }
    } else if roll.lt(fall_below) {
        TimelineStep {
            role: Role::Fall,
            duration: clip_duration(durations, table.fall),
            direction: Vec3::zero(),
        }
    } else {
        TimelineStep {
            role: Role::FallSide,
            duration: clip_duration(durations, table.fall_side),
            direction: Vec3::zero(),
        }
    };
    brain.rng = rng;
    step
}

} // verus!
