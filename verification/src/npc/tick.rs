//! Advancing characters in time.

use crate::arith::{
    between, computes, hold_between, total, vec_difference, vec_divided, vec_dot, vec_length,
    vec_normalized, vec_scaled, vec_sum, Arith, Op, Vec3, ONE, ZERO,
};
use crate::npc::brain::{moves, next_brain_step, next_step, AnimTable, Brain, Role, STILL_EPSILON};
use crate::single::{single, Single};
use vstd::prelude::*;

verus! {

/// Walking speed, 1.4 metres per second.
pub const WALK_SPEED: u32 = 0x3fb3_3333;

/// Characters closer than this, 2.5 metres, push each other away.
pub const SEPARATION_RADIUS: u32 = 0x4020_0000;

/// Strength of that push for characters in the same place, 1.5.
pub const SEPARATION_STRENGTH: u32 = 0x3fc0_0000;

/// A squared push of at most this, 1e-6, is ignored.
pub const PUSH_EPSILON: u32 = 0x3586_37bd;

/// A character that wants to move but is slower than 0.5 metres per second
/// for 0.8 seconds is stuck.
pub const STUCK_MIN_SPEED: u32 = 0x3f00_0000;

pub const STUCK_TIMEOUT: u32 = 0x3f4c_cccd;

/// Half a turn in degrees.
pub const HALF_TURN: u32 = 0x4334_0000;

/// The spawn box of a character is upside down.
#[derive(Clone, Copy, Debug, PartialEq, Eq, Structural)]
pub struct BadSpawnBox;

/// The moving state of a character.
#[derive(Clone, Copy, Debug, PartialEq, Eq, Structural)]
pub struct NpcRuntime {
    pub scene_index: usize,
    /// Animation of the present step; none stands for the bind pose.
    pub current_anim_index: Option<usize>,
    /// Time since the present step began, at which its animation is sampled.
    pub step_anim_t: Single,
    pub pos: Vec3,
    pub yaw_deg: Single,
    /// None for a character that stands still.
    pub brain: Option<Brain>,
    pub spawn_min: Vec3,
    pub spawn_max: Vec3,
}

/// The brain once the time that it has been stuck is accounted for: a
/// character that stays stuck has its step cut short.
pub open spec fn watched(g: Arith, brain: Brain, pos: Vec3, dt: Single) -> Brain {
    let elapsed = g(Op::Add(brain.elapsed, dt));
    let moved = vec_length(g, vec_difference(g, pos, brain.last_pos));
    if moves(g, brain.step.direction) && moved.below(g(Op::Mul(single(STUCK_MIN_SPEED), dt))) {
        let stuck = g(Op::Add(brain.stuck_secs, dt));
        if single(STUCK_TIMEOUT).at_most(stuck) {
            Brain {
                elapsed: brain.step.duration,
                last_pos: pos,
                stuck_secs: single(ZERO),
                ..brain
            }
        } else {
            Brain { elapsed, last_pos: pos, stuck_secs: stuck, ..brain }
        }
    } else {
        Brain { elapsed, last_pos: pos, stuck_secs: single(ZERO), ..brain }
    }
}

/// The step is over.
pub open spec fn expired(brain: Brain) -> bool {
    brain.step.duration.at_most(brain.elapsed)
}

/// The brain with its next step begun.
pub open spec fn renewed(
    g: Arith,
    brain: Brain,
    table: AnimTable,
    durations: Seq<Single>,
) -> Brain {
    let last_direction = if moves(g, brain.step.direction) {
        vec_normalized(g, brain.step.direction)
    } else {
        brain.last_direction
    };
    let (step, rng) = next_step(g, brain.rng, last_direction, table, durations);
    Brain { rng, step, elapsed: single(ZERO), last_direction, ..brain }
}

impl NpcRuntime {
    /// The character with its brain advanced, before it moves.
    pub open spec fn decided(
        self,
        g: Arith,
        dt: Single,
        table: AnimTable,
        durations: Seq<Single>,
    ) -> NpcRuntime {
        let aged = NpcRuntime { step_anim_t: g(Op::Add(self.step_anim_t, dt)), ..self };
        match self.brain {
            None => aged,
            Some(brain) => {
                let seen = watched(g, brain, self.pos, dt);
                if expired(seen) {
                    let next = renewed(g, seen, table, durations);
                    NpcRuntime {
                        brain: Some(next),
                        step_anim_t: single(ZERO),
                        current_anim_index: table.clip_of(next.step.role),
                        ..aged
                    }
                } else {
                    NpcRuntime { brain: Some(seen), ..aged }
                }
            },
        }
    }

    /// The character once it has walked for `dt`, if it walks.
    pub open spec fn walked(self, g: Arith, dt: Single) -> NpcRuntime {
        match self.brain {
            Some(brain) => if brain.step.role is Walk {
                let d = brain.step.direction;
                NpcRuntime {
                    pos: vec_sum(
                        g,
                        self.pos,
                        vec_scaled(g, vec_scaled(g, d, single(WALK_SPEED)), dt),
                    ),
                    yaw_deg: g(Op::Add(g(Op::Degrees(g(Op::Atan2(d.x, d.z)))), single(HALF_TURN))),
                    ..self
                }
            } else {
                self
            },
            None => self,
        }
    }

    /// The character moved back into its spawn box, at the given height.
    pub open spec fn confined(self, height: Single) -> Option<NpcRuntime> {
        match (
            between(self.pos.x, self.spawn_min.x, self.spawn_max.x),
            between(self.pos.z, self.spawn_min.z, self.spawn_max.z),
        ) {
            (Some(x), Some(z)) => Some(NpcRuntime { pos: Vec3 { x, y: height, z }, ..self }),
            _ => None,
        }
    }

    /// The character after one tick without its neighbours.
    pub open spec fn ticked(
        self,
        g: Arith,
        dt: Single,
        table: AnimTable,
        durations: Seq<Single>,
        floor_y: Single,
    ) -> Option<NpcRuntime> {
        self.decided(g, dt, table, durations).walked(g, dt).confined(floor_y)
    }

    /// The animation is played without the motion of its root joint. A fall
    /// needs that motion; other roles move by themselves.
    pub open spec fn strips_root(self) -> bool {
        !(self.brain matches Some(brain) && (brain.step.role is Fall || brain.step.role
            is FallSide))
    }

    /// Advance the brain, walk, and stay on the floor inside of the spawn box.
    pub fn advance<F: Fn(Op) -> Single>(
        &mut self,
        f: &F,
        dt: Single,
        table: &AnimTable,
        durations: &Vec<Single>,
        floor_y: Single,
    ) -> (r: Result<(), BadSpawnBox>)
        requires
            total(*f),
        ensures
            forall|g: Arith| #[trigger]
                computes(*f, g) ==> match old(self).ticked(g, dt, *table, durations@, floor_y) {
                    Some(next) => r.is_ok() && *final(self) == next,
                    None => r.is_err() && *final(self) == *old(self),
                },
    {
        let ghost before = *self;
        let mut next: NpcRuntime = *self;
        next.step_anim_t = f(Op::Add(self.step_anim_t, dt));
        if let Some(old_brain) = self.brain {
            let mut brain: Brain = old_brain;
            watch(f, &mut brain, self.pos, dt);
            if brain.elapsed.ge(brain.step.duration) {
                renew(f, &mut brain, table, durations);
                next.step_anim_t = single(ZERO);
                next.current_anim_index = table.for_role(brain.step.role);
            }
            next.brain = Some(brain);
            assert(forall|g: Arith| #[trigger]
                computes(*f, g) ==> next == before.decided(g, dt, *table, durations@));
            if matches!(brain.step.role, Role::Walk) {
                let d: Vec3 = brain.step.direction;
                let speed: Vec3 = d.scaled(f, single(WALK_SPEED));
                let way: Vec3 = speed.scaled(f, dt);
                next.pos = self.pos.plus(f, way);
                let angle: Single = f(Op::Atan2(d.x, d.z));
                let degrees: Single = f(Op::Degrees(angle));
                next.yaw_deg = f(Op::Add(degrees, single(HALF_TURN)));
            }
        }
        match next.confine(floor_y) {
            Some(end) => {
                *self = end;
                Ok(())
            },
            None => Err(BadSpawnBox),
        }
    }

    fn confine(self, height: Single) -> (r: Option<NpcRuntime>)
        ensures
            r == self.confined(height),
    {
        let x: Single = match hold_between(self.pos.x, self.spawn_min.x, self.spawn_max.x) {
            Some(x) => x,
            None => {
                return None;
            },
        };
        let z: Single = match hold_between(self.pos.z, self.spawn_min.z, self.spawn_max.z) {
            Some(z) => z,
            None => {
                return None;
            },
        };
        let mut next: NpcRuntime = self;
        next.pos = Vec3 { x, y: height, z };
        Some(next)
    }

    /// Whether the animation is played without the motion of its root joint.
    pub fn strip_root(&self) -> (r: bool)
        ensures
            r == self.strips_root(),
    {
        match self.brain {
            Some(brain) => !matches!(brain.step.role, Role::Fall | Role::FallSide),
            None => true,
        }
    }
}

fn watch<F: Fn(Op) -> Single>(f: &F, brain: &mut Brain, pos: Vec3, dt: Single)
    requires
        total(*f),
    ensures
        forall|g: Arith| #[trigger]
            computes(*f, g) ==> *final(brain) == watched(g, *old(brain), pos, dt),
{
    brain.elapsed = f(Op::Add(brain.elapsed, dt));
    let squared: Single = brain.step.direction.dot(f, brain.step.direction);
    let wants_to_move: bool = squared.gt(single(STILL_EPSILON));
    let way: Vec3 = pos.minus(f, brain.last_pos);
    let moved: Single = way.length(f);
    let least: Single = f(Op::Mul(single(STUCK_MIN_SPEED), dt));
    brain.last_pos = pos;
    if wants_to_move && moved.lt(least) {
        brain.stuck_secs = f(Op::Add(brain.stuck_secs, dt));
        if brain.stuck_secs.ge(single(STUCK_TIMEOUT)) {
            brain.elapsed = brain.step.duration;
            brain.stuck_secs = single(ZERO);
        }
    } else {
        brain.stuck_secs = single(ZERO);
    }
}

fn renew<F: Fn(Op) -> Single>(
    f: &F,
    brain: &mut Brain,
    table: &AnimTable,
    durations: &Vec<Single>,
)
    requires
        total(*f),
    ensures
        forall|g: Arith| #[trigger]
            computes(*f, g) ==> *final(brain) == renewed(g, *old(brain), *table, durations@),
{
    let squared: Single = brain.step.direction.dot(f, brain.step.direction);
    if squared.gt(single(STILL_EPSILON)) {
        brain.last_direction = brain.step.direction.normalized(f);
    }
    brain.step = next_brain_step(f, brain, table, durations);
    brain.elapsed = single(ZERO);
}

/// The way from one character to another in the plane.
pub open spec fn apart(g: Arith, here: Vec3, there: Vec3) -> Vec3 {
    let d = vec_difference(g, here, there);
    Vec3 { x: d.x, y: single(ZERO), z: d.z }
}

/// Characters push each other within the radius, but not in the same spot.
pub open spec fn in_reach(g: Arith, here: Vec3, there: Vec3) -> bool {
    let radius = single(SEPARATION_RADIUS);
    let squared = vec_dot(g, apart(g, here, there), apart(g, here, there));
    squared.below(g(Op::Mul(radius, radius))) && single(STILL_EPSILON).below(squared)
}

/// Strength of a push: the more, the closer.
pub open spec fn strength_at(g: Arith, distance: Single) -> Single {
    g(Op::Mul(
        g(Op::Sub(single(ONE), g(Op::Div(distance, single(SEPARATION_RADIUS))))),
        single(SEPARATION_STRENGTH),
    ))
}

/// A push with what a character at `there` adds to it for one at `here`: away
/// from it in the plane, if it is in reach.
pub open spec fn with_push(g: Arith, push: Vec3, here: Vec3, there: Vec3) -> Vec3 {
    let flat = apart(g, here, there);
    if in_reach(g, here, there) {
        let distance = vec_length(g, flat);
        vec_sum(
            g,
            push,
            vec_scaled(g, vec_divided(g, flat, distance), strength_at(g, distance)),
        )
    } else {
        push
    }
}

/// The push on character `i` by the first `n` characters.
pub open spec fn push_on(g: Arith, all: Seq<NpcRuntime>, i: int, n: nat) -> Vec3
    decreases n,
{
    if n == 0 {
        let zero = single(ZERO);
        Vec3 { x: zero, y: zero, z: zero }
    } else {
        let before = push_on(g, all, i, (n - 1) as nat);
        if n - 1 == i {
            before
        } else {
            with_push(g, before, all[i].pos, all[n - 1].pos)
        }
    }
}

/// The push on character `i` is strong enough to move it.
pub open spec fn pushed(g: Arith, all: Seq<NpcRuntime>, i: int) -> bool {
    let push = push_on(g, all, i, all.len());
    all.len() >= 2 && single(PUSH_EPSILON).below(vec_dot(g, push, push))
}

/// Character `i` once its neighbours have pushed it.
pub open spec fn separated(g: Arith, all: Seq<NpcRuntime>, i: int, dt: Single) -> Option<
    NpcRuntime,
> {
    if pushed(g, all, i) {
        let pos = vec_sum(g, all[i].pos, vec_scaled(g, push_on(g, all, i, all.len()), dt));
        NpcRuntime { pos, ..all[i] }.confined(pos.y)
    } else {
        Some(all[i])
    }
}

fn push_between<F: Fn(Op) -> Single>(f: &F, push: Vec3, here: Vec3, there: Vec3) -> (r: Vec3)
    requires
        total(*f),
    ensures
        forall|g: Arith| #[trigger] computes(*f, g) ==> r == with_push(g, push, here, there),
{
    let radius: Single = single(SEPARATION_RADIUS);
    let d: Vec3 = here.minus(f, there);
    let flat: Vec3 = Vec3 { x: d.x, y: single(ZERO), z: d.z };
    let squared: Single = flat.dot(f, flat);
    let reach: Single = f(Op::Mul(radius, radius));
    if squared.lt(reach) && squared.gt(single(STILL_EPSILON)) {
        let distance: Single = f(Op::Sqrt(squared));
        let ratio: Single = f(Op::Div(distance, radius));
        let closeness: Single = f(Op::Sub(single(ONE), ratio));
        let strength: Single = f(Op::Mul(closeness, single(SEPARATION_STRENGTH)));
        let unit: Vec3 = flat.divided(f, distance);
        let away: Vec3 = unit.scaled(f, strength);
        push.plus(f, away)
    } else {
        push
    }
}

fn total_push<F: Fn(Op) -> Single>(f: &F, all: &Vec<NpcRuntime>, i: usize) -> (r: Vec3)
    requires
        total(*f),
        i < all@.len(),
    ensures
        forall|g: Arith| #[trigger] computes(*f, g) ==> r == push_on(g, all@, i as int, all@.len()),
{
    let mut push: Vec3 = Vec3::zero();
    let mut j: usize = 0;
    while j < all.len()
        invariant
            total(*f),
            i < all@.len(),
            j <= all@.len(),
            forall|g: Arith| #[trigger]
                computes(*f, g) ==> push == push_on(g, all@, i as int, j as nat),
        decreases all@.len() - j,
    {
        if i != j {
            push = push_between(f, push, all[i].pos, all[j].pos);
        }
        j = j + 1;
    }
    push
}

/// Push all characters apart, each by where the others were before any was
/// pushed. Returns the characters afterwards and tells which of them moved.
pub fn separate<F: Fn(Op) -> Single>(f: &F, all: &Vec<NpcRuntime>, dt: Single) -> (r: Result<
    (Vec<NpcRuntime>, Vec<bool>),
    BadSpawnBox,
>)
    requires
        total(*f),
    ensures
        r matches Ok((next, moved)) ==> next@.len() == all@.len() && moved@.len() == all@.len(),
        forall|g: Arith| #[trigger]
            computes(*f, g) ==> match r {
                Ok((next, moved)) => forall|i: int|
                    #![trigger next@[i]]
                    #![trigger moved@[i]]
                    0 <= i < all@.len() ==> {
                        &&& separated(g, all@, i, dt) == Some(next@[i])
                        &&& moved@[i] == pushed(g, all@, i)
                    },
                Err(_) => exists|i: int|
                    0 <= i < all@.len() && #[trigger] separated(g, all@, i, dt) is None,
            },
{
    let n: usize = all.len();
    let mut next: Vec<NpcRuntime> = Vec::new();
    let mut moved: Vec<bool> = Vec::new();
    let mut i: usize = 0;
    while i < n
        invariant
            total(*f),
            n == all@.len(),
            i <= n,
            next@.len() == i,
            moved@.len() == i,
            forall|g: Arith, k: int|
                #![trigger computes(*f, g), next@[k]]
                #![trigger computes(*f, g), moved@[k]]
                computes(*f, g) && 0 <= k < i ==> {
                    &&& separated(g, all@, k, dt) == Some(next@[k])
                    &&& moved@[k] == pushed(g, all@, k)
                },
        decreases n - i,
    {
        let mut rt: NpcRuntime = all[i];
        let mut shoved: bool = false;
        if n >= 2 {
            let push: Vec3 = total_push(f, all, i);
            let squared: Single = push.dot(f, push);
            if squared.gt(single(PUSH_EPSILON)) {
                let way: Vec3 = push.scaled(f, dt);
                rt.pos = rt.pos.plus(f, way);
                match rt.confine(rt.pos.y) {
                    Some(end) => {
                        rt = end;
                    },
                    None => {
                        assert(forall|g: Arith| #[trigger]
                            computes(*f, g) ==> separated(g, all@, i as int, dt) is None);
                        return Err(BadSpawnBox);
                    },
                }
                shoved = true;
            }
        }
        assert(forall|g: Arith| #[trigger]
            computes(*f, g) ==> separated(g, all@, i as int, dt) == Some(rt) && shoved == pushed(
                g,
                all@,
                i as int,
            ));
        next.push(rt);
        moved.push(shoved);
        i = i + 1;
    }
    Ok((next, moved))
}

} // verus!
