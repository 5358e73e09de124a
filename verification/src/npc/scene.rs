//! Setting up the characters of a scene.

use crate::arith::{computes, total, Arith, Op, Vec3, HALF, ZERO};
use crate::npc::brain::{standing, AnimTable, Brain, Role, TimelineStep};
use crate::npc::rng::{Rng, ZERO_SEED};
use crate::npc::tick::NpcRuntime;
use crate::single::{single, Single};
use vstd::prelude::*;

verus! {

/// How a character that moves by itself is set up. The corners of the spawn
/// box are given by their X and Z coordinates.
#[derive(Clone, Copy, Debug, PartialEq, Eq, Structural)]
pub struct BrainConfig {
    pub seed: u64,
    pub min_x: Single,
    pub min_z: Single,
    pub max_x: Single,
    pub max_z: Single,
}

/// How a character is set up.
#[derive(Debug)]
pub struct NpcConfig {
    /// Path of the asset.
    pub asset: String,
    pub pos: Vec3,
    pub yaw_deg: Single,
    /// Name of the animation to walk with, or to play when standing still.
    pub animation: Option<String>,
    pub brain: Option<BrainConfig>,
}

/// `i` is the first place in `names` that holds `name`.
pub open spec fn first_at(names: Seq<String>, name: Seq<char>, i: int) -> bool {
    &&& 0 <= i < names.len()
    &&& names[i]@ == name
    &&& forall|j: int| 0 <= j < i ==> (#[trigger] names[j])@ != name
}

/// The first place in `names` that holds `name`, if there is one.
pub open spec fn place_of(names: Seq<String>, name: Seq<char>) -> Option<usize> {
    if exists|i: int| first_at(names, name, i) {
        Some((choose|i: int| first_at(names, name, i)) as usize)
    } else {
        None
    }
}

/// The animation to walk with: the one asked for, else the one named "Walk".
pub open spec fn walk_clip(npc: NpcConfig, names: Seq<String>) -> Option<usize> {
    match npc.animation {
        Some(name) => match place_of(names, name@) {
            Some(i) => Some(i),
            None => place_of(names, "Walk"@),
        },
        None => place_of(names, "Walk"@),
    }
}

pub open spec fn table_of(npc: NpcConfig, names: Seq<String>) -> AnimTable {
    AnimTable {
        idle: None,
        walk: walk_clip(npc, names),
        fall: place_of(names, "Fall"@),
        fall_side: place_of(names, "fall_side"@),
    }
}

/// Where a character appears: in the middle of its spawn box, on the floor, or
/// where it was placed.
pub open spec fn start_pos(g: Arith, npc: NpcConfig, floor_y: Single) -> Vec3 {
    match npc.brain {
        Some(b) => Vec3 {
            x: g(Op::Mul(g(Op::Add(b.min_x, b.max_x)), single(HALF))),
            y: floor_y,
            z: g(Op::Mul(g(Op::Add(b.min_z, b.max_z)), single(HALF))),
        },
        None => npc.pos,
    }
}

/// A character as it appears. One with a brain waits for half a second first,
/// so that not all set off at once; one without plays its animation for ever.
pub open spec fn spawned(
    g: Arith,
    npc: NpcConfig,
    scene_index: usize,
    table: AnimTable,
    floor_y: Single,
) -> NpcRuntime {
    let zero = single(ZERO);
    let pos = start_pos(g, npc, floor_y);
    NpcRuntime {
        scene_index,
        current_anim_index: if npc.brain is None {
            table.walk
        } else {
            None
        },
        step_anim_t: zero,
        pos,
        yaw_deg: npc.yaw_deg,
        brain: match npc.brain {
            Some(b) => Some(
                Brain {
                    rng: Rng {
                        state: if b.seed == 0 {
                            ZERO_SEED
                        } else {
                            b.seed
                        },
                    },
                    step: standing(Role::Idle, single(HALF)),
                    elapsed: zero,
                    last_direction: Vec3 { x: zero, y: zero, z: zero },
                    last_pos: pos,
                    stuck_secs: zero,
                },
            ),
            None => None,
        },
        spawn_min: match npc.brain {
            Some(b) => Vec3 { x: b.min_x, y: floor_y, z: b.min_z },
            None => pos,
        },
        spawn_max: match npc.brain {
            Some(b) => Vec3 { x: b.max_x, y: floor_y, z: b.max_z },
            None => pos,
        },
    }
}

/// Find a name in a list.
pub fn position_of(names: &Vec<String>, name: &String) -> (r: Option<usize>)
    ensures
        r == place_of(names@, name@),
{
    let mut i: usize = 0;
    while i < names.len()
        invariant
            i <= names@.len(),
            forall|j: int| 0 <= j < i ==> (#[trigger] names@[j])@ != name@,
        decreases names@.len() - i,
    {
        if names[i] == *name {
            assert(first_at(names@, name@, i as int));
            let ghost k = choose|k: int| first_at(names@, name@, k);
            assert(k == i) by {
                if k < i {
                    assert(names@[k]@ == name@);
                } else if k > i {
                    assert(names@[i as int]@ != name@);
                }
            }
            return Some(i);
        }
        i = i + 1;
    }
    assert forall|k: int| !first_at(names@, name@, k) by {
        if 0 <= k < names@.len() {
            assert(names@[k]@ != name@);
        }
    }
    None
}

fn clip_named(names: &Vec<String>, name: &str) -> (r: Option<usize>)
    ensures
        r == place_of(names@, name@),
{
    let owned: String = name.to_owned();
    position_of(names, &owned)
}

/// Look up the animation of each role among the animations of the asset.
pub fn anim_table(npc: &NpcConfig, names: &Vec<String>) -> (r: AnimTable)
    ensures
        r == table_of(*npc, names@),
{
    let asked: Option<usize> = match &npc.animation {
        Some(name) => position_of(names, name),
        None => None,
    };
    let walk: Option<usize> = match asked {
        Some(i) => Some(i),
        None => clip_named(names, "Walk"),
    };
    AnimTable {
        idle: None,
        walk,
        fall: clip_named(names, "Fall"),
        fall_side: clip_named(names, "fall_side"),
    }
}

/// Set up a character.
pub fn spawn<F: Fn(Op) -> Single>(
    f: &F,
    npc: &NpcConfig,
    scene_index: usize,
    table: &AnimTable,
    floor_y: Single,
) -> (r: NpcRuntime)
    requires
        total(*f),
    ensures
        forall|g: Arith| #[trigger]
            computes(*f, g) ==> r == spawned(g, *npc, scene_index, *table, floor_y),
{
    let zero: Single = single(ZERO);
    let pos: Vec3 = match &npc.brain {
        Some(b) => {
            let x: Single = f(Op::Add(b.min_x, b.max_x));
            let z: Single = f(Op::Add(b.min_z, b.max_z));
            Vec3 { x: f(Op::Mul(x, single(HALF))), y: floor_y, z: f(Op::Mul(z, single(HALF))) }
        },
        None => npc.pos,
    };
    let brain: Option<Brain> = match &npc.brain {
        Some(b) => Some(
            Brain {
                rng: Rng::new(b.seed),
                step: TimelineStep {
                    role: Role::Idle,
                    duration: single(HALF),
                    direction: Vec3::zero(),
                },
                elapsed: zero,
                last_direction: Vec3::zero(),
                last_pos: pos,
                stuck_secs: zero,
            },
        ),
        None => None,
    };
    let (spawn_min, spawn_max): (Vec3, Vec3) = match &npc.brain {
        Some(b) => (
            Vec3 { x: b.min_x, y: floor_y, z: b.min_z },
            Vec3 { x: b.max_x, y: floor_y, z: b.max_z },
        ),
        None => (pos, pos),
    };
    NpcRuntime {
        scene_index,
        current_anim_index: if npc.brain.is_none() {
            table.walk
        } else {
            None
        },
        step_anim_t: zero,
        pos,
        yaw_deg: npc.yaw_deg,
        brain,
        spawn_min,
        spawn_max,
    }
}

/// The characters whose assets have to be loaded, and for each character the
/// place of its asset among those: one for each different path, in the order
/// in which the paths first occur.
#[derive(Debug)]
pub struct AssetPlan {
    /// Characters that are the first to use their asset.
    pub first_users: Vec<usize>,
    /// For each character, which of the loaded assets it uses.
    pub slots: Vec<usize>,
}

impl AssetPlan {
    pub open spec fn serves(self, npcs: Seq<NpcConfig>) -> bool {
        &&& self.slots@.len() == npcs.len()
        &&& forall|i: int|
            0 <= i < npcs.len() ==> {
                &&& (#[trigger] self.slots@[i]) < self.first_users@.len()
                &&& npcs[self.first_users@[self.slots@[i] as int] as int].asset@ == npcs[i].asset@
            }
        &&& forall|k: int| 0 <= k < self.first_users@.len() ==> #[trigger] self.first_users@[k] < npcs.len()
        &&& forall|j: int, k: int|
            0 <= j < k < self.first_users@.len() ==> #[trigger] self.first_users@[j]
                < #[trigger] self.first_users@[k] && npcs[self.first_users@[j] as int].asset@
                != npcs[self.first_users@[k] as int].asset@
    }

    /// Every first user comes before all others with the same asset.
    pub open spec fn loads_early(self, npcs: Seq<NpcConfig>) -> bool {
        forall|i: int|
            0 <= i < npcs.len() ==> self.first_users@[#[trigger] self.slots@[i] as int] <= i
    }
}

/// Decide which assets to load.
pub fn plan_assets(npcs: &Vec<NpcConfig>) -> (r: AssetPlan)
    ensures
        r.serves(npcs@),
        r.loads_early(npcs@),
{
    let mut first_users: Vec<usize> = Vec::new();
    let mut slots: Vec<usize> = Vec::new();
    let mut i: usize = 0;
    while i < npcs.len()
        invariant
            i <= npcs@.len(),
            slots@.len() == i,
            forall|k: int|
                0 <= k < i ==> {
                    &&& (#[trigger] slots@[k]) < first_users@.len()
                    &&& npcs@[first_users@[slots@[k] as int] as int].asset@ == npcs@[k].asset@
                    &&& first_users@[slots@[k] as int] <= k
                },
            forall|k: int| 0 <= k < first_users@.len() ==> #[trigger] first_users@[k] < i,
            forall|j: int, k: int|
                0 <= j < k < first_users@.len() ==> #[trigger] first_users@[j]
                    < #[trigger] first_users@[k] && npcs@[first_users@[j] as int].asset@
                    != npcs@[first_users@[k] as int].asset@,
        decreases npcs@.len() - i,
    {
        let mut k: usize = 0;
        while k < first_users.len() && npcs[first_users[k]].asset != npcs[i].asset
            invariant
                i < npcs@.len(),
                k <= first_users@.len(),
                forall|m: int| 0 <= m < first_users@.len() ==> #[trigger] first_users@[m] < i,
                forall|m: int|
                    0 <= m < k ==> npcs@[#[trigger] first_users@[m] as int].asset@
                        != npcs@[i as int].asset@,
            decreases first_users@.len() - k,
        {
            k = k + 1;
        }
        if k == first_users.len() {
            first_users.push(i);
        }
        slots.push(k);
        i = i + 1;
    }
    AssetPlan { first_users, slots }
}

} // verus!
