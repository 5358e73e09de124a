//! All characters of a scene together.

use crate::arith::{computes, total, Arith, Op, Vec3, ZERO};
use crate::character::skeleton::Animation;
use crate::npc::brain::AnimTable;
use crate::npc::scene::{anim_table, spawn, spawned, table_of, AssetPlan, NpcConfig};
use crate::npc::tick::{pushed, separate, separated, BadSpawnBox, NpcRuntime};
use crate::single::{single, Single};
use vstd::prelude::*;

verus! {

/// The characters of a scene. `C` is the light of the surroundings at a place.
#[derive(Debug)]
pub struct NpcSystem<C> {
    pub runtimes: Vec<NpcRuntime>,
    /// For each character, the animations of its roles.
    pub tables: Vec<AnimTable>,
    /// For each character, which of the loaded assets it uses.
    pub slots: Vec<usize>,
    /// For each character, the light of the surroundings where it entered the
    /// scene.
    pub ambients: Vec<C>,
    /// Time since the scene began.
    pub world_t: Single,
    /// Height of the floor that the characters stand on.
    pub floor_y: Single,
}

impl<C> NpcSystem<C> {
    /// Every character has its animations, its light, and one of `assets` assets.
    pub open spec fn wf(self, assets: nat) -> bool {
        &&& self.tables@.len() == self.runtimes@.len()
        &&& self.slots@.len() == self.runtimes@.len()
        &&& self.ambients@.len() == self.runtimes@.len()
        &&& forall|i: int| 0 <= i < self.slots@.len() ==> #[trigger] self.slots@[i] < assets
    }

    /// Character `i` after a tick without its neighbours.
    #[verifier::opaque]
    pub open spec fn ticked(
        self,
        g: Arith,
        dt: Single,
        durations: Seq<Vec<Single>>,
        i: int,
    ) -> Option<NpcRuntime> {
        self.runtimes@[i].ticked(
            g,
            dt,
            self.tables@[i],
            durations[self.slots@[i] as int]@,
            self.floor_y,
        )
    }

    /// All characters after a tick, before they push each other apart. It holds
    /// where no spawn box is upside down.
    pub open spec fn mid_tick(self, g: Arith, dt: Single, durations: Seq<Vec<Single>>) -> Seq<
        NpcRuntime,
    > {
        Seq::new(self.runtimes@.len(), |i: int| self.ticked(g, dt, durations, i)->0)
    }

    /// A spawn box is upside down.
    pub open spec fn fails(self, g: Arith, dt: Single, durations: Seq<Vec<Single>>) -> bool {
        ||| exists|i: int|
            0 <= i < self.runtimes@.len() && #[trigger] self.ticked(g, dt, durations, i) is None
        ||| exists|i: int|
            0 <= i < self.runtimes@.len() && #[trigger] separated(
                g,
                self.mid_tick(g, dt, durations),
                i,
                dt,
            ) is None
    }

    /// Set up the characters, given the names of the animations of each asset
    /// that was loaded. `ambient` tells the light of the surroundings at a place.
    pub fn new<F: Fn(Op) -> Single, A: Fn(Vec3) -> C>(
        f: &F,
        npcs: &Vec<NpcConfig>,
        plan: AssetPlan,
        names: &Vec<Vec<String>>,
        floor_y: Single,
        ambient: &A,
    ) -> (r: NpcSystem<C>)
        requires
            total(*f),
            forall|p: Vec3| #[trigger] call_requires(*ambient, (p,)),
            plan.serves(npcs@),
            names@.len() == plan.first_users@.len(),
        ensures
            r.wf(names@.len()),
            r.runtimes@.len() == npcs@.len(),
            r.slots@ == plan.slots@,
            r.ambients@.len() == npcs@.len(),
            forall|i: int|
                0 <= i < npcs@.len() ==> call_ensures(
                    *ambient,
                    (r.runtimes@[i].pos,),
                    #[trigger] r.ambients@[i],
                ),
            r.world_t == single(ZERO),
            r.floor_y == floor_y,
            forall|i: int|
                0 <= i < npcs@.len() ==> #[trigger] r.tables@[i] == table_of(
                    npcs@[i],
                    names@[plan.slots@[i] as int]@,
                ),
            forall|g: Arith, i: int|
                #![trigger computes(*f, g), r.runtimes@[i]]
                computes(*f, g) && 0 <= i < npcs@.len() ==> r.runtimes@[i] == spawned(
                    g,
                    npcs@[i],
                    i as usize,
                    r.tables@[i],
                    floor_y,
                ),
    {
        let mut runtimes: Vec<NpcRuntime> = Vec::new();
        let mut tables: Vec<AnimTable> = Vec::new();
        let mut ambients: Vec<C> = Vec::new();
        let mut i: usize = 0;
        while i < npcs.len()
            invariant
                total(*f),
                plan.serves(npcs@),
                names@.len() == plan.first_users@.len(),
                i <= npcs@.len(),
                runtimes@.len() == i,
                tables@.len() == i,
                ambients@.len() == i,
                forall|p: Vec3| #[trigger] call_requires(*ambient, (p,)),
                forall|k: int|
                    0 <= k < i ==> call_ensures(
                        *ambient,
                        (runtimes@[k].pos,),
                        #[trigger] ambients@[k],
                    ),
                forall|k: int|
                    0 <= k < i ==> #[trigger] tables@[k] == table_of(
                        npcs@[k],
                        names@[plan.slots@[k] as int]@,
                    ),
                forall|g: Arith, k: int|
                    #![trigger computes(*f, g), runtimes@[k]]
                    computes(*f, g) && 0 <= k < i ==> runtimes@[k] == spawned(
                        g,
                        npcs@[k],
                        k as usize,
                        tables@[k],
                        floor_y,
                    ),
            decreases npcs@.len() - i,
        {
            let slot: usize = plan.slots[i];
            let table: AnimTable = anim_table(&npcs[i], &names[slot]);
            let runtime: NpcRuntime = spawn(f, &npcs[i], i, &table, floor_y);
            let light: C = ambient(runtime.pos);
            runtimes.push(runtime);
            tables.push(table);
            ambients.push(light);
            i = i + 1;
        }
        NpcSystem {
            runtimes,
            tables,
            slots: plan.slots,
            ambients,
            world_t: single(ZERO),
            floor_y,
        }
    }

    /// Let each character act for a time, without its neighbours.
    fn tick_each<F: Fn(Op) -> Single>(
        &self,
        f: &F,
        dt: Single,
        durations: &Vec<Vec<Single>>,
    ) -> (r: Result<Vec<NpcRuntime>, BadSpawnBox>)
        requires
            total(*f),
            self.wf(durations@.len()),
        ensures
            match r {
                Ok(mid) => {
                    &&& mid@.len() == self.runtimes@.len()
                    &&& forall|g: Arith, k: int|
                        #![trigger computes(*f, g), mid@[k]]
                        #![trigger computes(*f, g), self.ticked(g, dt, durations@, k)]
                        computes(*f, g) && 0 <= k < mid@.len() ==> self.ticked(
                            g,
                            dt,
                            durations@,
                            k,
                        ) == Some(mid@[k])
                },
                Err(_) => exists|k: int|
                    #![trigger self.runtimes@[k]]
                    0 <= k < self.runtimes@.len() && (forall|g: Arith| #[trigger]
                        computes(*f, g) ==> self.ticked(g, dt, durations@, k) is None),
            },
    {
        let mut mid: Vec<NpcRuntime> = Vec::new();
        let mut i: usize = 0;
        while i < self.runtimes.len()
            invariant
                total(*f),
                self.wf(durations@.len()),
                i <= self.runtimes@.len(),
                mid@.len() == i,
                forall|g: Arith, k: int|
                    #![trigger computes(*f, g), mid@[k]]
                    #![trigger computes(*f, g), self.ticked(g, dt, durations@, k)]
                    computes(*f, g) && 0 <= k < i ==> self.ticked(g, dt, durations@, k) == Some(
                        mid@[k],
                    ),
            decreases self.runtimes@.len() - i,
        {
            reveal(NpcSystem::<_>::ticked);
            let mut runtime: NpcRuntime = self.runtimes[i];
            let slot: usize = self.slots[i];
            match runtime.advance(f, dt, &self.tables[i], &durations[slot], self.floor_y) {
                Ok(_) => {},
                Err(e) => {
                    assert(forall|g: Arith| #[trigger]
                        computes(*f, g) ==> self.ticked(g, dt, durations@, i as int) is None);
                    return Err(e);
                },
            }
            mid.push(runtime);
            i = i + 1;
        }
        Ok(mid)
    }

    /// Let all characters act for a time and then push each other apart, each
    /// by where the others came to stand. `durations` holds those of the
    /// animations of each asset. Tells who was pushed; where a spawn box is
    /// upside down nothing changes.
    pub fn tick<F: Fn(Op) -> Single>(
        &mut self,
        f: &F,
        dt: Single,
        durations: &Vec<Vec<Single>>,
    ) -> (r: Result<Vec<bool>, BadSpawnBox>)
        requires
            total(*f),
            old(self).wf(durations@.len()),
        ensures
            forall|g: Arith| #[trigger]
                computes(*f, g) ==> r.is_err() == old(self).fails(g, dt, durations@),
            r.is_err() ==> *final(self) == *old(self),
            final(self).tables@ == old(self).tables@,
            final(self).slots@ == old(self).slots@,
            final(self).ambients@ == old(self).ambients@,
            final(self).floor_y == old(self).floor_y,
            r matches Ok(moved) ==> {
                &&& final(self).runtimes@.len() == old(self).runtimes@.len()
                &&& moved@.len() == old(self).runtimes@.len()
                &&& forall|g: Arith| #[trigger]
                    computes(*f, g) ==> final(self).world_t == g(Op::Add(old(self).world_t, dt))
                &&& forall|g: Arith, i: int|
                    #![trigger computes(*f, g), final(self).runtimes@[i]]
                    #![trigger computes(*f, g), moved@[i]]
                    computes(*f, g) && 0 <= i < moved@.len() ==> {
                        let mid = old(self).mid_tick(g, dt, durations@);
                        &&& separated(g, mid, i, dt) == Some(final(self).runtimes@[i])
                        &&& moved@[i] == pushed(g, mid, i)
                    }
            },
    {
        let ghost before = *self;
        let mid: Vec<NpcRuntime> = match self.tick_each(f, dt, durations) {
            Ok(mid) => mid,
            Err(e) => {
                return Err(e);
            },
        };
        assert forall|g: Arith| #[trigger] computes(*f, g) implies mid@ == before.mid_tick(
            g,
            dt,
            durations@,
        ) by {
            assert(mid@ =~= before.mid_tick(g, dt, durations@));
        }
        match separate(f, &mid, dt) {
            Ok((next, moved)) => {
                self.runtimes = next;
                self.world_t = f(Op::Add(self.world_t, dt));
                assert forall|g: Arith| #[trigger] computes(*f, g) implies !before.fails(
                    g,
                    dt,
                    durations@,
                ) by {
                    assert forall|k: int| 0 <= k < before.runtimes@.len() implies separated(
                        g,
                        mid@,
                        k,
                        dt,
                    ) is Some by {
                        assert(separated(g, mid@, k, dt) == Some(next@[k]));
                    }
                }
                Ok(moved)
            },
            Err(e) => Err(e),
        }
    }
}

impl NpcRuntime {
    /// The animation to play, out of those of the asset and the same ones
    /// without the motion of the root; none stands for the bind pose.
    pub fn clip<'a>(&self, full: &'a Vec<Animation>, in_place: &'a Vec<Animation>) -> (r: Option<
        &'a Animation,
    >)
        ensures
            ({
                let animations = if self.strips_root() {
                    in_place@
                } else {
                    full@
                };
                match self.current_anim_index {
                    Some(k) => if k < animations.len() {
                        r == Some(&animations[k as int])
                    } else {
                        r is None
                    },
                    None => r is None,
                }
            }),
    {
        let animations: &Vec<Animation> = if self.strip_root() {
            in_place
        } else {
            full
        };
        match self.current_anim_index {
            Some(k) => if k < animations.len() {
                Some(&animations[k])
            } else {
                None
            },
            None => None,
        }
    }
}

} // verus!
