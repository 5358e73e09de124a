//! Point and ray queries.

use crate::arith::{
    computes, total, vec_difference, vec_divided, vec_length, vec_scaled, vec_sum, Arith, Op, Vec3,
    INFINITY, ONE, ZERO,
};
use crate::collision::octree::{Cell, Fault, GridSize, VoxelCollision};
use crate::single::{single, Single};
use vstd::prelude::*;

verus! {

/// A direction component of at most this size, 1e-6, counts as parallel to the
/// grid planes.
pub const PARALLEL_EPSILON: u32 = 0x3586_37bd;

/// The first solid voxel along a ray.
#[derive(Clone, Copy, Debug, PartialEq, Eq, Structural)]
pub struct RayHit {
    /// Where the ray enters the voxel.
    pub pos: Vec3,
    /// Distance from the ray's origin to the hit.
    pub t: Single,
}

/// A stretch of a ray, in multiples of the ray's direction.
#[derive(Clone, Copy, Debug, PartialEq, Eq, Structural)]
pub struct Stretch {
    pub near: Single,
    pub far: Single,
}

/// A walk from voxel to voxel along a ray. Places along the ray are given in
/// multiples of its direction.
#[derive(Clone, Copy, Debug, PartialEq, Eq, Structural)]
pub struct RayWalk {
    pub cell: Cell,
    /// Where along the ray the present voxel was entered.
    pub t: Single,
    /// Where along the ray the next voxel boundary of each axis lies.
    pub t_max: Vec3,
    /// How far the boundaries of each axis lie apart along the ray.
    pub t_delta: Vec3,
    /// Direction of the walk along each axis.
    pub step: Cell,
}

/// How a walk ends.
#[derive(Clone, Copy, Debug, PartialEq, Eq, Structural)]
pub enum WalkEnd {
    /// In a solid voxel, entered at this place along the ray.
    Hit(Single),
    Miss,
    /// At a voxel whose state the octree cannot tell.
    Lost,
}

/// The distance from the origin of a ray to the place `t` directions along it.
pub open spec fn distance_at(g: Arith, dir: Vec3, t: Single) -> Single {
    vec_length(g, vec_scaled(g, dir, t))
}

/// The place `t` directions along a ray is infinitely many directions away, or
/// farther than `max_dist`.
pub open spec fn out_of_reach(g: Arith, dir: Vec3, t: Single, max_dist: Single) -> bool {
    single(INFINITY).at_most(t) || max_dist.below(distance_at(g, dir, t))
}

/// The hit `t` directions along a ray.
pub open spec fn hit_at(g: Arith, origin: Vec3, dir: Vec3, t: Single) -> RayHit {
    RayHit {
        pos: vec_sum(g, origin, vec_scaled(g, dir, t)),
        t: distance_at(g, dir, t),
    }
}

pub open spec fn parallel(d: Single) -> bool {
    !single(PARALLEL_EPSILON).below(d.without_sign())
}

/// The part of a stretch of ray that lies between two planes of an axis, or
/// nothing. `o` and `d` are the ray's origin and direction on that axis.
pub open spec fn clipped(
    g: Arith,
    s: Stretch,
    o: Single,
    d: Single,
    low: Single,
    high: Single,
) -> Option<Stretch> {
    if parallel(d) {
        if o.below(low) || high.at_most(o) {
            None
        } else {
            Some(s)
        }
    } else {
        let t1 = g(Op::Div(g(Op::Sub(low, o)), d));
        let t2 = g(Op::Div(g(Op::Sub(high, o)), d));
        let enter = if t2.below(t1) {
            t2
        } else {
            t1
        };
        let leave = if t2.below(t1) {
            t1
        } else {
            t2
        };
        let near = if s.near.below(enter) {
            enter
        } else {
            s.near
        };
        let far = if leave.below(s.far) {
            leave
        } else {
            s.far
        };
        if far.below(near) {
            None
        } else {
            Some(Stretch { near, far })
        }
    }
}

pub open spec fn sign(d: Single) -> int {
    if single(ZERO).below(d) {
        1
    } else if d.below(single(ZERO)) {
        -1
    } else {
        0
    }
}

/// An index held to `0..n`.
pub open spec fn held(i: int, n: u32) -> int {
    if i < 0 {
        0
    } else if i >= n {
        n - 1
    } else {
        i
    }
}

/// The voxel index on one axis at which a point lies.
pub open spec fn entry_index(g: Arith, at: Single, min: Single, res: Single, n: u32) -> int {
    held(
        g(Op::Floor(g(Op::Div(g(Op::Sub(at, min)), res)))).truncated(
            i32::MIN as int,
            i32::MAX as int,
        ),
        n,
    )
}

/// Where the ray meets the next voxel boundary of an axis.
pub open spec fn next_crossing(
    g: Arith,
    o: Single,
    d: Single,
    min: Single,
    res: Single,
    index: int,
) -> Single {
    if parallel(d) {
        single(INFINITY)
    } else {
        let plane = index + if single(ZERO).below(d) {
            1int
        } else {
            0
        };
        let offset = g(Op::Sub(
            g(Op::Add(min, g(Op::Mul(g(Op::FromInt(plane as i64)), res)))),
            o,
        ));
        g(Op::Mul(offset, g(Op::Div(single(ONE), d))))
    }
}

/// How far the ray goes from one voxel boundary of an axis to the next.
pub open spec fn crossing_step(g: Arith, d: Single, res: Single) -> Single {
    if parallel(d) {
        single(INFINITY)
    } else {
        g(Op::Mul(res, g(Op::Div(single(ONE), d)).without_sign()))
    }
}

impl RayWalk {
    /// The axis whose boundary comes first, counted from zero. Where two
    /// boundaries coincide the later axis goes first.
    pub open spec fn axis(self) -> int {
        if self.t_max.x.below(self.t_max.y) {
            if self.t_max.x.below(self.t_max.z) {
                0
            } else {
                2
            }
        } else if self.t_max.y.below(self.t_max.z) {
            1
        } else {
            2
        }
    }

    /// The walk in the next voxel.
    pub open spec fn next(self, g: Arith) -> RayWalk {
        if self.axis() == 0 {
            RayWalk {
                cell: Cell { x: (self.cell.x + self.step.x) as i64, ..self.cell },
                t: self.t_max.x,
                t_max: Vec3 { x: g(Op::Add(self.t_max.x, self.t_delta.x)), ..self.t_max },
                ..self
            }
        } else if self.axis() == 1 {
            RayWalk {
                cell: Cell { y: (self.cell.y + self.step.y) as i64, ..self.cell },
                t: self.t_max.y,
                t_max: Vec3 { y: g(Op::Add(self.t_max.y, self.t_delta.y)), ..self.t_max },
                ..self
            }
        } else {
            RayWalk {
                cell: Cell { z: (self.cell.z + self.step.z) as i64, ..self.cell },
                t: self.t_max.z,
                t_max: Vec3 { z: g(Op::Add(self.t_max.z, self.t_delta.z)), ..self.t_max },
                ..self
            }
        }
    }

    /// The steps are steps to a neighbour.
    pub open spec fn neighbourly(self) -> bool {
        &&& -1 <= self.step.x <= 1
        &&& -1 <= self.step.y <= 1
        &&& -1 <= self.step.z <= 1
    }

    fn advance<F: Fn(Op) -> Single>(self, f: &F) -> (r: RayWalk)
        requires
            total(*f),
            self.neighbourly(),
            0 <= self.cell.x <= u32::MAX,
            0 <= self.cell.y <= u32::MAX,
            0 <= self.cell.z <= u32::MAX,
        ensures
            r.neighbourly(),
            forall|g: Arith| #[trigger] computes(*f, g) ==> r == self.next(g),
    {
        let mut r: RayWalk = self;
        if self.t_max.x.lt(self.t_max.y) && self.t_max.x.lt(self.t_max.z) {
            r.t = self.t_max.x;
            r.cell.x = self.cell.x + self.step.x;
            r.t_max.x = f(Op::Add(self.t_max.x, self.t_delta.x));
        } else if !self.t_max.x.lt(self.t_max.y) && self.t_max.y.lt(self.t_max.z) {
            r.t = self.t_max.y;
            r.cell.y = self.cell.y + self.step.y;
            r.t_max.y = f(Op::Add(self.t_max.y, self.t_delta.y));
        } else {
            r.t = self.t_max.z;
            r.cell.z = self.cell.z + self.step.z;
            r.t_max.z = f(Op::Add(self.t_max.z, self.t_delta.z));
        }
        r
    }
}

impl GridSize {
    /// The sizes can be walked: no axis is empty, and indices and the number of
    /// steps fit in 32 bits.
    pub open spec fn walkable(self) -> bool {
        &&& 0 < self.x <= i32::MAX
        &&& 0 < self.y <= i32::MAX
        &&& 0 < self.z <= i32::MAX
        &&& self.x + self.y + self.z <= u32::MAX
    }
}

impl VoxelCollision {
    /// Extent of the grid along each axis.
    pub open spec fn extent(&self, g: Arith) -> Vec3 {
        vec_scaled(
            g,
            Vec3 {
                x: g(Op::FromInt(self.num_voxels.x as i64)),
                y: g(Op::FromInt(self.num_voxels.y as i64)),
                z: g(Op::FromInt(self.num_voxels.z as i64)),
            },
            self.voxel_resolution,
        )
    }

    /// Corner of the grid with the smallest coordinates.
    pub fn grid_min(&self) -> (r: Vec3)
        ensures
            r == self.grid_min,
    {
        self.grid_min
    }

    /// Extent of the grid; its far corner is `grid_min + grid_size`.
    pub fn grid_size<F: Fn(Op) -> Single>(&self, f: &F) -> (r: Vec3)
        requires
            total(*f),
        ensures
            forall|g: Arith| #[trigger] computes(*f, g) ==> r == self.extent(g),
    {
        let counts: Vec3 = Vec3 {
            x: f(Op::FromInt(self.num_voxels.x as i64)),
            y: f(Op::FromInt(self.num_voxels.y as i64)),
            z: f(Op::FromInt(self.num_voxels.z as i64)),
        };
        counts.scaled(f, self.voxel_resolution)
    }

    /// Edge length of a voxel.
    pub fn voxel_resolution(&self) -> (r: Single)
        ensures
            r == self.voxel_resolution,
    {
        self.voxel_resolution
    }

    /// Whether the voxel that holds a point is solid.
    pub open spec fn solid_at(&self, g: Arith, p: Vec3) -> Option<bool> {
        let v = vec_divided(g, vec_difference(g, p, self.grid_min), self.voxel_resolution);
        let x = g(Op::Floor(v.x));
        let y = g(Op::Floor(v.y));
        let z = g(Op::Floor(v.z));
        if x.below(single(ZERO)) || y.below(single(ZERO)) || z.below(single(ZERO)) {
            Some(false)
        } else {
            self.solid(
                Cell {
                    x: x.truncated(i64::MIN as int, i64::MAX as int) as i64,
                    y: y.truncated(i64::MIN as int, i64::MAX as int) as i64,
                    z: z.truncated(i64::MIN as int, i64::MAX as int) as i64,
                },
            )
        }
    }

    /// True if the voxel that holds the point `p` is solid.
    pub fn is_solid<F: Fn(Op) -> Single>(&self, f: &F, p: Vec3) -> (r: Result<bool, Fault>)
        requires
            total(*f),
        ensures
            forall|g: Arith| #[trigger]
                computes(*f, g) ==> match self.solid_at(g, p) {
                    Some(solid) => r == Ok::<bool, Fault>(solid),
                    None => r == Err::<bool, Fault>(Fault),
                },
    {
        let from_min: Vec3 = p.minus(f, self.grid_min);
        let v: Vec3 = from_min.divided(f, self.voxel_resolution);
        let x: Single = f(Op::Floor(v.x));
        let y: Single = f(Op::Floor(v.y));
        let z: Single = f(Op::Floor(v.z));
        // A point below the grid must not wrap round to a voxel inside.
        if x.lt(single(ZERO)) || y.lt(single(ZERO)) || z.lt(single(ZERO)) {
            return Ok(false);
        }
        self.is_voxel_solid(
            Cell {
                x: x.truncate(i64::MIN, i64::MAX),
                y: y.truncate(i64::MIN, i64::MAX),
                z: z.truncate(i64::MIN, i64::MAX),
            },
        )
    }

    /// The stretch of the ray inside of the grid.
    pub open spec fn inside(&self, g: Arith, origin: Vec3, dir: Vec3) -> Option<Stretch> {
        let low = self.grid_min;
        let high = vec_sum(g, self.grid_min, self.extent(g));
        match clipped(
            g,
            Stretch { near: single(ZERO), far: single(INFINITY) },
            origin.x,
            dir.x,
            low.x,
            high.x,
        ) {
            None => None,
            Some(x) => match clipped(g, x, origin.y, dir.y, low.y, high.y) {
                None => None,
                Some(y) => clipped(g, y, origin.z, dir.z, low.z, high.z),
            },
        }
    }

    /// The walk in the voxel where the ray, `near` along it, enters the grid.
    pub open spec fn walk_start(&self, g: Arith, origin: Vec3, dir: Vec3, near: Single) -> RayWalk {
        let res = self.voxel_resolution;
        let min = self.grid_min;
        let entry = vec_sum(g, origin, vec_scaled(g, dir, near));
        let x = entry_index(g, entry.x, min.x, res, self.num_voxels.x);
        let y = entry_index(g, entry.y, min.y, res, self.num_voxels.y);
        let z = entry_index(g, entry.z, min.z, res, self.num_voxels.z);
        RayWalk {
            cell: Cell { x: x as i64, y: y as i64, z: z as i64 },
            t: near,
            t_max: Vec3 {
                x: next_crossing(g, origin.x, dir.x, min.x, res, x),
                y: next_crossing(g, origin.y, dir.y, min.y, res, y),
                z: next_crossing(g, origin.z, dir.z, min.z, res, z),
            },
            t_delta: Vec3 {
                x: crossing_step(g, dir.x, res),
                y: crossing_step(g, dir.y, res),
                z: crossing_step(g, dir.z, res),
            },
            step: Cell {
                x: sign(dir.x) as i64,
                y: sign(dir.y) as i64,
                z: sign(dir.z) as i64,
            },
        }
    }

    /// How a walk of at most `steps` voxels ends, along a ray with the given
    /// direction.
    pub open spec fn walk_end(
        &self,
        g: Arith,
        walk: RayWalk,
        dir: Vec3,
        max_dist: Single,
        steps: nat,
    ) -> WalkEnd
        decreases steps,
    {
        if steps == 0 {
            WalkEnd::Miss
        } else {
            match self.solid(walk.cell) {
                None => WalkEnd::Lost,
                Some(true) => WalkEnd::Hit(walk.t),
                Some(false) => {
                    let next = walk.next(g);
                    if !self.num_voxels.holds(next.cell) || out_of_reach(
                        g,
                        dir,
                        next.t,
                        max_dist,
                    ) {
                        WalkEnd::Miss
                    } else {
                        self.walk_end(g, next, dir, max_dist, (steps - 1) as nat)
                    }
                },
            }
        }
    }

    /// The first solid voxel along a ray within the distance `max_dist`.
    pub open spec fn cast(
        &self,
        g: Arith,
        origin: Vec3,
        dir: Vec3,
        max_dist: Single,
    ) -> Result<Option<RayHit>, Fault> {
        if self.nodes@.len() == 0 {
            Ok(None)
        } else {
            match self.inside(g, origin, dir) {
                None => Ok(None),
                Some(stretch) => if out_of_reach(g, dir, stretch.near, max_dist) {
                    Ok(None)
                } else if !self.num_voxels.walkable() {
                    Err(Fault)
                } else {
                    let n = self.num_voxels;
                    match self.walk_end(
                        g,
                        self.walk_start(g, origin, dir, stretch.near),
                        dir,
                        max_dist,
                        (n.x + n.y + n.z) as nat,
                    ) {
                        WalkEnd::Lost => Err(Fault),
                        WalkEnd::Miss => Ok(None),
                        WalkEnd::Hit(t) => Ok(Some(hit_at(g, origin, dir, t))),
                    }
                },
            }
        }
    }

    /// Cast a ray and return the first solid voxel that it meets, or `None` if
    /// it leaves the grid without meeting one within the distance `max_dist`. The
    /// direction may have any length.
    pub fn ray_cast<F: Fn(Op) -> Single>(
        &self,
        f: &F,
        origin: Vec3,
        dir: Vec3,
        max_dist: Single,
    ) -> (r: Result<Option<RayHit>, Fault>)
        requires
            total(*f),
        ensures
            forall|g: Arith| #[trigger]
                computes(*f, g) ==> r == self.cast(g, origin, dir, max_dist),
    {
        if self.nodes.len() == 0 {
            return Ok(None);
        }
        let stretch: Stretch = match self.clip_to_grid(f, origin, dir) {
            None => {
                return Ok(None);
            },
            Some(stretch) => stretch,
        };
        if past(f, dir, stretch.near, max_dist) {
            return Ok(None);
        }
        let n: GridSize = self.num_voxels;
        if n.x == 0 || n.y == 0 || n.z == 0 || n.x > 0x7fff_ffff || n.y > 0x7fff_ffff || n.z
            > 0x7fff_ffff || n.x as u64 + n.y as u64 + n.z as u64 > 0xffff_ffff {
            return Err(Fault);
        }
        let mut walk: RayWalk = self.start_walk(f, origin, dir, stretch.near);
        let ghost first = walk;
        let all: u32 = n.x + n.y + n.z;
        let mut steps: u32 = all;
        while steps > 0
            invariant
                total(*f),
                n == self.num_voxels,
                all == n.x + n.y + n.z,
                steps <= all,
                self.num_voxels.holds(walk.cell),
                walk.neighbourly(),
                forall|g: Arith| #[trigger]
                    computes(*f, g) ==> self.walk_end(g, first, dir, max_dist, all as nat)
                        == self.walk_end(g, walk, dir, max_dist, steps as nat),
                forall|g: Arith| #[trigger]
                    computes(*f, g) ==> self.cast(g, origin, dir, max_dist)
                        == match self.walk_end(g, first, dir, max_dist, all as nat) {
                        WalkEnd::Lost => Err::<Option<RayHit>, Fault>(Fault),
                        WalkEnd::Miss => Ok::<Option<RayHit>, Fault>(None),
                        WalkEnd::Hit(t) => Ok::<Option<RayHit>, Fault>(
                            Some(hit_at(g, origin, dir, t)),
                        ),
                    },
            decreases steps,
        {
            match self.is_voxel_solid(walk.cell) {
                Err(_) => {
                    return Err(Fault);
                },
                Ok(true) => {
                    let along: Vec3 = dir.scaled(f, walk.t);
                    let pos: Vec3 = origin.plus(f, along);
                    let t: Single = along.length(f);
                    return Ok(Some(RayHit { pos, t }));
                },
                Ok(false) => {},
            }
            walk = walk.advance(f);
            let cell: Cell = walk.cell;
            if cell.x < 0 || cell.y < 0 || cell.z < 0 || cell.x >= n.x as i64 || cell.y
                >= n.y as i64 || cell.z >= n.z as i64 || past(f, dir, walk.t, max_dist) {
                return Ok(None);
            }
            steps = steps - 1;
        }
        Ok(None)
    }

    fn clip_to_grid<F: Fn(Op) -> Single>(&self, f: &F, origin: Vec3, dir: Vec3) -> (r: Option<
        Stretch,
    >)
        requires
            total(*f),
        ensures
            forall|g: Arith| #[trigger] computes(*f, g) ==> r == self.inside(g, origin, dir),
    {
        let low: Vec3 = self.grid_min;
        let size: Vec3 = self.grid_size(f);
        let high: Vec3 = low.plus(f, size);
        let whole: Stretch = Stretch { near: single(ZERO), far: single(INFINITY) };
        match clip(f, whole, origin.x, dir.x, low.x, high.x) {
            None => None,
            Some(x) => match clip(f, x, origin.y, dir.y, low.y, high.y) {
                None => None,
                Some(y) => clip(f, y, origin.z, dir.z, low.z, high.z),
            },
        }
    }

    fn start_walk<F: Fn(Op) -> Single>(
        &self,
        f: &F,
        origin: Vec3,
        dir: Vec3,
        near: Single,
    ) -> (r: RayWalk)
        requires
            total(*f),
            self.num_voxels.walkable(),
        ensures
            self.num_voxels.holds(r.cell),
            r.neighbourly(),
            forall|g: Arith| #[trigger]
                computes(*f, g) ==> r == self.walk_start(g, origin, dir, near),
    {
        let res: Single = self.voxel_resolution;
        let min: Vec3 = self.grid_min;
        let along: Vec3 = dir.scaled(f, near);
        let entry: Vec3 = origin.plus(f, along);
        let x: i64 = index_at(f, entry.x, min.x, res, self.num_voxels.x);
        let y: i64 = index_at(f, entry.y, min.y, res, self.num_voxels.y);
        let z: i64 = index_at(f, entry.z, min.z, res, self.num_voxels.z);
        RayWalk {
            cell: Cell { x, y, z },
            t: near,
            t_max: Vec3 {
                x: crossing_after(f, origin.x, dir.x, min.x, res, x),
                y: crossing_after(f, origin.y, dir.y, min.y, res, y),
                z: crossing_after(f, origin.z, dir.z, min.z, res, z),
            },
            t_delta: Vec3 {
                x: crossing_distance(f, dir.x, res),
                y: crossing_distance(f, dir.y, res),
                z: crossing_distance(f, dir.z, res),
            },
            step: Cell { x: sign_i(dir.x), y: sign_i(dir.y), z: sign_i(dir.z) },
        }
    }
}

fn past<F: Fn(Op) -> Single>(f: &F, dir: Vec3, t: Single, max_dist: Single) -> (r: bool)
    requires
        total(*f),
    ensures
        forall|g: Arith| #[trigger] computes(*f, g) ==> r == out_of_reach(g, dir, t, max_dist),
{
    if t.ge(single(INFINITY)) {
        return true;
    }
    let way: Vec3 = dir.scaled(f, t);
    way.length(f).gt(max_dist)
}

fn clip<F: Fn(Op) -> Single>(
    f: &F,
    s: Stretch,
    o: Single,
    d: Single,
    low: Single,
    high: Single,
) -> (r: Option<Stretch>)
    requires
        total(*f),
    ensures
        forall|g: Arith| #[trigger] computes(*f, g) ==> r == clipped(g, s, o, d, low, high),
{
    if d.abs().gt(single(PARALLEL_EPSILON)) {
        let to_low: Single = f(Op::Sub(low, o));
        let to_high: Single = f(Op::Sub(high, o));
        let t1: Single = f(Op::Div(to_low, d));
        let t2: Single = f(Op::Div(to_high, d));
        let swap: bool = t1.gt(t2);
        let enter: Single = if swap {
            t2
        } else {
            t1
        };
        let leave: Single = if swap {
            t1
        } else {
            t2
        };
        let near: Single = if enter.gt(s.near) {
            enter
        } else {
            s.near
        };
        let far: Single = if leave.lt(s.far) {
            leave
        } else {
            s.far
        };
        if near.gt(far) {
            None
        } else {
            Some(Stretch { near, far })
        }
    } else if o.lt(low) || o.ge(high) {
        None
    } else {
        Some(s)
    }
}

/// The sign of a number as an integer; zero for a NaN.
fn sign_i(d: Single) -> (r: i64)
    ensures
        r == sign(d),
{
    if d.gt(single(ZERO)) {
        1
    } else if d.lt(single(ZERO)) {
        -1
    } else {
        0
    }
}

fn index_at<F: Fn(Op) -> Single>(f: &F, at: Single, min: Single, res: Single, n: u32) -> (r: i64)
    requires
        total(*f),
        0 < n <= i32::MAX,
    ensures
        0 <= r < n,
        forall|g: Arith| #[trigger] computes(*f, g) ==> r == entry_index(g, at, min, res, n),
{
    let from_min: Single = f(Op::Sub(at, min));
    let voxels: Single = f(Op::Div(from_min, res));
    let floor: Single = f(Op::Floor(voxels));
    let i: i64 = floor.truncate(-0x8000_0000, 0x7fff_ffff);
    if i < 0 {
        0
    } else if i >= n as i64 {
        n as i64 - 1
    } else {
        i
    }
}

fn crossing_after<F: Fn(Op) -> Single>(
    f: &F,
    o: Single,
    d: Single,
    min: Single,
    res: Single,
    index: i64,
) -> (r: Single)
    requires
        total(*f),
        0 <= index <= i32::MAX,
    ensures
        forall|g: Arith| #[trigger]
            computes(*f, g) ==> r == next_crossing(g, o, d, min, res, index as int),
{
    if d.abs().gt(single(PARALLEL_EPSILON)) {
        let plane: i64 = if d.gt(single(ZERO)) {
            index + 1
        } else {
            index
        };
        let number: Single = f(Op::FromInt(plane));
        let scaled: Single = f(Op::Mul(number, res));
        let at: Single = f(Op::Add(min, scaled));
        let offset: Single = f(Op::Sub(at, o));
        let inverse: Single = f(Op::Div(single(ONE), d));
        f(Op::Mul(offset, inverse))
    } else {
        single(INFINITY)
    }
}

fn crossing_distance<F: Fn(Op) -> Single>(f: &F, d: Single, res: Single) -> (r: Single)
    requires
        total(*f),
    ensures
        forall|g: Arith| #[trigger] computes(*f, g) ==> r == crossing_step(g, d, res),
{
    if d.abs().gt(single(PARALLEL_EPSILON)) {
        let inverse: Single = f(Op::Div(single(ONE), d));
        f(Op::Mul(res, inverse.abs()))
    } else {
        single(INFINITY)
    }
}

} // verus!
