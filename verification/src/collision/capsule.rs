//! Pushing a vertical capsule out of solid voxels.

use crate::arith::{
    between, computes, hold_between, total, vec_difference, vec_divided, vec_dot, vec_greater, vec_length, vec_lesser,
    vec_scaled, vec_sum, Arith, Op, Vec3, HALF, ZERO,
};
use crate::collision::octree::{Cell, Fault, VoxelCollision};
use crate::single::{single, Single};
use vstd::prelude::*;

verus! {

/// A penetration of at most this depth, 1e-4, is left alone: it keeps the
/// resolver from oscillating on rounding noise.
pub const PENETRATION_EPSILON: u32 = 0x38d1_b717;

/// Passes over a corner. Three walls that meet are the worst case; one more
/// pass is kept in reserve.
pub const MAX_RESOLVE_ITERATIONS: usize = 4;

/// The number of walls that are remembered while a corner is resolved.
pub const MAX_NORMALS: usize = 3;

/// Below this squared distance, 1e-12, a point counts as inside of a voxel.
pub const INSIDE_EPSILON: u32 = 0x2b8c_bccc;

/// The axis-parallel segment that a capsule is swept along, and its radius.
#[derive(Clone, Copy, Debug, PartialEq, Eq, Structural)]
pub struct Capsule {
    pub center: Vec3,
    pub bottom: Single,
    pub top: Single,
    pub radius: Single,
}

/// What one voxel does to a capsule.
#[derive(Clone, Copy, Debug, PartialEq, Eq, Structural)]
pub struct Push {
    pub by: Vec3,
    /// Depth of the penetration.
    pub depth: Single,
}

/// The deepest penetration met so far.
#[derive(Clone, Copy, Debug, PartialEq, Eq, Structural)]
pub struct Deepest {
    pub push: Push,
    pub found: bool,
}

/// The inclusive range of voxel indices that a capsule can touch.
#[derive(Clone, Copy, Debug, PartialEq, Eq, Structural)]
pub struct CellBox {
    pub min: Cell,
    pub max: Cell,
}

pub open spec fn capsule_at(g: Arith, center: Vec3, half_height: Single, radius: Single) -> Capsule {
    Capsule {
        center,
        bottom: g(Op::Sub(center.y, half_height)),
        top: g(Op::Add(center.y, half_height)),
        radius,
    }
}

pub open spec fn floor_index(g: Arith, at: Single, min: Single, res: Single) -> int {
    g(Op::Floor(g(Op::Div(g(Op::Sub(at, min)), res)))).truncated(i32::MIN as int, i32::MAX as int)
}

impl Capsule {
    /// The height on the segment that is nearest to the heights of a voxel.
    /// There is none where the segment is upside down.
    pub open spec fn height_near(self, g: Arith, low: Single, high: Single) -> Option<Single> {
        if self.top.below(low) {
            Some(self.top)
        } else if high.below(self.bottom) {
            Some(self.bottom)
        } else {
            between(
                g(Op::Mul(g(Op::Add(low, high)), single(HALF))),
                self.bottom,
                self.top,
            )
        }
    }
}

/// How far to move along one axis to leave the interval `low..high` with a
/// margin: towards the nearer end, and up where both are as near.
pub open spec fn escape(g: Arith, at: Single, low: Single, high: Single, margin: Single) -> Single {
    let down = g(Op::Sub(at, low));
    let up = g(Op::Sub(high, at));
    if down.below(up) {
        g(Op::Add(down, margin)).negated()
    } else {
        g(Op::Add(up, margin))
    }
}

/// The shortest of three moves along the axes; the earlier axis where two are
/// as short.
pub open spec fn shortest(e: Vec3) -> Push {
    let x = e.x.without_sign();
    let y = e.y.without_sign();
    let z = e.z.without_sign();
    let zero = single(ZERO);
    if x.at_most(y) && x.at_most(z) {
        Push { by: Vec3 { x: e.x, y: zero, z: zero }, depth: x }
    } else if y.at_most(z) {
        Push { by: Vec3 { x: zero, y: e.y, z: zero }, depth: y }
    } else {
        Push { by: Vec3 { x: zero, y: zero, z: e.z }, depth: z }
    }
}

/// How a voxel pushes a sphere, if it reaches into it: away from the nearest
/// point of the voxel, or, where the centre lies inside of the voxel, through
/// the nearest face.
pub open spec fn sphere_push(
    g: Arith,
    sphere: Vec3,
    radius: Single,
    low: Vec3,
    high: Vec3,
) -> Option<Push> {
    let away = vec_difference(g, sphere, vec_lesser(vec_greater(sphere, low), high));
    let squared = vec_dot(g, away, away);
    if g(Op::Mul(radius, radius)).at_most(squared) {
        None
    } else if single(INSIDE_EPSILON).below(squared) {
        let distance = g(Op::Sqrt(squared));
        let depth = g(Op::Sub(radius, distance));
        Some(Push { by: vec_scaled(g, away, g(Op::Div(depth, distance))), depth })
    } else {
        Some(
            shortest(
                Vec3 {
                    x: escape(g, sphere.x, low.x, high.x, radius),
                    y: escape(g, sphere.y, low.y, high.y, radius),
                    z: escape(g, sphere.z, low.z, high.z, radius),
                },
            ),
        )
    }
}

impl VoxelCollision {
    pub open spec fn voxel_low(&self, g: Arith, cell: Cell) -> Vec3 {
        let index = Vec3 {
            x: g(Op::FromInt(cell.x)),
            y: g(Op::FromInt(cell.y)),
            z: g(Op::FromInt(cell.z)),
        };
        vec_sum(g, self.grid_min, vec_scaled(g, index, self.voxel_resolution))
    }

    pub open spec fn voxel_high(&self, g: Arith, cell: Cell) -> Vec3 {
        let res = self.voxel_resolution;
        vec_sum(g, self.voxel_low(g, cell), Vec3 { x: res, y: res, z: res })
    }

    /// How one voxel pushes the capsule, if it does. `None` where the query has
    /// no answer.
    pub open spec fn push_of(&self, g: Arith, capsule: Capsule, cell: Cell) -> Option<Option<Push>> {
        match self.solid(cell) {
            None => None,
            Some(false) => Some(None),
            Some(true) => {
                let low = self.voxel_low(g, cell);
                let high = self.voxel_high(g, cell);
                match capsule.height_near(g, low.y, high.y) {
                    None => None,
                    Some(height) => Some(
                        sphere_push(
                            g,
                            Vec3 { x: capsule.center.x, y: height, z: capsule.center.z },
                            capsule.radius,
                            low,
                            high,
                        ),
                    ),
                }
            },
        }
    }

    /// The deepest penetration once another voxel has been looked at: a later
    /// voxel counts only if it goes strictly deeper.
    pub open spec fn deepened(
        &self,
        g: Arith,
        capsule: Capsule,
        best: Deepest,
        cell: Cell,
    ) -> Option<Deepest> {
        match self.push_of(g, capsule, cell) {
            None => None,
            Some(None) => Some(best),
            Some(Some(push)) => if best.push.depth.below(push.depth) {
                Some(Deepest { push, found: true })
            } else {
                Some(best)
            },
        }
    }

    /// Look at the voxels of a row from `x` on, in order.
    pub open spec fn along_row(
        &self,
        g: Arith,
        capsule: Capsule,
        cells: CellBox,
        x: int,
        y: int,
        z: int,
        best: Deepest,
    ) -> Option<Deepest>
        decreases cells.max.x - x + 1,
    {
        if x > cells.max.x {
            Some(best)
        } else {
            match self.deepened(
                g,
                capsule,
                best,
                Cell { x: x as i64, y: y as i64, z: z as i64 },
            ) {
                None => None,
                Some(next) => self.along_row(g, capsule, cells, x + 1, y, z, next),
            }
        }
    }

    /// Look at the rows of a layer from `y` on, in order.
    pub open spec fn along_layer(
        &self,
        g: Arith,
        capsule: Capsule,
        cells: CellBox,
        y: int,
        z: int,
        best: Deepest,
    ) -> Option<Deepest>
        decreases cells.max.y - y + 1,
    {
        if y > cells.max.y {
            Some(best)
        } else {
            match self.along_row(g, capsule, cells, cells.min.x as int, y, z, best) {
                None => None,
                Some(next) => self.along_layer(g, capsule, cells, y + 1, z, next),
            }
        }
    }

    /// Look at the layers of a box from `z` on, in order.
    pub open spec fn along_box(
        &self,
        g: Arith,
        capsule: Capsule,
        cells: CellBox,
        z: int,
        best: Deepest,
    ) -> Option<Deepest>
        decreases cells.max.z - z + 1,
    {
        if z > cells.max.z {
            Some(best)
        } else {
            match self.along_layer(g, capsule, cells, cells.min.y as int, z, best) {
                None => None,
                Some(next) => self.along_box(g, capsule, cells, z + 1, next),
            }
        }
    }

    /// The voxels that the bounding box of a capsule touches.
    pub open spec fn touched(&self, g: Arith, capsule: Capsule) -> CellBox {
        let res = self.voxel_resolution;
        let min = self.grid_min;
        let c = capsule.center;
        let r = capsule.radius;
        CellBox {
            min: Cell {
                x: floor_index(g, g(Op::Sub(c.x, r)), min.x, res) as i64,
                y: floor_index(g, g(Op::Sub(capsule.bottom, r)), min.y, res) as i64,
                z: floor_index(g, g(Op::Sub(c.z, r)), min.z, res) as i64,
            },
            max: Cell {
                x: floor_index(g, g(Op::Add(c.x, r)), min.x, res) as i64,
                y: floor_index(g, g(Op::Add(capsule.top, r)), min.y, res) as i64,
                z: floor_index(g, g(Op::Add(c.z, r)), min.z, res) as i64,
            },
        }
    }

    /// The deepest penetration of a capsule by a solid voxel.
    pub open spec fn deepest(&self, g: Arith, capsule: Capsule) -> Option<Deepest> {
        let cells = self.touched(g, capsule);
        self.along_box(g, capsule, cells, cells.min.z as int, nothing_deep())
    }
}

/// The state of the search before any voxel has been looked at.
pub open spec fn nothing_deep() -> Deepest {
    let zero = single(ZERO);
    Deepest {
        push: Push {
            by: Vec3 { x: zero, y: zero, z: zero },
            depth: single(PENETRATION_EPSILON),
        },
        found: false,
    }
}

/// A push without the parts that would move back into the walls met before.
pub open spec fn kept_clear(g: Arith, push: Vec3, normals: Seq<Vec3>) -> Vec3
    decreases normals.len(),
{
    if normals.len() == 0 {
        push
    } else {
        let before = kept_clear(g, push, normals.drop_last());
        let dot = vec_dot(g, before, normals.last());
        if dot.below(single(ZERO)) {
            vec_difference(g, before, vec_scaled(g, normals.last(), dot))
        } else {
            before
        }
    }
}

/// The walls known once a push has been applied: its direction joins them if
/// it is long enough and there is room.
pub open spec fn with_normal(g: Arith, normals: Seq<Vec3>, push: Vec3) -> Seq<Vec3> {
    let length = vec_length(g, push);
    if single(PENETRATION_EPSILON).below(length) && normals.len() < MAX_NORMALS {
        normals.push(vec_divided(g, push, length))
    } else {
        normals
    }
}

impl VoxelCollision {
    /// The displacement after at most `passes` more pushes of a capsule that
    /// has been moved by `sum` to `center`, and whether there was any push.
    pub open spec fn resolved(
        &self,
        g: Arith,
        center: Vec3,
        half_height: Single,
        radius: Single,
        sum: Vec3,
        normals: Seq<Vec3>,
        pushed: bool,
        passes: nat,
    ) -> Option<(Vec3, bool)>
        decreases passes,
    {
        if passes == 0 {
            Some((sum, pushed))
        } else {
            match self.deepest(g, capsule_at(g, center, half_height, radius)) {
                None => None,
                Some(best) => if !best.found {
                    Some((sum, pushed))
                } else {
                    let by = kept_clear(g, best.push.by, normals);
                    self.resolved(
                        g,
                        vec_sum(g, center, by),
                        half_height,
                        radius,
                        vec_sum(g, sum, by),
                        with_normal(g, normals, best.push.by),
                        true,
                        (passes - 1) as nat,
                    )
                },
            }
        }
    }

    /// The displacement that frees a capsule, if it needs one.
    pub open spec fn capsule_push(
        &self,
        g: Arith,
        center: Vec3,
        half_height: Single,
        radius: Single,
    ) -> Result<Option<Vec3>, Fault> {
        let zero = single(ZERO);
        let epsilon = single(PENETRATION_EPSILON);
        if self.nodes@.len() == 0 {
            Ok(None)
        } else {
            match self.resolved(
                g,
                center,
                half_height,
                radius,
                Vec3 { x: zero, y: zero, z: zero },
                Seq::empty(),
                false,
                MAX_RESOLVE_ITERATIONS as nat,
            ) {
                None => Err(Fault),
                Some((sum, pushed)) => if pushed && g(Op::Mul(epsilon, epsilon)).below(
                    vec_dot(g, sum, sum),
                ) {
                    Ok(Some(sum))
                } else {
                    Ok(None)
                },
            }
        }
    }

    /// Resolve a vertical capsule out of any solid voxels it overlaps. Its
    /// segment runs from `half_height` below the centre to `half_height` above,
    /// swept by `radius`. Returns the displacement to add to the centre so that
    /// the capsule no longer penetrates, or `None` if it is clear already.
    pub fn query_capsule<F: Fn(Op) -> Single>(
        &self,
        f: &F,
        center: Vec3,
        half_height: Single,
        radius: Single,
    ) -> (r: Result<Option<Vec3>, Fault>)
        requires
            total(*f),
        ensures
            forall|g: Arith| #[trigger]
                computes(*f, g) ==> r == self.capsule_push(g, center, half_height, radius),
    {
        if self.nodes.len() == 0 {
            return Ok(None);
        }
        self.resolve_iterative(f, center, half_height, radius)
    }

    /// Push the capsule until it is clear or the passes are used up. Each push
    /// is first freed of what would undo an earlier one.
    fn resolve_iterative<F: Fn(Op) -> Single>(
        &self,
        f: &F,
        center: Vec3,
        half_height: Single,
        radius: Single,
    ) -> (r: Result<Option<Vec3>, Fault>)
        requires
            total(*f),
            self.nodes@.len() > 0,
        ensures
            forall|g: Arith| #[trigger]
                computes(*f, g) ==> r == self.capsule_push(g, center, half_height, radius),
    {
        let mut at: Vec3 = center;
        let mut sum: Vec3 = Vec3::zero();
        let mut normals: Vec<Vec3> = Vec::new();
        let mut pushed: bool = false;
        let mut passes: usize = MAX_RESOLVE_ITERATIONS;
        let ghost start = sum;
        let mut clear: bool = false;
        while passes > 0 && !clear
            invariant
                total(*f),
                normals@.len() <= MAX_NORMALS,
                forall|g: Arith| #[trigger]
                    computes(*f, g) ==> self.resolved(
                        g,
                        center,
                        half_height,
                        radius,
                        start,
                        Seq::empty(),
                        false,
                        MAX_RESOLVE_ITERATIONS as nat,
                    ) == if clear {
                        Some((sum, pushed))
                    } else {
                        self.resolved(
                            g,
                            at,
                            half_height,
                            radius,
                            sum,
                            normals@,
                            pushed,
                            passes as nat,
                        )
                    },
                start == (Vec3 { x: single(ZERO), y: single(ZERO), z: single(ZERO) }),
                self.nodes@.len() > 0,
            decreases passes, if clear { 0int } else { 1 },
        {
            match self.deepest_penetration_capsule(f, at, half_height, radius) {
                Err(_) => {
                    return Err(Fault);
                },
                Ok(None) => {
                    clear = true;
                },
                Ok(Some(push)) => {
                    pushed = true;
                    let by: Vec3 = keep_clear(f, push, &normals);
                    // The wall direction comes from the push as it was found, so
                    // that it stays the same from pass to pass.
                    let length: Single = push.length(f);
                    if length.gt(single(PENETRATION_EPSILON)) && normals.len() < MAX_NORMALS {
                        let normal: Vec3 = push.divided(f, length);
                        normals.push(normal);
                    }
                    at = at.plus(f, by);
                    sum = sum.plus(f, by);
                    passes = passes - 1;
                },
            }
        }
        let epsilon: Single = single(PENETRATION_EPSILON);
        let threshold: Single = f(Op::Mul(epsilon, epsilon));
        let squared: Single = sum.dot(f, sum);
        if pushed && squared.gt(threshold) {
            Ok(Some(sum))
        } else {
            Ok(None)
        }
    }

    /// The push-out of the solid voxel that reaches deepest into the capsule.
    fn deepest_penetration_capsule<F: Fn(Op) -> Single>(
        &self,
        f: &F,
        center: Vec3,
        half_height: Single,
        radius: Single,
    ) -> (r: Result<Option<Vec3>, Fault>)
        requires
            total(*f),
        ensures
            forall|g: Arith| #[trigger]
                computes(*f, g) ==> match self.deepest(
                    g,
                    capsule_at(g, center, half_height, radius),
                ) {
                    None => r == Err::<Option<Vec3>, Fault>(Fault),
                    Some(best) => r == Ok::<Option<Vec3>, Fault>(
                        if best.found {
                            Some(best.push.by)
                        } else {
                            None
                        },
                    ),
                },
    {
        let bottom: Single = f(Op::Sub(center.y, half_height));
        let top: Single = f(Op::Add(center.y, half_height));
        let capsule: Capsule = Capsule { center, bottom, top, radius };
        let cells: CellBox = self.touched_cells(f, capsule);
        let mut best: Deepest = Deepest {
            push: Push { by: Vec3::zero(), depth: single(PENETRATION_EPSILON) },
            found: false,
        };
        let mut z: i64 = cells.min.z;
        while z <= cells.max.z
            invariant
                total(*f),
                i32::MIN <= z <= i32::MAX + 1,
                cells.max.z <= i32::MAX,
                i32::MIN <= cells.min.x <= i32::MAX,
                i32::MIN <= cells.min.y <= i32::MAX,
                cells.max.x <= i32::MAX,
                cells.max.y <= i32::MAX,
                forall|g: Arith| #[trigger]
                    computes(*f, g) ==> self.along_box(
                        g,
                        capsule,
                        cells,
                        cells.min.z as int,
                        nothing_deep(),
                    ) == self.along_box(g, capsule, cells, z as int, best),
                forall|g: Arith| #[trigger]
                    computes(*f, g) ==> self.deepest(
                        g,
                        capsule_at(g, center, half_height, radius),
                    ) == self.along_box(g, capsule, cells, cells.min.z as int, nothing_deep()),
            decreases cells.max.z - z + 1,
        {
            match self.search_layer(f, capsule, cells, z, best) {
                None => {
                    return Err(Fault);
                },
                Some(next) => {
                    best = next;
                },
            }
            z = z + 1;
        }
        if best.found {
            Ok(Some(best.push.by))
        } else {
            Ok(None)
        }
    }

    fn touched_cells<F: Fn(Op) -> Single>(&self, f: &F, capsule: Capsule) -> (r: CellBox)
        requires
            total(*f),
        ensures
            i32::MIN <= r.min.x <= i32::MAX,
            i32::MIN <= r.min.y <= i32::MAX,
            i32::MIN <= r.min.z <= i32::MAX,
            i32::MIN <= r.max.x <= i32::MAX,
            i32::MIN <= r.max.y <= i32::MAX,
            i32::MIN <= r.max.z <= i32::MAX,
            forall|g: Arith| #[trigger] computes(*f, g) ==> r == self.touched(g, capsule),
    {
        let res: Single = self.voxel_resolution;
        let min: Vec3 = self.grid_min;
        let c: Vec3 = capsule.center;
        let radius: Single = capsule.radius;
        let x0: Single = f(Op::Sub(c.x, radius));
        let y0: Single = f(Op::Sub(capsule.bottom, radius));
        let z0: Single = f(Op::Sub(c.z, radius));
        let x1: Single = f(Op::Add(c.x, radius));
        let y1: Single = f(Op::Add(capsule.top, radius));
        let z1: Single = f(Op::Add(c.z, radius));
        CellBox {
            min: Cell {
                x: index_of(f, x0, min.x, res),
                y: index_of(f, y0, min.y, res),
                z: index_of(f, z0, min.z, res),
            },
            max: Cell {
                x: index_of(f, x1, min.x, res),
                y: index_of(f, y1, min.y, res),
                z: index_of(f, z1, min.z, res),
            },
        }
    }

    fn search_layer<F: Fn(Op) -> Single>(
        &self,
        f: &F,
        capsule: Capsule,
        cells: CellBox,
        z: i64,
        start: Deepest,
    ) -> (r: Option<Deepest>)
        requires
            total(*f),
            i32::MIN <= cells.min.x <= i32::MAX,
            i32::MIN <= cells.min.y <= i32::MAX,
            cells.max.x <= i32::MAX,
            cells.max.y <= i32::MAX,
        ensures
            forall|g: Arith| #[trigger]
                computes(*f, g) ==> r == self.along_layer(
                    g,
                    capsule,
                    cells,
                    cells.min.y as int,
                    z as int,
                    start,
                ),
    {
        let mut best: Deepest = start;
        let mut y: i64 = cells.min.y;
        while y <= cells.max.y
            invariant
                total(*f),
                i32::MIN <= y <= i32::MAX + 1,
                i32::MIN <= cells.min.x <= i32::MAX,
                cells.max.x <= i32::MAX,
                cells.max.y <= i32::MAX,
                forall|g: Arith| #[trigger]
                    computes(*f, g) ==> self.along_layer(
                        g,
                        capsule,
                        cells,
                        cells.min.y as int,
                        z as int,
                        start,
                    ) == self.along_layer(g, capsule, cells, y as int, z as int, best),
            decreases cells.max.y - y + 1,
        {
            match self.search_row(f, capsule, cells, y, z, best) {
                None => {
                    return None;
                },
                Some(next) => {
                    best = next;
                },
            }
            y = y + 1;
        }
        Some(best)
    }

    fn search_row<F: Fn(Op) -> Single>(
        &self,
        f: &F,
        capsule: Capsule,
        cells: CellBox,
        y: i64,
        z: i64,
        start: Deepest,
    ) -> (r: Option<Deepest>)
        requires
            total(*f),
            i32::MIN <= cells.min.x <= i32::MAX,
            cells.max.x <= i32::MAX,
        ensures
            forall|g: Arith| #[trigger]
                computes(*f, g) ==> r == self.along_row(
                    g,
                    capsule,
                    cells,
                    cells.min.x as int,
                    y as int,
                    z as int,
                    start,
                ),
    {
        let mut best: Deepest = start;
        let mut x: i64 = cells.min.x;
        while x <= cells.max.x
            invariant
                total(*f),
                i32::MIN <= x <= i32::MAX + 1,
                cells.max.x <= i32::MAX,
                forall|g: Arith| #[trigger]
                    computes(*f, g) ==> self.along_row(
                        g,
                        capsule,
                        cells,
                        cells.min.x as int,
                        y as int,
                        z as int,
                        start,
                    ) == self.along_row(g, capsule, cells, x as int, y as int, z as int, best),
            decreases cells.max.x - x + 1,
        {
            match self.push_from(f, capsule, Cell { x, y, z }) {
                Err(_) => {
                    return None;
                },
                Ok(None) => {},
                Ok(Some(push)) => {
                    if push.depth.gt(best.push.depth) {
                        best = Deepest { push, found: true };
                    }
                },
            }
            x = x + 1;
        }
        Some(best)
    }

    fn push_from<F: Fn(Op) -> Single>(&self, f: &F, capsule: Capsule, cell: Cell) -> (r: Result<
        Option<Push>,
        Fault,
    >)
        requires
            total(*f),
        ensures
            forall|g: Arith| #[trigger]
                computes(*f, g) ==> match self.push_of(g, capsule, cell) {
                    None => r == Err::<Option<Push>, Fault>(Fault),
                    Some(push) => r == Ok::<Option<Push>, Fault>(push),
                },
    {
        match self.is_voxel_solid(cell) {
            Err(_) => {
                return Err(Fault);
            },
            Ok(false) => {
                return Ok(None);
            },
            Ok(true) => {},
        }
        let res: Single = self.voxel_resolution;
        let index: Vec3 = Vec3 {
            x: f(Op::FromInt(cell.x)),
            y: f(Op::FromInt(cell.y)),
            z: f(Op::FromInt(cell.z)),
        };
        let scaled: Vec3 = index.scaled(f, res);
        let low: Vec3 = self.grid_min.plus(f, scaled);
        let high: Vec3 = low.plus(f, Vec3 { x: res, y: res, z: res });
        let height: Single = if capsule.top.lt(low.y) {
            capsule.top
        } else if capsule.bottom.gt(high.y) {
            capsule.bottom
        } else {
            let both: Single = f(Op::Add(low.y, high.y));
            let middle: Single = f(Op::Mul(both, single(HALF)));
            match hold_between(middle, capsule.bottom, capsule.top) {
                None => {
                    return Err(Fault);
                },
                Some(height) => height,
            }
        };
        let sphere: Vec3 = Vec3 { x: capsule.center.x, y: height, z: capsule.center.z };
        Ok(push_sphere(f, sphere, capsule.radius, low, high))
    }
}

fn push_sphere<F: Fn(Op) -> Single>(
    f: &F,
    sphere: Vec3,
    radius: Single,
    low: Vec3,
    high: Vec3,
) -> (r: Option<Push>)
    requires
        total(*f),
    ensures
        forall|g: Arith| #[trigger]
            computes(*f, g) ==> r == sphere_push(g, sphere, radius, low, high),
{
    let near: Vec3 = sphere.max(low).min(high);
    let away: Vec3 = sphere.minus(f, near);
    let squared: Single = away.dot(f, away);
    let reach: Single = f(Op::Mul(radius, radius));
    if squared.ge(reach) {
        return None;
    }
    if squared.gt(single(INSIDE_EPSILON)) {
        let distance: Single = f(Op::Sqrt(squared));
        let depth: Single = f(Op::Sub(radius, distance));
        let ratio: Single = f(Op::Div(depth, distance));
        return Some(Push { by: away.scaled(f, ratio), depth });
    }
    let e: Vec3 = Vec3 {
        x: escape_along(f, sphere.x, low.x, high.x, radius),
        y: escape_along(f, sphere.y, low.y, high.y, radius),
        z: escape_along(f, sphere.z, low.z, high.z, radius),
    };
    let x: Single = e.x.abs();
    let y: Single = e.y.abs();
    let z: Single = e.z.abs();
    let zero: Single = single(ZERO);
    if x.le(y) && x.le(z) {
        Some(Push { by: Vec3 { x: e.x, y: zero, z: zero }, depth: x })
    } else if y.le(z) {
        Some(Push { by: Vec3 { x: zero, y: e.y, z: zero }, depth: y })
    } else {
        Some(Push { by: Vec3 { x: zero, y: zero, z: e.z }, depth: z })
    }
}

fn escape_along<F: Fn(Op) -> Single>(
    f: &F,
    at: Single,
    low: Single,
    high: Single,
    margin: Single,
) -> (r: Single)
    requires
        total(*f),
    ensures
        forall|g: Arith| #[trigger] computes(*f, g) ==> r == escape(g, at, low, high, margin),
{
    let down: Single = f(Op::Sub(at, low));
    let up: Single = f(Op::Sub(high, at));
    if down.lt(up) {
        let way: Single = f(Op::Add(down, margin));
        way.neg()
    } else {
        f(Op::Add(up, margin))
    }
}

fn index_of<F: Fn(Op) -> Single>(f: &F, at: Single, min: Single, res: Single) -> (r: i64)
    requires
        total(*f),
    ensures
        i32::MIN <= r <= i32::MAX,
        forall|g: Arith| #[trigger] computes(*f, g) ==> r == floor_index(g, at, min, res),
{
    let from_min: Single = f(Op::Sub(at, min));
    let voxels: Single = f(Op::Div(from_min, res));
    let floor: Single = f(Op::Floor(voxels));
    floor.truncate(-0x8000_0000, 0x7fff_ffff)
}

fn keep_clear<F: Fn(Op) -> Single>(f: &F, push: Vec3, normals: &Vec<Vec3>) -> (r: Vec3)
    requires
        total(*f),
    ensures
        forall|g: Arith| #[trigger] computes(*f, g) ==> r == kept_clear(g, push, normals@),
{
    let mut by: Vec3 = push;
    let mut i: usize = 0;
    while i < normals.len()
        invariant
            total(*f),
            i <= normals@.len(),
            forall|g: Arith| #[trigger]
                computes(*f, g) ==> by == kept_clear(g, push, normals@.take(i as int)),
        decreases normals@.len() - i,
    {
        assert(normals@.take(i + 1).drop_last() =~= normals@.take(i as int));
        let normal: Vec3 = normals[i];
        let dot: Single = by.dot(f, normal);
        if dot.lt(single(ZERO)) {
            let back: Vec3 = normal.scaled(f, dot);
            by = by.minus(f, back);
        }
        i = i + 1;
    }
    assert(normals@.take(i as int) =~= normals@);
    by
}

} // verus!
