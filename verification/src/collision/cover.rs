//! Which voxels are looked at, in numbers.

use crate::arith::{Arith, Op, Vec3, HALF, ZERO};
use crate::collision::capsule::{floor_index, Capsule};
use crate::collision::contact::{offset, vec_within};
use crate::collision::octree::{Cell, VoxelCollision};
use crate::collision::passage::{
    in_slab, lemma_plane, lemma_quotient_size, lemma_quotient_times, plane_at,
};
use crate::rounding::{
    close, finite, floored, is_floor, lemma_few_numbers, lemma_grows, lemma_order, lemma_truncated,
    number, rounded, rounds, size, vec_finite,
};
use crate::single::{single, Single};
use vstd::prelude::*;

verus! {

/// A grid that the arithmetic can handle.
pub open spec fn grid_within(
    scene: VoxelCollision,
    g: Arith,
    reach: real,
    error: real,
    bound: real,
) -> bool {
    &&& rounds(g, reach, error)
    &&& error <= 1real && bound >= 1real && reach >= 100real * (bound * bound)
    &&& bound <= 8192real
    &&& vec_within(scene.grid_min, bound)
    &&& finite(scene.voxel_resolution)
    &&& 0real < number(scene.voxel_resolution) && number(scene.voxel_resolution) <= bound
    &&& number(scene.voxel_resolution) * bound >= 1real
}

/// The whole number of voxels from the edge of the grid to a place.
proof fn lemma_floor(
    g: Arith,
    reach: real,
    error: real,
    bound: real,
    at: Single,
    min: Single,
    res: Single,
) -> (whole: int)
    requires
        rounds(g, reach, error),
        error <= 1real && bound >= 1real && reach >= 100real * (bound * bound),
        bound <= 8192real,
        finite(min) && size(number(min)) <= bound,
        finite(res) && 0real < number(res) && number(res) <= bound,
        number(res) * bound >= 1real,
        finite(at) && size(number(at)) <= 4real * bound,
    ensures
        ({
            let floor = g(Op::Floor(g(Op::Div(g(Op::Sub(at, min)), res))));
            &&& finite(floor)
            &&& number(floor) == whole as real
        }),
        i32::MIN < whole < i32::MAX,
        in_slab(min, res, whole, number(at), 2real * (bound * error)),
{
    lemma_grows(1real, bound, bound);
    lemma_grows(1real, bound, error);
    lemma_grows(bound, 8192real, bound);
    let gap = g(Op::Sub(at, min));
    let s = number(gap);
    let r = number(res);
    assert(rounded(gap, number(at) - number(min), reach, error));
    lemma_quotient_size(s, r, bound);
    let quotient = g(Op::Div(gap, res));
    assert(rounded(quotient, s / r, reach, error));
    let q = number(quotient);
    lemma_quotient_times(q, s, r, bound, error);
    let floor = g(Op::Floor(quotient));
    assert(floored(floor, q));
    let whole = choose|k: int| #[trigger] is_floor(k, q) && number(floor) == k as real;
    lemma_grows(whole as real, q, r);
    lemma_grows(q, whole as real + 1real, r);
    assert((whole + 1) as real == whole as real + 1real);
    reveal(plane_at);
    whole
}

proof fn lemma_index(
    g: Arith,
    reach: real,
    error: real,
    bound: real,
    at: Single,
    min: Single,
    res: Single,
    place: real,
)
    requires
        rounds(g, reach, error),
        error <= 1real && bound >= 1real && reach >= 100real * (bound * bound),
        bound <= 8192real,
        finite(min) && size(number(min)) <= bound,
        finite(res) && 0real < number(res) && number(res) <= bound,
        number(res) * bound >= 1real,
        size(place) <= 3real * bound,
        rounded(at, place, reach, error),
    ensures
        i32::MIN < floor_index(g, at, min, res) < i32::MAX,
        in_slab(min, res, floor_index(g, at, min, res), place, 3real * (bound * error)),
{
    lemma_grows(1real, bound, bound);
    lemma_grows(1real, bound, error);
    let whole = lemma_floor(g, reach, error, bound, at, min, res);
    let floor = g(Op::Floor(g(Op::Div(g(Op::Sub(at, min)), res))));
    lemma_truncated(floor, whole, i32::MIN as int, i32::MAX as int);
}

/// The voxels that are looked at for a capsule reach from the one that holds its
/// lowest coordinates to the one that holds its highest, up to rounding, along each
/// axis.
pub proof fn law_capsule_lies_among_the_voxels_looked_at(
    scene: VoxelCollision,
    g: Arith,
    reach: real,
    error: real,
    bound: real,
    capsule: Capsule,
)
    requires
        grid_within(scene, g, reach, error, bound),
        vec_within(capsule.center, bound),
        finite(capsule.bottom) && size(number(capsule.bottom)) <= 2real * bound,
        finite(capsule.top) && size(number(capsule.top)) <= 2real * bound,
        finite(capsule.radius) && 0real <= number(capsule.radius) && number(capsule.radius) <= bound,
    ensures
        ({
            let cells = scene.touched(g, capsule);
            let min = scene.grid_min;
            let res = scene.voxel_resolution;
            let r = number(capsule.radius);
            let x = number(capsule.center.x);
            let z = number(capsule.center.z);
            let slack = 3real * (bound * error);
            &&& in_slab(min.x, res, cells.min.x as int, x - r, slack)
            &&& in_slab(min.x, res, cells.max.x as int, x + r, slack)
            &&& in_slab(min.y, res, cells.min.y as int, number(capsule.bottom) - r, slack)
            &&& in_slab(min.y, res, cells.max.y as int, number(capsule.top) + r, slack)
            &&& in_slab(min.z, res, cells.min.z as int, z - r, slack)
            &&& in_slab(min.z, res, cells.max.z as int, z + r, slack)
        }),
{
    let min = scene.grid_min;
    let res = scene.voxel_resolution;
    let r = capsule.radius;
    let c = capsule.center;
    let left = number(c.x) - number(r);
    let right = number(c.x) + number(r);
    let down = number(capsule.bottom) - number(r);
    let up = number(capsule.top) + number(r);
    let front = number(c.z) - number(r);
    let back = number(c.z) + number(r);
    lemma_index(g, reach, error, bound, g(Op::Sub(c.x, r)), min.x, res, left);
    lemma_index(g, reach, error, bound, g(Op::Add(c.x, r)), min.x, res, right);
    lemma_index(g, reach, error, bound, g(Op::Sub(capsule.bottom, r)), min.y, res, down);
    lemma_index(g, reach, error, bound, g(Op::Add(capsule.top, r)), min.y, res, up);
    lemma_index(g, reach, error, bound, g(Op::Sub(c.z, r)), min.z, res, front);
    lemma_index(g, reach, error, bound, g(Op::Add(c.z, r)), min.z, res, back);
}

/// A point lies in a voxel, up to `slack`.
pub open spec fn holds_point(scene: VoxelCollision, cell: Cell, p: Vec3, slack: real) -> bool {
    let min = scene.grid_min;
    let res = scene.voxel_resolution;
    &&& in_slab(min.x, res, cell.x as int, number(p.x), slack)
    &&& in_slab(min.y, res, cell.y as int, number(p.y), slack)
    &&& in_slab(min.z, res, cell.z as int, number(p.z), slack)
}

/// A point is looked up in the voxel that holds it, up to rounding; a point before the
/// grid lies in no solid voxel.
pub proof fn law_point_is_looked_up_where_it_is(
    scene: VoxelCollision,
    g: Arith,
    reach: real,
    error: real,
    bound: real,
    p: Vec3,
)
    requires
        grid_within(scene, g, reach, error, bound),
        vec_within(p, bound),
    ensures
        exists|cell: Cell| #[trigger]
            holds_point(scene, cell, p, 2real * (bound * error)) && scene.solid_at(g, p) == if cell.x
                < 0 || cell.y < 0 || cell.z < 0 {
                Some(false)
            } else {
                scene.solid(cell)
            },
{
    lemma_few_numbers();
    let min = scene.grid_min;
    let res = scene.voxel_resolution;
    let x = lemma_floor(g, reach, error, bound, p.x, min.x, res);
    let y = lemma_floor(g, reach, error, bound, p.y, min.y, res);
    let z = lemma_floor(g, reach, error, bound, p.z, min.z, res);
    let a = g(Op::Floor(g(Op::Div(g(Op::Sub(p.x, min.x)), res))));
    let b = g(Op::Floor(g(Op::Div(g(Op::Sub(p.y, min.y)), res))));
    let c = g(Op::Floor(g(Op::Div(g(Op::Sub(p.z, min.z)), res))));
    lemma_truncated(a, x, i64::MIN as int, i64::MAX as int);
    lemma_truncated(b, y, i64::MIN as int, i64::MAX as int);
    lemma_truncated(c, z, i64::MIN as int, i64::MAX as int);
    lemma_order(a, single(ZERO));
    lemma_order(b, single(ZERO));
    lemma_order(c, single(ZERO));
    let cell = Cell { x: x as i64, y: y as i64, z: z as i64 };
    assert(holds_point(scene, cell, p, 2real * (bound * error)));
}

/// The corners of a voxel lie on the boundaries to either side of it, up to rounding.
pub proof fn law_voxel_lies_between_its_boundaries(
    scene: VoxelCollision,
    g: Arith,
    reach: real,
    error: real,
    bound: real,
    cell: Cell,
)
    requires
        grid_within(scene, g, reach, error, bound),
        0 <= cell.x < i32::MAX && 0 <= cell.y < i32::MAX && 0 <= cell.z < i32::MAX,
        (cell.x + 1) as real <= reach,
        (cell.y + 1) as real <= reach,
        (cell.z + 1) as real <= reach,
        (cell.x + 1) as real * number(scene.voxel_resolution) <= bound,
        (cell.y + 1) as real * number(scene.voxel_resolution) <= bound,
        (cell.z + 1) as real * number(scene.voxel_resolution) <= bound,
    ensures
        ({
            let min = scene.grid_min;
            let res = scene.voxel_resolution;
            let low = scene.voxel_low(g, cell);
            let high = scene.voxel_high(g, cell);
            let slack = 4real * (bound * error);
            &&& vec_finite(low) && vec_finite(high)
            &&& close(number(low.x), plane_at(min.x, res, cell.x as int), slack)
            &&& close(number(low.y), plane_at(min.y, res, cell.y as int), slack)
            &&& close(number(low.z), plane_at(min.z, res, cell.z as int), slack)
            &&& close(number(high.x), plane_at(min.x, res, cell.x + 1), slack)
            &&& close(number(high.y), plane_at(min.y, res, cell.y + 1), slack)
            &&& close(number(high.z), plane_at(min.z, res, cell.z + 1), slack)
        }),
{
    let min = scene.grid_min;
    let res = scene.voxel_resolution;
    lemma_corner(g, reach, error, bound, min.x, res, cell.x);
    lemma_corner(g, reach, error, bound, min.y, res, cell.y);
    lemma_corner(g, reach, error, bound, min.z, res, cell.z);
}

proof fn lemma_corner(
    g: Arith,
    reach: real,
    error: real,
    bound: real,
    min: Single,
    res: Single,
    index: i64,
)
    requires
        rounds(g, reach, error),
        error <= 1real && bound >= 1real && reach >= 100real * (bound * bound),
        finite(min) && size(number(min)) <= bound,
        finite(res) && 0real < number(res) && number(res) <= bound,
        0 <= index < i32::MAX,
        (index + 1) as real <= reach,
        (index + 1) as real * number(res) <= bound,
    ensures
        ({
            let low = g(Op::Add(min, g(Op::Mul(g(Op::FromInt(index)), res))));
            let high = g(Op::Add(low, res));
            let slack = 4real * (bound * error);
            &&& finite(low) && finite(high)
            &&& close(number(low), plane_at(min, res, index as int), slack)
            &&& close(number(high), plane_at(min, res, index + 1), slack)
        }),
{
    lemma_few_numbers();
    lemma_grows(1real, bound, bound);
    lemma_grows(1real, bound, error);
    lemma_grows(error, 1real, bound);
    let r = number(res);
    let i = index as real;
    lemma_grows(i, (index + 1) as real, r);
    lemma_plane(g, reach, error, bound, single(ZERO), min, res, index);
    let low = g(Op::Add(min, g(Op::Mul(g(Op::FromInt(index)), res))));
    assert(error * bound == bound * error) by (nonlinear_arith);
    assert(rounded(g(Op::Add(low, res)), number(low) + r, reach, error));
    assert(plane_at(min, res, index + 1) == plane_at(min, res, index as int) + r) by {
        reveal(plane_at);
        assert((i + 1real) * r == i * r + r) by (nonlinear_arith);
        assert((index + 1) as real == i + 1real);
    }
}

/// The height that stands for a capsule against a voxel lies on the segment of the
/// capsule, and no other height on the segment lies closer to the voxel, up to
/// rounding.
pub proof fn law_nearest_height_is_nearest(
    g: Arith,
    reach: real,
    error: real,
    bound: real,
    capsule: Capsule,
    low: Single,
    high: Single,
    other: real,
)
    requires
        rounds(g, reach, error),
        bound >= 1real && reach >= 4real * bound,
        finite(capsule.bottom) && finite(capsule.top) && finite(low) && finite(high),
        size(number(low)) <= bound && size(number(high)) <= bound,
        error <= 1real,
        number(low) <= number(high),
        number(capsule.bottom) <= other && other <= number(capsule.top),
    ensures
        capsule.height_near(g, low, high) matches Some(height) && {
            &&& finite(height)
            &&& number(capsule.bottom) <= number(height) && number(height) <= number(capsule.top)
            &&& size(offset(number(height), number(low), number(high))) <= size(
                offset(other, number(low), number(high)),
            ) + 2real * error
        },
{
    lemma_few_numbers();
    reveal(offset);
    let sum = g(Op::Add(low, high));
    assert(rounded(sum, number(low) + number(high), reach, error));
    let h = number(single(HALF));
    assert(number(sum) * h == number(sum) / 2real) by (nonlinear_arith)
        requires
            h * 2real == 1real,
    ;
    let middle = g(Op::Mul(sum, single(HALF)));
    assert(rounded(middle, number(sum) * h, reach, error));
    lemma_order(capsule.top, low);
    lemma_order(high, capsule.bottom);
    lemma_order(capsule.bottom, capsule.top);
    lemma_order(middle, capsule.bottom);
    lemma_order(capsule.top, middle);
}

} // verus!
